//! Classification, filtering, ordering and content excerption for an
//! annotated directory-tree report.
pub mod text;
pub mod config;
pub mod entry;
pub mod groups;
pub mod filter;
pub mod extract;
pub mod pattern;
pub mod sort;
pub mod walk;
pub mod present;
