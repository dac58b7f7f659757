//! Classified directory entries.
use vstd::prelude::*;
use crate::text::{seq_less, starts_with};

verus! {

/// A point in time: whole seconds from the Unix epoch (negative before it)
/// and nanoseconds within that second.
#[derive(Clone, Copy, Debug, PartialEq, Eq, Structural)]
pub struct Timestamp {
    pub secs: i64,
    pub nanos: u32,
}

/// Chronological order on timestamps.
pub open spec fn time_less(a: Timestamp, b: Timestamp) -> bool {
    a.secs < b.secs || (a.secs == b.secs && a.nanos < b.nanos)
}

/// A classified filesystem node, as one directory listing sees it.
#[derive(Clone, Debug)]
pub struct Entry {
    /// The final component of the entry's path.
    pub name: String,
    pub is_dir: bool,
    /// Byte length; always 0 for directories.
    pub size: u64,
    pub modified: Option<Timestamp>,
    /// The text after the last dot of the name, if any.
    pub ext: Option<String>,
    /// The media type sniffed from the content.
    pub type_label: String,
    pub is_text: bool,
    pub is_executable: bool,
    pub is_symlink: bool,
    pub is_socket: bool,
    pub is_pipe: bool,
    pub is_device: bool,
}

/// The media type names a textual format.
pub open spec fn is_text_type(t: Seq<char>) -> bool {
    crate::text::is_prefix("text/"@, t)
}

/// Some execute permission bit is set in `mode`.
pub open spec fn has_exec_bit(mode: u32) -> bool {
    mode & 0o111u32 != 0
}

/// The extension of an entry as the filters read it: empty when it has none.
pub open spec fn ext_text(e: Entry) -> Seq<char> {
    match e.ext {
        Some(x) => x@,
        None => Seq::empty(),
    }
}

/// The modification time the sorter uses: the epoch when it is unknown.
pub open spec fn modified_or_epoch(e: Entry) -> Timestamp {
    match e.modified {
        Some(t) => t,
        None => Timestamp { secs: 0, nanos: 0 },
    }
}

/// Extensions in order: none before any, then lexicographic.
pub open spec fn ext_less(a: Option<String>, b: Option<String>) -> bool {
    match (a, b) {
        (None, Some(_)) => true,
        (Some(x), Some(y)) => seq_less(x@, y@),
        _ => false,
    }
}

impl Entry {
    /// Builds the entry from metadata read off the filesystem: a directory
    /// has size 0 and is never text or executable; a file is text when its
    /// sniffed media type is `text/*`, executable when an execute bit is set.
    pub fn classify(
        name: String,
        is_dir: bool,
        len: u64,
        modified: Option<Timestamp>,
        ext: Option<String>,
        type_label: String,
        mode: u32,
        is_symlink: bool,
        is_socket: bool,
        is_pipe: bool,
        is_device: bool,
    ) -> (r: Entry)
        ensures
            r.name == name,
            r.is_dir == is_dir,
            r.size == (if is_dir { 0 } else { len }),
            r.modified == modified,
            r.ext == ext,
            r.type_label == type_label,
            r.is_text == (!is_dir && is_text_type(type_label@)),
            r.is_executable == (!is_dir && has_exec_bit(mode)),
            r.is_symlink == is_symlink,
            r.is_socket == is_socket,
            r.is_pipe == is_pipe,
            r.is_device == is_device,
    {
        let is_text = !is_dir && starts_with(type_label.as_str(), "text/");
        let is_executable = !is_dir && mode & 0o111u32 != 0;
        Entry {
            name,
            is_dir,
            size: if is_dir { 0 } else { len },
            modified,
            ext,
            type_label,
            is_text,
            is_executable,
            is_symlink,
            is_socket,
            is_pipe,
            is_device,
        }
    }
}

} // verus!
