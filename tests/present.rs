use source_tree::groups::file_type_groups;
use source_tree::present::{guess_language, size_unit, type_label_of};
use source_tree::text::{compare_str, contains, starts_with, str_eq};

#[test]
fn language_tags() {
    assert_eq!(guess_language(Some("py")), "python");
    assert_eq!(guess_language(Some("hpp")), "cpp");
    assert_eq!(guess_language(Some("zsh")), "bash");
    assert_eq!(guess_language(Some("yml")), "yaml");
    assert_eq!(guess_language(Some("Makefile")), "makefile");
    assert_eq!(guess_language(Some("weird")), "text");
    assert_eq!(guess_language(None), "text");
}

#[test]
fn size_units() {
    assert_eq!(size_unit(0), (0, 'B'));
    assert_eq!(size_unit(1023), (1023, 'B'));
    assert_eq!(size_unit(1024), (1, 'K'));
    assert_eq!(size_unit(1_048_575), (1023, 'K'));
    assert_eq!(size_unit(1_048_576), (1, 'M'));
    assert_eq!(size_unit(5_000_000_000), (4, 'G'));
}

#[test]
fn media_type_defaults_to_octet_stream() {
    assert_eq!(type_label_of(None), "application/octet-stream");
    assert_eq!(type_label_of(Some("text/plain")), "text/plain");
}

#[test]
fn group_table_contents() {
    let g = file_type_groups();
    assert_eq!(g.groups.len(), 7);
    let names: Vec<&str> = g.groups.iter().map(|x| x.name.as_str()).collect();
    assert_eq!(names, vec!["web", "docs", "images", "code", "config", "data", "script"]);
    assert_eq!(g.groups[3].extensions.len(), 15);
    assert!(g.has_at("group:web", 6, "tsx"));
    assert!(!g.has_at("group:web", 6, "py"));
}

#[test]
fn string_helpers() {
    assert!(str_eq("abc", "abc"));
    assert!(!str_eq("abc", "abd"));
    assert!(starts_with("text/plain", "text/"));
    assert!(!starts_with("tex", "text/"));
    assert!(contains("application/x-gzip", "x-gzip"));
    assert!(!contains("application/pdf", "zip"));
    assert_eq!(compare_str("a", "b"), -1);
    assert_eq!(compare_str("b", "a"), 1);
    assert_eq!(compare_str("ab", "ab"), 0);
    assert_eq!(compare_str("ab", "abc"), -1);
    assert_eq!(compare_str("Z", "a"), -1);
    assert_eq!(compare_str("é", "z"), 1);
}
