use source_tree::config::{SortDirection, SortField};
use source_tree::entry::{Entry, Timestamp};
use source_tree::sort::{entry_before, sort_entries};

fn entry(name: &str, is_dir: bool, size: u64, secs: Option<i64>, ext: Option<&str>, mime: &str) -> Entry {
    Entry::classify(
        name.to_string(),
        is_dir,
        size,
        secs.map(|s| Timestamp { secs: s, nanos: 0 }),
        ext.map(|e| e.to_string()),
        mime.to_string(),
        0o644,
        false,
        false,
        false,
        false,
    )
}

fn sample() -> Vec<Entry> {
    vec![
        entry("zeta.rs", false, 300, Some(30), Some("rs"), "text/x-rust"),
        entry("alpha", true, 0, Some(50), None, "inode/directory"),
        entry("beta.md", false, 100, None, Some("md"), "text/markdown"),
        entry("gamma", true, 0, Some(10), None, "inode/directory"),
        entry("Makefile", false, 200, Some(20), None, "text/x-makefile"),
    ]
}

fn names(v: &[Entry]) -> Vec<String> {
    v.iter().map(|e| e.name.clone()).collect()
}

fn sorted(key: SortField, dir: SortDirection, dirs_first: bool) -> Vec<String> {
    let mut v = sample();
    sort_entries(&mut v, key, dir, dirs_first);
    names(&v)
}

#[test]
fn name_order_with_directories_first() {
    assert_eq!(sorted(SortField::Name, SortDirection::Asc, true), vec!["alpha", "gamma", "Makefile", "beta.md", "zeta.rs"]);
}

#[test]
fn name_order_without_partition() {
    assert_eq!(sorted(SortField::Name, SortDirection::Asc, false), vec!["Makefile", "alpha", "beta.md", "gamma", "zeta.rs"]);
}

#[test]
fn descending_reverses_everything_including_partition() {
    assert_eq!(sorted(SortField::Name, SortDirection::Desc, true), vec!["zeta.rs", "beta.md", "Makefile", "gamma", "alpha"]);
}

#[test]
fn reversing_twice_restores_name_order() {
    let mut v = sample();
    sort_entries(&mut v, SortField::Name, SortDirection::Asc, true);
    let asc = names(&v);
    v.reverse();
    v.reverse();
    assert_eq!(names(&v), asc);
    let mut d = sample();
    sort_entries(&mut d, SortField::Name, SortDirection::Desc, true);
    let mut back = names(&d);
    back.reverse();
    assert_eq!(back, asc);
}

#[test]
fn partition_flips_between_directions() {
    let asc = sorted(SortField::Size, SortDirection::Asc, true);
    let desc = sorted(SortField::Size, SortDirection::Desc, true);
    assert_eq!(asc, vec!["alpha", "gamma", "beta.md", "Makefile", "zeta.rs"]);
    assert_eq!(desc, vec!["zeta.rs", "Makefile", "beta.md", "gamma", "alpha"]);
}

#[test]
fn date_order_treats_unknown_as_epoch() {
    assert_eq!(sorted(SortField::Date, SortDirection::Asc, false), vec!["beta.md", "gamma", "Makefile", "zeta.rs", "alpha"]);
}

#[test]
fn size_ties_keep_encounter_order() {
    assert_eq!(sorted(SortField::Size, SortDirection::Asc, false), vec!["alpha", "gamma", "beta.md", "Makefile", "zeta.rs"]);
}

#[test]
fn extension_order_puts_missing_first() {
    assert_eq!(sorted(SortField::Ext, SortDirection::Asc, false), vec!["alpha", "gamma", "Makefile", "beta.md", "zeta.rs"]);
}

#[test]
fn type_order_compares_labels() {
    assert_eq!(sorted(SortField::Type, SortDirection::Asc, false), vec!["alpha", "gamma", "beta.md", "Makefile", "zeta.rs"]);
}

#[test]
fn comparator_is_strict() {
    let a = entry("a", false, 1, None, None, "text/plain");
    let b = entry("b", false, 1, None, None, "text/plain");
    assert!(entry_before(&a, &b, SortField::Name, true));
    assert!(!entry_before(&b, &a, SortField::Name, true));
    assert!(!entry_before(&a, &a, SortField::Name, true));
    assert!(!entry_before(&a, &b, SortField::Size, true));
}

#[test]
fn sort_flags_fall_back_to_defaults() {
    assert_eq!(SortField::from_str("date"), SortField::Date);
    assert_eq!(SortField::from_str("size"), SortField::Size);
    assert_eq!(SortField::from_str("type"), SortField::Type);
    assert_eq!(SortField::from_str("ext"), SortField::Ext);
    assert_eq!(SortField::from_str("bogus"), SortField::Name);
    assert_eq!(SortField::parse("bogus"), None);
    assert_eq!(SortField::parse("name"), Some(SortField::Name));
    assert_eq!(SortDirection::from_str("desc"), SortDirection::Desc);
    assert_eq!(SortDirection::from_str("DESC"), SortDirection::Asc);
}

#[test]
fn sorting_empty_and_single_lists() {
    let mut v: Vec<Entry> = Vec::new();
    sort_entries(&mut v, SortField::Name, SortDirection::Desc, true);
    assert!(v.is_empty());
    let mut one = vec![entry("x", false, 1, None, None, "text/plain")];
    sort_entries(&mut one, SortField::Date, SortDirection::Asc, false);
    assert_eq!(names(&one), vec!["x"]);
}
