use source_tree::config::{SortDirection, SortField};
use source_tree::entry::{Entry, Timestamp};
use source_tree::filter::{matches_filter, predicate_matches};
use source_tree::groups::file_type_groups;
use source_tree::walk::{descends, is_excluded, select_entries, within_depth, WalkConfig};

fn file(name: &str, ext: Option<&str>, size: u64, mime: &str) -> Entry {
    Entry::classify(
        name.to_string(),
        false,
        size,
        Some(Timestamp { secs: 100, nanos: 0 }),
        ext.map(|e| e.to_string()),
        mime.to_string(),
        0o644,
        false,
        false,
        false,
        false,
    )
}

fn dir(name: &str) -> Entry {
    Entry::classify(
        name.to_string(),
        true,
        4096,
        None,
        None,
        "inode/directory".to_string(),
        0o755,
        false,
        false,
        false,
        false,
    )
}

fn strings(xs: &[&str]) -> Vec<String> {
    xs.iter().map(|s| s.to_string()).collect()
}

#[test]
fn empty_filter_list_passes_everything() {
    let g = file_type_groups();
    let none: Vec<String> = Vec::new();
    assert!(matches_filter(&file("a.py", Some("py"), 10, "text/x-python"), &none, &g));
    assert!(matches_filter(&dir("src"), &none, &g));
    assert!(matches_filter(&file("blob", None, 0, "application/octet-stream"), &none, &g));
}

#[test]
fn filters_form_a_union() {
    let g = file_type_groups();
    let fs = strings(&["ext:py", "group:web"]);
    let py = file("a.py", Some("py"), 10, "text/x-python");
    let js = file("b.js", Some("js"), 10, "text/javascript");
    let md = file("c.md", Some("md"), 10, "text/markdown");
    for e in [&py, &js, &md] {
        let any = fs.iter().any(|f| matches_filter(e, &vec![f.clone()], &g));
        assert_eq!(matches_filter(e, &fs, &g), any);
    }
    assert!(matches_filter(&py, &fs, &g));
    assert!(matches_filter(&js, &fs, &g));
    assert!(!matches_filter(&md, &fs, &g));
}

#[test]
fn extension_predicate_is_exact_and_case_sensitive() {
    let g = file_type_groups();
    assert!(predicate_matches(&file("a.py", Some("py"), 1, "text/plain"), "ext:py", &g));
    assert!(!predicate_matches(&file("a.PY", Some("PY"), 1, "text/plain"), "ext:py", &g));
    assert!(!predicate_matches(&file("a.pyc", Some("pyc"), 1, "text/plain"), "ext:py", &g));
    assert!(predicate_matches(&file("README", None, 1, "text/plain"), "ext:", &g));
}

#[test]
fn group_predicates() {
    let g = file_type_groups();
    assert!(predicate_matches(&file("x.rs", Some("rs"), 1, "text/plain"), "group:code", &g));
    assert!(predicate_matches(&file("x.sqlite", Some("sqlite"), 1, "application/x-sqlite3"), "group:data", &g));
    assert!(!predicate_matches(&file("x.rs", Some("rs"), 1, "text/plain"), "group:web", &g));
    assert!(!predicate_matches(&file("x.rs", Some("rs"), 1, "text/plain"), "group:nosuch", &g));
    assert!(!predicate_matches(&file("x", None, 1, "text/plain"), "group:code", &g));
}

#[test]
fn keyword_predicates() {
    let g = file_type_groups();
    let text = file("notes.txt", Some("txt"), 5, "text/plain");
    let bin = file("image.png", Some("png"), 5, "image/png");
    let empty = file("empty.txt", Some("txt"), 0, "application/x-empty");
    let hidden = file(".env", None, 3, "text/plain");
    let zip = file("a.zip", Some("zip"), 9, "application/zip");
    let tgz = file("a.tgz", Some("tgz"), 9, "application/x-gzip");
    let d = dir("sub");
    assert!(predicate_matches(&text, "text", &g));
    assert!(!predicate_matches(&text, "binary", &g));
    assert!(predicate_matches(&bin, "binary", &g));
    assert!(!predicate_matches(&d, "binary", &g));
    assert!(!predicate_matches(&d, "text", &g));
    assert!(predicate_matches(&d, "dir", &g));
    assert!(predicate_matches(&empty, "empty", &g));
    assert!(!predicate_matches(&d, "empty", &g));
    assert!(predicate_matches(&hidden, "hidden", &g));
    assert!(!predicate_matches(&text, "hidden", &g));
    assert!(predicate_matches(&zip, "archive", &g));
    assert!(predicate_matches(&tgz, "archive", &g));
    assert!(!predicate_matches(&text, "archive", &g));
    assert!(predicate_matches(&text, "all", &g));
    assert!(!predicate_matches(&text, "bogus", &g));
}

#[test]
fn special_kinds_and_executable_bits() {
    let g = file_type_groups();
    let e = Entry::classify("run.sh".to_string(), false, 10, None, Some("sh".to_string()),
        "text/x-shellscript".to_string(), 0o755, true, false, false, false);
    assert!(e.is_executable && e.is_text);
    assert!(predicate_matches(&e, "executable", &g));
    assert!(predicate_matches(&e, "symlink", &g));
    assert!(!predicate_matches(&e, "socket", &g));
    let s = Entry::classify("sock".to_string(), false, 0, None, None,
        "inode/socket".to_string(), 0o600, false, true, false, false);
    assert!(!s.is_executable);
    assert!(predicate_matches(&s, "socket", &g));
    let p = Entry::classify("fifo".to_string(), false, 0, None, None,
        "inode/fifo".to_string(), 0o600, false, false, true, false);
    assert!(predicate_matches(&p, "pipe", &g));
    let dev = Entry::classify("sda".to_string(), false, 0, None, None,
        "inode/blockdevice".to_string(), 0o600, false, false, false, true);
    assert!(predicate_matches(&dev, "device", &g));
    let d = dir("bin");
    assert!(!d.is_executable);
    assert_eq!(d.size, 0);
}

fn walk_config(filters: &[&str], exclude: &[&str]) -> WalkConfig {
    WalkConfig {
        depth_bound: 1,
        exclude: strings(exclude),
        filters: strings(filters),
        groups: file_type_groups(),
        sort_by: SortField::Name,
        direction: SortDirection::Asc,
        dirs_first: true,
    }
}

#[test]
fn filter_and_exclusion_select_only_the_python_file() {
    let c = walk_config(&["ext:py"], &["sub"]);
    let got = select_entries(
        vec![file("a.py", Some("py"), 3, "text/x-python"), file("b.txt", Some("txt"), 3, "text/plain"), dir("sub")],
        &c,
    );
    let names: Vec<&str> = got.iter().map(|e| e.name.as_str()).collect();
    assert_eq!(names, vec!["a.py"]);
}

#[test]
fn exclusion_applies_without_filters() {
    let c = walk_config(&[], &["target", ".git"]);
    let got = select_entries(vec![dir("target"), dir(".git"), dir("src"), file("Cargo.toml", Some("toml"), 1, "text/plain")], &c);
    let names: Vec<&str> = got.iter().map(|e| e.name.as_str()).collect();
    assert_eq!(names, vec!["src", "Cargo.toml"]);
    assert!(is_excluded("target", &strings(&["target"])));
    assert!(!is_excluded("targets", &strings(&["target"])));
}

#[test]
fn depth_bound_of_one_lists_only_children() {
    assert!(within_depth(1, 1));
    assert!(!within_depth(1, 2));
    assert!(!within_depth(1, 3));
    assert!(within_depth(0, 1));
    assert!(within_depth(0, 2));
    assert!(within_depth(0, 50));
    assert!(!descends(&dir("sub"), 1, 1));
    assert!(descends(&dir("sub"), 1, 0));
    assert!(descends(&dir("sub"), 1, 2));
    assert!(!descends(&file("a", None, 1, "text/plain"), 1, 0));
}
