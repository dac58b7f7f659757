//! The filter engine: an entry survives when any of the inclusion
//! predicates holds of it, or when no predicate was given.
//!
//! Several predicates form a union, not an intersection: `ext:py` together
//! with `group:web` keeps Python files and web files alike.
use vstd::prelude::*;
use crate::entry::{Entry, ext_text};
use crate::groups::{GroupTable, group_has};
use crate::text::{contains, has_substring, is_prefix, starts_with, str_eq, tail_eq};

verus! {

/// The entry's media type names a zip, tar or gzip archive.
pub open spec fn is_archive_type(t: Seq<char>) -> bool {
    has_substring(t, "zip"@) || has_substring(t, "x-tar"@) || has_substring(t, "x-gzip"@)
}

/// What a bare keyword predicate says of an entry; an unknown word holds of
/// nothing.
pub open spec fn keyword_holds(e: Entry, f: Seq<char>) -> bool {
    if f == "binary"@ {
        !e.is_dir && !e.is_text
    } else if f == "text"@ {
        !e.is_dir && e.is_text
    } else if f == "dir"@ {
        e.is_dir
    } else if f == "hidden"@ {
        is_prefix("."@, e.name@)
    } else if f == "empty"@ {
        !e.is_dir && e.size == 0
    } else if f == "all"@ {
        true
    } else if f == "socket"@ {
        e.is_socket
    } else if f == "pipe"@ {
        e.is_pipe
    } else if f == "symlink"@ {
        e.is_symlink
    } else if f == "device"@ {
        e.is_device
    } else if f == "executable"@ {
        e.is_executable
    } else if f == "archive"@ {
        is_archive_type(e.type_label@)
    } else {
        false
    }
}

/// One predicate holds of an entry: `ext:X` when its extension is exactly
/// `X`, `group:G` when its extension belongs to group `G`, else a keyword.
pub open spec fn predicate_holds(
    e: Entry,
    f: Seq<char>,
    groups: Seq<(Seq<char>, Seq<Seq<char>>)>,
) -> bool {
    if is_prefix("ext:"@, f) {
        f.subrange("ext:"@.len() as int, f.len() as int) == ext_text(e)
    } else if is_prefix("group:"@, f) {
        group_has(groups, f.subrange("group:"@.len() as int, f.len() as int), ext_text(e))
    } else {
        keyword_holds(e, f)
    }
}

/// The entry passes the filters: there are none, or one of them holds.
pub open spec fn filter_passes(
    e: Entry,
    fs: Seq<Seq<char>>,
    groups: Seq<(Seq<char>, Seq<Seq<char>>)>,
) -> bool {
    fs.len() == 0 || exists|i: int| 0 <= i < fs.len() && predicate_holds(e, fs[i], groups)
}

/// The views of a list of strings.
pub open spec fn views(v: Seq<String>) -> Seq<Seq<char>> {
    v.map_values(|s: String| s@)
}

fn keyword_matches(e: &Entry, f: &str) -> (r: bool)
    ensures
        r == keyword_holds(*e, f@),
{
    if str_eq(f, "binary") {
        !e.is_dir && !e.is_text
    } else if str_eq(f, "text") {
        !e.is_dir && e.is_text
    } else if str_eq(f, "dir") {
        e.is_dir
    } else if str_eq(f, "hidden") {
        starts_with(e.name.as_str(), ".")
    } else if str_eq(f, "empty") {
        !e.is_dir && e.size == 0
    } else if str_eq(f, "all") {
        true
    } else if str_eq(f, "socket") {
        e.is_socket
    } else if str_eq(f, "pipe") {
        e.is_pipe
    } else if str_eq(f, "symlink") {
        e.is_symlink
    } else if str_eq(f, "device") {
        e.is_device
    } else if str_eq(f, "executable") {
        e.is_executable
    } else if str_eq(f, "archive") {
        let t = e.type_label.as_str();
        contains(t, "zip") || contains(t, "x-tar") || contains(t, "x-gzip")
    } else {
        false
    }
}

/// Whether a single predicate holds of the entry.
pub fn predicate_matches(e: &Entry, f: &str, groups: &GroupTable) -> (r: bool)
    ensures
        r == predicate_holds(*e, f@, groups@),
{
    proof {
        reveal_strlit("ext:");
        reveal_strlit("group:");
        reveal_strlit("");
    }
    let ext = match &e.ext {
        Some(x) => x.as_str(),
        None => "",
    };
    assert(ext@ =~= ext_text(*e));
    if starts_with(f, "ext:") {
        tail_eq(f, 4, ext)
    } else if starts_with(f, "group:") {
        groups.has_at(f, 6, ext)
    } else {
        keyword_matches(e, f)
    }
}

/// Whether the entry passes the filters: always when `filters` is empty,
/// otherwise when the first predicate that holds is found.
pub fn matches_filter(e: &Entry, filters: &Vec<String>, groups: &GroupTable) -> (r: bool)
    ensures
        r == filter_passes(*e, views(filters@), groups@),
{
    if filters.len() == 0 {
        return true;
    }
    let mut i: usize = 0;
    while i < filters.len()
        invariant
            i <= filters@.len(),
            forall|k: int| 0 <= k < i ==> !predicate_holds(*e, filters@[k]@, groups@),
        decreases filters@.len() - i,
    {
        if predicate_matches(e, filters[i].as_str(), groups) {
            assert(views(filters@)[i as int] == filters@[i as int]@);
            return true;
        }
        i = i + 1;
    }
    assert forall|k: int| 0 <= k < filters@.len() implies !predicate_holds(
        *e,
        views(filters@)[k],
        groups@,
    ) by {
        assert(views(filters@)[k] == filters@[k]@);
    }
    false
}

/// With no filters every entry passes.
pub proof fn lemma_no_filters_pass(e: Entry, groups: Seq<(Seq<char>, Seq<Seq<char>>)>)
    ensures
        filter_passes(e, Seq::empty(), groups),
{
}

/// A non-empty list of filters is the union of its members: the entry passes
/// the list exactly when it passes one of the filters on its own.
pub proof fn lemma_filters_are_union(
    e: Entry,
    fs: Seq<Seq<char>>,
    groups: Seq<(Seq<char>, Seq<Seq<char>>)>,
)
    requires
        fs.len() > 0,
    ensures
        filter_passes(e, fs, groups) == (exists|i: int|
            0 <= i < fs.len() && #[trigger] filter_passes(e, seq![fs[i]], groups)),
{
    if filter_passes(e, fs, groups) {
        let i = choose|i: int| 0 <= i < fs.len() && predicate_holds(e, fs[i], groups);
        assert(seq![fs[i]][0] == fs[i]);
        assert(filter_passes(e, seq![fs[i]], groups));
    }
    if exists|i: int| 0 <= i < fs.len() && #[trigger] filter_passes(e, seq![fs[i]], groups) {
        let i = choose|i: int| 0 <= i < fs.len() && #[trigger] filter_passes(e, seq![fs[i]], groups);
        let k = choose|k: int| 0 <= k < 1 && predicate_holds(e, seq![fs[i]][k], groups);
        assert(k == 0);
        assert(predicate_holds(e, fs[i], groups));
    }
}

} // verus!
