//! The sorter: orders sibling entries by a key, with directories optionally
//! placed before files, and reverses the whole order for a descending sort.
use vstd::prelude::*;
use crate::config::{SortDirection, SortField};
use crate::entry::{Entry, ext_less, modified_or_epoch, time_less};
use crate::text::{
    compare_str, lemma_seq_less_asymmetric, lemma_seq_less_irreflexive,
    lemma_seq_less_negative_transitive, seq_less,
};

verus! {

broadcast use vstd::seq_lib::to_multiset_build, vstd::seq_lib::to_multiset_insert;

/// `a` comes strictly before `b` by the key alone.
pub open spec fn key_less(a: Entry, b: Entry, key: SortField) -> bool {
    match key {
        SortField::Name => seq_less(a.name@, b.name@),
        SortField::Date => time_less(modified_or_epoch(a), modified_or_epoch(b)),
        SortField::Size => a.size < b.size,
        SortField::Type => seq_less(a.type_label@, b.type_label@),
        SortField::Ext => ext_less(a.ext, b.ext),
    }
}

/// `a` comes strictly before `b` in ascending order: with `dirs_first` a
/// directory comes before a file whatever the key, otherwise the key decides.
pub open spec fn entry_less(a: Entry, b: Entry, key: SortField, dirs_first: bool) -> bool {
    if dirs_first && a.is_dir != b.is_dir {
        a.is_dir
    } else {
        key_less(a, b, key)
    }
}

/// No entry comes strictly before one that precedes it.
pub open spec fn sorted_by(s: Seq<Entry>, key: SortField, dirs_first: bool) -> bool {
    forall|i: int, j: int| 0 <= i < j < s.len() ==> !entry_less(s[j], s[i], key, dirs_first)
}

/// Neither entry comes strictly before the other.
pub open spec fn entry_tie(a: Entry, b: Entry, key: SortField, dirs_first: bool) -> bool {
    !entry_less(a, b, key, dirs_first) && !entry_less(b, a, key, dirs_first)
}

/// The entries of `s` that tie with `y`, in the order they stand in `s`.
pub open spec fn ties(s: Seq<Entry>, y: Entry, key: SortField, dirs_first: bool) -> Seq<Entry> {
    s.filter(|e: Entry| entry_tie(e, y, key, dirs_first))
}

/// The order the sorter produces: ascending, or for `Desc` its reverse.
pub open spec fn ordered_for(
    s: Seq<Entry>,
    key: SortField,
    direction: SortDirection,
    dirs_first: bool,
) -> bool {
    match direction {
        SortDirection::Asc => sorted_by(s, key, dirs_first),
        SortDirection::Desc => sorted_by(s.reverse(), key, dirs_first),
    }
}

/// The ascending order is asymmetric.
pub proof fn lemma_entry_less_asymmetric(a: Entry, b: Entry, key: SortField, dirs_first: bool)
    ensures
        !(entry_less(a, b, key, dirs_first) && entry_less(b, a, key, dirs_first)),
{
    lemma_seq_less_asymmetric(a.name@, b.name@);
    lemma_seq_less_asymmetric(a.type_label@, b.type_label@);
    if let (Some(x), Some(y)) = (a.ext, b.ext) {
        lemma_seq_less_asymmetric(x@, y@);
    }
}

/// "Not after" is transitive in the ascending order: if `c` is before `a`,
/// any `b` is after `c` or before `a`.
pub proof fn lemma_entry_less_negative_transitive(
    a: Entry,
    b: Entry,
    c: Entry,
    key: SortField,
    dirs_first: bool,
)
    requires
        entry_less(c, a, key, dirs_first),
    ensures
        entry_less(c, b, key, dirs_first) || entry_less(b, a, key, dirs_first),
{
    if key_less(c, a, key) {
        match key {
            SortField::Name => lemma_seq_less_negative_transitive(a.name@, b.name@, c.name@),
            SortField::Type => lemma_seq_less_negative_transitive(
                a.type_label@,
                b.type_label@,
                c.type_label@,
            ),
            SortField::Ext => {
                if let (Some(x), Some(y), Some(z)) = (a.ext, b.ext, c.ext) {
                    lemma_seq_less_negative_transitive(x@, y@, z@);
                }
            },
            _ => {},
        }
    }
}

proof fn lemma_tie_excludes_after(x: Entry, y: Entry, z: Entry, key: SortField, dirs_first: bool)
    requires
        entry_tie(x, y, key, dirs_first),
        entry_less(x, z, key, dirs_first),
    ensures
        !entry_tie(z, y, key, dirs_first),
{
    lemma_entry_less_negative_transitive(z, y, x, key, dirs_first);
}

proof fn lemma_filter_none(s: Seq<Entry>, pred: spec_fn(Entry) -> bool)
    requires
        forall|i: int| 0 <= i < s.len() ==> !pred(s[i]),
    ensures
        s.filter(pred) == Seq::<Entry>::empty(),
    decreases s.len(),
{
    reveal(Seq::filter);
    if s.len() > 0 {
        lemma_filter_none(s.drop_last(), pred);
    }
}

/// Whether `a` comes strictly before `b` in ascending order.
pub fn entry_before(a: &Entry, b: &Entry, key: SortField, dirs_first: bool) -> (r: bool)
    ensures
        r == entry_less(*a, *b, key, dirs_first),
{
    if dirs_first && a.is_dir != b.is_dir {
        return a.is_dir;
    }
    match key {
        SortField::Name => compare_str(a.name.as_str(), b.name.as_str()) == -1,
        SortField::Date => {
            let x = match a.modified {
                Some(t) => t,
                None => crate::entry::Timestamp { secs: 0, nanos: 0 },
            };
            let y = match b.modified {
                Some(t) => t,
                None => crate::entry::Timestamp { secs: 0, nanos: 0 },
            };
            x.secs < y.secs || (x.secs == y.secs && x.nanos < y.nanos)
        },
        SortField::Size => a.size < b.size,
        SortField::Type => compare_str(a.type_label.as_str(), b.type_label.as_str()) == -1,
        SortField::Ext => match (&a.ext, &b.ext) {
            (None, Some(_)) => true,
            (Some(x), Some(y)) => compare_str(x.as_str(), y.as_str()) == -1,
            _ => false,
        },
    }
}

/// Sorts ascending by insertion; entries that tie keep the order they came
/// in.
fn sort_ascending(entries: Vec<Entry>, key: SortField, dirs_first: bool) -> (r: Vec<Entry>)
    ensures
        r@.to_multiset() == entries@.to_multiset(),
        sorted_by(r@, key, dirs_first),
        forall|y: Entry| #[trigger] ties(r@, y, key, dirs_first) == ties(entries@, y, key, dirs_first),
{
    let ghost orig = entries@;
    let mut rest = entries;
    let mut out: Vec<Entry> = Vec::new();
    let ghost mut done: int = 0;
    assert(out@ =~= orig.subrange(0, 0));
    assert(rest@ =~= orig.subrange(0, orig.len() as int));
    while rest.len() > 0
        invariant
            0 <= done <= orig.len(),
            rest@ == orig.subrange(done, orig.len() as int),
            out@.to_multiset() == orig.subrange(0, done).to_multiset(),
            sorted_by(out@, key, dirs_first),
            forall|y: Entry| #[trigger] ties(out@, y, key, dirs_first) == ties(orig.subrange(0, done), y, key, dirs_first),
        decreases rest@.len(),
    {
        let x = rest.remove(0);
        assert(orig.subrange(0, done + 1) =~= orig.subrange(0, done).push(x));
        assert(rest@ =~= orig.subrange(done + 1, orig.len() as int));
        let mut j: usize = out.len();
        while j > 0 && entry_before(&x, &out[j - 1], key, dirs_first)
            invariant
                j <= out@.len(),
                forall|k: int| j <= k < out@.len() ==> entry_less(x, out@[k], key, dirs_first),
            decreases j,
        {
            j = j - 1;
        }
        let ghost old_out = out@;
        out.insert(j, x);
        proof {
            assert forall|p: int, q: int| 0 <= p < q < out@.len() implies !entry_less(
                out@[q],
                out@[p],
                key,
                dirs_first,
            ) by {
                if q == j {
                    if entry_less(x, old_out[p], key, dirs_first) {
                        lemma_entry_less_negative_transitive(old_out[p], old_out[j - 1], x, key, dirs_first);
                    }
                } else if p == j {
                    lemma_entry_less_asymmetric(x, old_out[q - 1], key, dirs_first);
                } else {
                    let pp = if p < j { p } else { p - 1 };
                    let qq = if q < j { q } else { q - 1 };
                    assert(out@[p] == old_out[pp]);
                    assert(out@[q] == old_out[qq]);
                }
            }
            assert forall|y: Entry| #[trigger] ties(out@, y, key, dirs_first) == ties(
                orig.subrange(0, done + 1),
                y,
                key,
                dirs_first,
            ) by {
                let pred = |e: Entry| entry_tie(e, y, key, dirs_first);
                assert(ties(old_out, y, key, dirs_first) == ties(orig.subrange(0, done), y, key, dirs_first));
                assert(ties(old_out, y, key, dirs_first) == old_out.filter(pred));
                assert(ties(out@, y, key, dirs_first) == out@.filter(pred));
                assert(ties(orig.subrange(0, done + 1), y, key, dirs_first) == orig.subrange(0, done).push(x).filter(pred));
                let prefix = old_out.subrange(0, j as int);
                let suffix = old_out.subrange(j as int, old_out.len() as int);
                assert(out@ == prefix.push(x) + suffix);
                assert(old_out =~= prefix + suffix);
                Seq::filter_distributes_over_add(prefix.push(x), suffix, pred);
                Seq::filter_distributes_over_add(prefix, suffix, pred);
                prefix.lemma_filter_push(x, pred);
                orig.subrange(0, done).lemma_filter_push(x, pred);
                if entry_tie(x, y, key, dirs_first) {
                    assert forall|i: int| 0 <= i < suffix.len() implies !pred(suffix[i]) by {
                        lemma_tie_excludes_after(x, y, suffix[i], key, dirs_first);
                    }
                    lemma_filter_none(suffix, pred);
                    assert(prefix.filter(pred) + Seq::<Entry>::empty() =~= prefix.filter(pred));
                    assert(prefix.filter(pred).push(x) + Seq::<Entry>::empty() =~= prefix.filter(pred).push(x));
                    assert(out@.filter(pred) == prefix.filter(pred).push(x));
                    assert(old_out.filter(pred) == prefix.filter(pred));
                } else {
                    assert(out@.filter(pred) == prefix.filter(pred) + suffix.filter(pred));
                }
            }
            done = done + 1;
        }
    }
    assert(orig.subrange(0, done) =~= orig);
    out
}

/// Reverses the order of the entries.
fn reverse_entries(entries: Vec<Entry>) -> (r: Vec<Entry>)
    ensures
        r@ == entries@.reverse(),
{
    let ghost orig = entries@;
    let mut rest = entries;
    let mut out: Vec<Entry> = Vec::new();
    while rest.len() > 0
        invariant
            rest@.len() <= orig.len(),
            rest@ == orig.subrange(0, rest@.len() as int),
            out@.len() == orig.len() - rest@.len(),
            forall|k: int| 0 <= k < out@.len() ==> out@[k] == orig[orig.len() - 1 - k],
        decreases rest@.len(),
    {
        let ghost n = rest@.len();
        let x = rest.pop().unwrap();
        assert(x == orig[n - 1]);
        out.push(x);
        assert(rest@ =~= orig.subrange(0, rest@.len() as int));
    }
    assert(out@ =~= orig.reverse());
    out
}

/// Orders sibling entries: ascending by the key (directories first when
/// `dirs_first`), entries that tie keeping the order they came in; for
/// `Desc` the whole ascending order reversed, which also puts files before
/// directories.
pub fn sort_entries(entries: &mut Vec<Entry>, key: SortField, direction: SortDirection, dirs_first: bool)
    ensures
        final(entries)@.to_multiset() == old(entries)@.to_multiset(),
        ordered_for(final(entries)@, key, direction, dirs_first),
        direction == SortDirection::Asc ==> forall|y: Entry|
            #[trigger] ties(final(entries)@, y, key, dirs_first) == ties(old(entries)@, y, key, dirs_first),
        direction == SortDirection::Desc ==> forall|y: Entry|
            #[trigger] ties(final(entries)@.reverse(), y, key, dirs_first) == ties(old(entries)@, y, key, dirs_first),
{
    let mut taken: Vec<Entry> = Vec::new();
    std::mem::swap(entries, &mut taken);
    let sorted = sort_ascending(taken, key, dirs_first);
    match direction {
        SortDirection::Asc => {
            *entries = sorted;
        },
        SortDirection::Desc => {
            let r = reverse_entries(sorted);
            proof {
                sorted@.lemma_reverse_to_multiset();
                assert(r@.reverse() =~= sorted@);
            }
            *entries = r;
        },
    }
}

/// Reversing twice gives back the original order, so a descending order
/// reversed is the ascending order, and the other way round.
pub proof fn lemma_reverse_involution(s: Seq<Entry>, key: SortField, dirs_first: bool)
    ensures
        s.reverse().reverse() == s,
        ordered_for(s, key, SortDirection::Desc, dirs_first) == ordered_for(
            s.reverse(),
            key,
            SortDirection::Asc,
            dirs_first,
        ),
        ordered_for(s, key, SortDirection::Asc, dirs_first) == ordered_for(
            s.reverse(),
            key,
            SortDirection::Desc,
            dirs_first,
        ),
{
    assert(s.reverse().reverse() =~= s);
}

/// With directories first, an ascending order puts every directory before
/// every file and a descending one every file before every directory; two
/// directories, or two files, stand in key order ascending and in reverse
/// key order descending.
pub proof fn lemma_dirs_first_partition(s: Seq<Entry>, key: SortField)
    requires
        sorted_by(s, key, true),
    ensures
        forall|i: int, j: int| 0 <= i < j < s.len() && s[j].is_dir ==> s[i].is_dir,
        forall|i: int, j: int|
            0 <= i < j < s.len() && s[i].is_dir == s[j].is_dir ==> !key_less(s[j], s[i], key),
        forall|i: int, j: int|
            0 <= i < j < s.len() && s.reverse()[i].is_dir ==> s.reverse()[j].is_dir,
        forall|i: int, j: int|
            0 <= i < j < s.len() && s.reverse()[i].is_dir == s.reverse()[j].is_dir ==> !key_less(
                s.reverse()[i],
                s.reverse()[j],
                key,
            ),
{
    assert forall|i: int, j: int| 0 <= i < j < s.len() && s[j].is_dir implies s[i].is_dir by {
        assert(!entry_less(s[j], s[i], key, true));
    }
    assert forall|i: int, j: int|
        0 <= i < j < s.len() && s[i].is_dir == s[j].is_dir implies !key_less(s[j], s[i], key) by {
        assert(!entry_less(s[j], s[i], key, true));
    }
    assert forall|i: int, j: int| 0 <= i < j < s.len() && s.reverse()[i].is_dir implies s.reverse()[j].is_dir by {
        assert(s.reverse()[i] == s[s.len() - 1 - i]);
        assert(s.reverse()[j] == s[s.len() - 1 - j]);
        assert(!entry_less(s[s.len() - 1 - i], s[s.len() - 1 - j], key, true));
    }
    assert forall|i: int, j: int|
        0 <= i < j < s.len() && s.reverse()[i].is_dir == s.reverse()[j].is_dir implies !key_less(
        s.reverse()[i],
        s.reverse()[j],
        key,
    ) by {
        assert(s.reverse()[i] == s[s.len() - 1 - i]);
        assert(s.reverse()[j] == s[s.len() - 1 - j]);
        assert(!entry_less(s[s.len() - 1 - i], s[s.len() - 1 - j], key, true));
    }
}

} // verus!
