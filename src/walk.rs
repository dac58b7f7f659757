//! The walker's decisions: how deep to go, which children of a directory
//! are listed and in what order, and which of them are descended into. The
//! directory reads themselves are left to the caller.
use vstd::prelude::*;
use crate::config::{SortDirection, SortField};
use crate::entry::Entry;
use crate::filter::{filter_passes, matches_filter, views};
use crate::groups::GroupTable;
use crate::sort::{ordered_for, sort_entries};
use crate::text::str_eq;

verus! {

broadcast use vstd::seq_lib::to_multiset_build;

/// Run-level configuration of a walk.
pub struct WalkConfig {
    /// Deepest level listed, children of the root being level 1; 0 for no bound.
    pub depth_bound: usize,
    /// Basenames that are never listed.
    pub exclude: Vec<String>,
    /// Inclusion predicates; an entry is listed when any holds, or when there are none.
    pub filters: Vec<String>,
    pub groups: GroupTable,
    pub sort_by: SortField,
    pub direction: SortDirection,
    pub dirs_first: bool,
}

/// Level `depth` is listed under `bound`.
pub open spec fn depth_allowed(bound: int, depth: int) -> bool {
    bound == 0 || depth <= bound
}

/// `name` is one of the excluded basenames.
pub open spec fn excluded(exclude: Seq<Seq<char>>, name: Seq<char>) -> bool {
    exists|i: int| 0 <= i < exclude.len() && exclude[i] == name
}

/// The entry is listed: not excluded, and it passes the filters.
pub open spec fn listed(c: WalkConfig, e: Entry) -> bool {
    !excluded(views(c.exclude@), e.name@) && filter_passes(e, views(c.filters@), c.groups@)
}

/// Whether level `depth` is listed under the bound.
pub fn within_depth(bound: usize, depth: usize) -> (r: bool)
    ensures
        r == depth_allowed(bound as int, depth as int),
{
    bound == 0 || depth <= bound
}

/// Whether `name` is one of the excluded basenames.
pub fn is_excluded(name: &str, exclude: &Vec<String>) -> (r: bool)
    ensures
        r == excluded(views(exclude@), name@),
{
    let mut i: usize = 0;
    while i < exclude.len()
        invariant
            i <= exclude@.len(),
            forall|k: int| 0 <= k < i ==> exclude@[k]@ != name@,
        decreases exclude@.len() - i,
    {
        if str_eq(exclude[i].as_str(), name) {
            assert(views(exclude@)[i as int] == name@);
            return true;
        }
        i = i + 1;
    }
    assert forall|k: int| 0 <= k < exclude@.len() implies views(exclude@)[k] != name@ by {
        assert(views(exclude@)[k] == exclude@[k]@);
    }
    false
}

/// The children of one directory as they are listed: those neither
/// excluded nor filtered out, in the configured order.
pub fn select_entries(candidates: Vec<Entry>, config: &WalkConfig) -> (r: Vec<Entry>)
    ensures
        r@.to_multiset() == candidates@.filter(|e: Entry| listed(*config, e)).to_multiset(),
        ordered_for(r@, config.sort_by, config.direction, config.dirs_first),
{
    let ghost orig = candidates@;
    let mut rest = candidates;
    let mut kept: Vec<Entry> = Vec::new();
    let ghost mut done: int = 0;
    assert(kept@ =~= orig.subrange(0, 0).filter(|e: Entry| listed(*config, e)));
    assert(rest@ =~= orig.subrange(0, orig.len() as int));
    while rest.len() > 0
        invariant
            0 <= done <= orig.len(),
            rest@ == orig.subrange(done, orig.len() as int),
            kept@ == orig.subrange(0, done).filter(|e: Entry| listed(*config, e)),
        decreases rest@.len(),
    {
        let e = rest.remove(0);
        proof {
            assert(orig.subrange(0, done + 1) =~= orig.subrange(0, done).push(e));
            orig.subrange(0, done).lemma_filter_push(e, |e: Entry| listed(*config, e));
        }
        assert(rest@ =~= orig.subrange(done + 1, orig.len() as int));
        if !is_excluded(e.name.as_str(), &config.exclude) && matches_filter(
            &e,
            &config.filters,
            &config.groups,
        ) {
            kept.push(e);
        }
        proof {
            done = done + 1;
        }
    }
    assert(orig.subrange(0, done) =~= orig);
    sort_entries(&mut kept, config.sort_by, config.direction, config.dirs_first);
    kept
}

/// Whether a listed entry at level `depth` is descended into: it is a
/// directory and the next level is within the bound.
pub fn descends(e: &Entry, depth: usize, bound: usize) -> (r: bool)
    ensures
        r == (e.is_dir && depth_allowed(bound as int, depth + 1)),
{
    e.is_dir && (bound == 0 || depth < bound)
}

/// Under a bound of 1 only the children of the root are listed; under no
/// bound (0) every level is.
pub proof fn lemma_depth_bounds(depth: int)
    requires
        depth >= 1,
    ensures
        depth_allowed(1, depth) <==> depth == 1,
        depth_allowed(0, depth),
{
}

} // verus!
