//! The content extractor: which lines of a file are shown, numbered from 1
//! and marked as matches, either in full or as merged context windows.
use vstd::prelude::*;

verus! {

/// One item of an excerpt: a numbered line, or an elision marker that
/// stands for lines left out between two windows.
#[derive(Debug)]
pub enum ContentItem {
    Line { number: usize, text: String, is_match: bool },
    Elision,
}

/// What extraction yields: the items to show, or the report that a pattern
/// matched no line of the file.
#[derive(Debug)]
pub enum Extraction {
    Lines(Vec<ContentItem>),
    NoMatches,
}

/// The line at 0-based index `i`, numbered from 1.
pub open spec fn line_item(lines: Seq<String>, flags: Seq<bool>, i: int) -> ContentItem {
    ContentItem::Line { number: (i + 1) as usize, text: lines[i], is_match: flags[i] }
}

/// Every line, in order.
pub open spec fn all_items(lines: Seq<String>, flags: Seq<bool>) -> Seq<ContentItem> {
    Seq::new(lines.len(), |i: int| line_item(lines, flags, i))
}

/// Line `i` (0-based) lies within `c` lines of some matching line.
pub open spec fn visible(flags: Seq<bool>, c: int, i: int) -> bool {
    exists|j: int| 0 <= j < flags.len() && flags[j] && j - c <= i <= j + c
}

/// Some line matches.
pub open spec fn any_match(flags: Seq<bool>) -> bool {
    exists|j: int| 0 <= j < flags.len() && flags[j]
}

/// The windowed excerpt of the first `k` lines: each visible line in order,
/// with one elision marker before a visible line whose predecessor is not
/// visible, unless nothing was shown before it.
pub open spec fn window_items(lines: Seq<String>, flags: Seq<bool>, c: int, k: int) -> Seq<
    ContentItem,
>
    decreases k,
{
    if k <= 0 {
        Seq::empty()
    } else {
        let prev = window_items(lines, flags, c, k - 1);
        if visible(flags, c, k - 1) {
            let gap = k - 1 > 0 && !visible(flags, c, k - 2) && prev.len() > 0;
            (if gap {
                prev.push(ContentItem::Elision)
            } else {
                prev
            }).push(line_item(lines, flags, k - 1))
        } else {
            prev
        }
    }
}

impl View for Extraction {
    type V = Option<Seq<ContentItem>>;

    /// The items shown, or `None` for the no-match report.
    open spec fn view(&self) -> Option<Seq<ContentItem>> {
        match self {
            Extraction::Lines(v) => Some(v@),
            Extraction::NoMatches => None,
        }
    }
}

/// What extraction yields for the given lines: `None` for the no-match
/// report. `flags` holds, when a pattern was given, whether it matches each
/// line.
pub open spec fn extraction_of(
    lines: Seq<String>,
    flags: Option<Seq<bool>>,
    c: int,
    whole_file: bool,
) -> Option<Seq<ContentItem>> {
    match flags {
        None => Some(all_items(lines, Seq::new(lines.len(), |i: int| false))),
        Some(f) => if whole_file {
            Some(all_items(lines, f))
        } else if !any_match(f) {
            None
        } else {
            Some(window_items(lines, f, c, lines.len() as int))
        },
    }
}

/// Every line, numbered, marked as `flags` says.
pub fn number_lines(lines: &Vec<String>, flags: &Vec<bool>) -> (r: Vec<ContentItem>)
    requires
        flags@.len() == lines@.len(),
    ensures
        r@ == all_items(lines@, flags@),
{
    let mut r: Vec<ContentItem> = Vec::new();
    let mut i: usize = 0;
    while i < lines.len()
        invariant
            i <= lines@.len() == flags@.len(),
            r@ == all_items(lines@, flags@).subrange(0, i as int),
        decreases lines@.len() - i,
    {
        r.push(ContentItem::Line { number: i + 1, text: lines[i].clone(), is_match: flags[i] });
        assert(r@ =~= all_items(lines@, flags@).subrange(0, i + 1));
        i = i + 1;
    }
    assert(r@ =~= all_items(lines@, flags@));
    r
}

/// Whether line `i` lies within `c` lines of a matching line.
pub fn is_visible(flags: &Vec<bool>, c: usize, i: usize) -> (r: bool)
    requires
        i < flags@.len(),
    ensures
        r == visible(flags@, c as int, i as int),
{
    let n = flags.len();
    let lo: usize = if i >= c { i - c } else { 0 };
    let end: usize = if c < n - i { i + c + 1 } else { n };
    let mut j: usize = lo;
    while j < end
        invariant
            lo <= j <= end <= n == flags@.len(),
            lo == (if i >= c { i - c } else { 0int }),
            end == (if c < n - i { i + c + 1 } else { n as int }),
            forall|t: int| lo <= t < j ==> !flags@[t],
        decreases end - j,
    {
        if flags[j] {
            return true;
        }
        j = j + 1;
    }
    false
}

/// Merged context windows around the matching lines: each line within
/// `context` lines of a match, in order, with an elision marker wherever
/// lines are left out between two shown lines.
pub fn windowed_lines(lines: &Vec<String>, flags: &Vec<bool>, context: usize) -> (r: Vec<ContentItem>)
    requires
        flags@.len() == lines@.len(),
    ensures
        r@ == window_items(lines@, flags@, context as int, lines@.len() as int),
{
    let n = lines.len();
    let mut r: Vec<ContentItem> = Vec::new();
    let mut prev_visible = false;
    let mut i: usize = 0;
    while i < n
        invariant
            i <= n == lines@.len() == flags@.len(),
            r@ == window_items(lines@, flags@, context as int, i as int),
            prev_visible == (i > 0 && visible(flags@, context as int, i - 1)),
        decreases n - i,
    {
        let v = is_visible(flags, context, i);
        if v {
            if i > 0 && !prev_visible && r.len() > 0 {
                r.push(ContentItem::Elision);
            }
            r.push(ContentItem::Line { number: i + 1, text: lines[i].clone(), is_match: flags[i] });
        }
        prev_visible = v;
        i = i + 1;
    }
    r
}

/// Extraction from the lines of a file and, when a pattern was given,
/// whether it matches each line: every line without a pattern or in
/// whole-file mode, else the merged windows, or the no-match report when no
/// line matches.
pub fn extract_with_flags(
    lines: &Vec<String>,
    flags: Option<&Vec<bool>>,
    context: usize,
    whole_file: bool,
) -> (r: Extraction)
    requires
        flags matches Some(f) ==> f@.len() == lines@.len(),
    ensures
        r@ == extraction_of(lines@, match flags { Some(f) => Some(f@), None => None }, context as int, whole_file),
{
    match flags {
        None => {
            let mut none: Vec<bool> = Vec::new();
            let mut i: usize = 0;
            while i < lines.len()
                invariant
                    i <= lines@.len(),
                    none@ == Seq::new(i as nat, |k: int| false),
                decreases lines@.len() - i,
            {
                none.push(false);
                assert(none@ =~= Seq::new((i + 1) as nat, |k: int| false));
                i = i + 1;
            }
            assert(none@ =~= Seq::new(lines@.len(), |k: int| false));
            Extraction::Lines(number_lines(lines, &none))
        },
        Some(f) => {
            if whole_file {
                return Extraction::Lines(number_lines(lines, f));
            }
            let mut i: usize = 0;
            while i < f.len()
                invariant
                    i <= f@.len() == lines@.len(),
                    flags == Some(f),
                    !whole_file,
                    forall|k: int| 0 <= k < i ==> !f@[k],
                decreases f@.len() - i,
            {
                if f[i] {
                    assert(any_match(f@));
                    return Extraction::Lines(windowed_lines(lines, f, context));
                }
                i = i + 1;
            }
            Extraction::NoMatches
        },
    }
}

/// In whole-file mode every line is shown, numbered in order, however many
/// lines match, none included.
pub proof fn lemma_whole_file_shows_every_line(lines: Seq<String>, flags: Seq<bool>, c: int)
    requires
        flags.len() == lines.len(),
    ensures
        extraction_of(lines, Some(flags), c, true) is Some,
        extraction_of(lines, Some(flags), c, true)->0.len() == lines.len(),
        forall|i: int|
            0 <= i < lines.len() ==> #[trigger] extraction_of(lines, Some(flags), c, true)->0[i]
                == line_item(lines, flags, i),
{
}

} // verus!
