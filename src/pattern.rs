//! Content patterns: regular expressions compiled by the `regex` crate.
use vstd::prelude::*;
use vstd::string::StringSliceAdditionalSpecFns;
use crate::extract::{Extraction, extract_with_flags, extraction_of};

verus! {

#[verifier::external_type_specification]
#[verifier::external_body]
pub struct ExRegex(regex::Regex);

#[verifier::external_type_specification]
#[verifier::external_body]
pub struct ExRegexError(regex::Error);

/// Whether `regex` accepts `source` as a regular expression.
pub uninterp spec fn regex_accepts(source: Seq<char>) -> bool;

/// Whether the regular expression `source` matches somewhere in `line`.
pub uninterp spec fn regex_is_match(source: Seq<char>, line: Seq<char>) -> bool;

/// The byte spans of the successive non-overlapping matches of the regular
/// expression `source` in `line`.
pub uninterp spec fn regex_spans(source: Seq<char>, line: Seq<char>) -> Seq<(usize, usize)>;

/// Spans that lie within `len` bytes, each starting no earlier than the one
/// before it ends.
pub open spec fn spans_ordered(s: Seq<(usize, usize)>, len: int) -> bool {
    &&& forall|k: int| 0 <= k < s.len() ==> #[trigger] s[k].0 <= s[k].1 <= len
    &&& forall|k: int| 0 <= k < s.len() - 1 ==> #[trigger] s[k].1 <= s[k + 1].0
}

/// The input a pattern could not be built from.
#[derive(Clone, Copy, Debug, PartialEq, Eq, Structural)]
pub enum PatternError {
    Invalid,
}

/// A compiled regular expression together with its source text.
pub struct Pattern {
    source: String,
    re: regex::Regex,
}

/// Relies on `regex::Regex::new`: it compiles `s` or reports an error,
/// depending on `s` alone.
#[verifier::external_body]
fn compile(s: &str) -> (r: Result<regex::Regex, regex::Error>)
    ensures
        r is Ok <==> regex_accepts(s@),
{
    regex::Regex::new(s)
}

/// Relies on `regex::Regex::is_match`: whether the compiled expression
/// matches somewhere in `line`.
#[verifier::external_body]
fn re_is_match(p: &Pattern, line: &str) -> (r: bool)
    ensures
        r == regex_is_match(p.source(), line@),
{
    p.re.is_match(line)
}

/// Relies on `regex::Regex::find_iter`: the successive non-overlapping
/// matches, as byte offsets with `start <= end` into `line`.
#[verifier::external_body]
fn re_find_spans(p: &Pattern, line: &str) -> (r: Vec<(usize, usize)>)
    ensures
        r@ == regex_spans(p.source(), line@),
        spans_ordered(r@, line.spec_bytes().len() as int),
{
    p.re.find_iter(line).map(|m| (m.start(), m.end())).collect()
}

impl Pattern {
    /// The source text the pattern was compiled from.
    pub closed spec fn source(&self) -> Seq<char> {
        self.source@
    }

    /// Compiles `s`; fails exactly when `regex` rejects it.
    pub fn new(s: &str) -> (r: Result<Pattern, PatternError>)
        ensures
            r is Ok <==> regex_accepts(s@),
            r matches Ok(p) ==> p.source() == s@,
    {
        match compile(s) {
            Ok(re) => Ok(Pattern { source: s.to_owned(), re }),
            Err(_) => Err(PatternError::Invalid),
        }
    }

    /// The source text the pattern was compiled from.
    pub fn as_str(&self) -> (r: &str)
        ensures
            r@ == self.source(),
    {
        self.source.as_str()
    }

    /// Whether the pattern matches somewhere in `line`.
    pub fn is_match(&self, line: &str) -> (r: bool)
        ensures
            r == regex_is_match(self.source(), line@),
    {
        re_is_match(self, line)
    }
}

/// For each line, whether `p` matches it.
pub open spec fn match_flags(p: Seq<char>, lines: Seq<String>) -> Seq<bool> {
    Seq::new(lines.len(), |i: int| regex_is_match(p, lines[i]@))
}

/// For each line, whether the pattern matches it.
pub fn mark_matches(p: &Pattern, lines: &Vec<String>) -> (r: Vec<bool>)
    ensures
        r@ == match_flags(p.source(), lines@),
{
    let mut r: Vec<bool> = Vec::new();
    let mut i: usize = 0;
    while i < lines.len()
        invariant
            i <= lines@.len(),
            r@ == match_flags(p.source(), lines@).subrange(0, i as int),
        decreases lines@.len() - i,
    {
        r.push(p.is_match(lines[i].as_str()));
        assert(r@ =~= match_flags(p.source(), lines@).subrange(0, i + 1));
        i = i + 1;
    }
    assert(r@ =~= match_flags(p.source(), lines@));
    r
}

/// Extraction from the lines of a file with an optional pattern: every line
/// (marked where the pattern matches) without a pattern or in whole-file
/// mode; otherwise the lines within `context` of a match, merged into
/// windows with elision markers between them, or the no-match report.
pub fn extract(lines: &Vec<String>, pattern: Option<&Pattern>, context: usize, whole_file: bool) -> (r: Extraction)
    ensures
        r@ == extraction_of(
            lines@,
            match pattern {
                Some(p) => Some(match_flags(p.source(), lines@)),
                None => None,
            },
            context as int,
            whole_file,
        ),
{
    match pattern {
        None => extract_with_flags(lines, None, context, whole_file),
        Some(p) => {
            let flags = mark_matches(p, lines);
            extract_with_flags(lines, Some(&flags), context, whole_file)
        },
    }
}

/// The byte spans to emphasise in a shown line: every non-overlapping
/// occurrence of the pattern when highlighting is on and the line is a
/// match, none otherwise.
pub fn highlight_spans(p: &Pattern, line: &str, is_match: bool, highlight: bool) -> (r: Vec<(usize, usize)>)
    ensures
        r@ == (if highlight && is_match { regex_spans(p.source(), line@) } else { Seq::empty() }),
        spans_ordered(r@, line.spec_bytes().len() as int),
{
    if highlight && is_match {
        re_find_spans(p, line)
    } else {
        Vec::new()
    }
}

} // verus!
