//! Character-level string helpers used by the classifier, the filter engine
//! and the sorter.
use vstd::prelude::*;

verus! {

/// `p` is a prefix of `s`.
pub open spec fn is_prefix(p: Seq<char>, s: Seq<char>) -> bool {
    p.len() <= s.len() && s.subrange(0, p.len() as int) == p
}

/// `t` occurs in `s` starting at position `i`.
pub open spec fn occurs_at(s: Seq<char>, t: Seq<char>, i: int) -> bool {
    0 <= i && i + t.len() <= s.len() && s.subrange(i, i + t.len()) == t
}

/// `t` occurs somewhere in `s`.
pub open spec fn has_substring(s: Seq<char>, t: Seq<char>) -> bool {
    exists|i: int| occurs_at(s, t, i)
}

/// Strict lexicographic order on character sequences, characters compared
/// by code point (which is also the byte order of their UTF-8 encodings).
pub open spec fn seq_less(a: Seq<char>, b: Seq<char>) -> bool {
    exists|i: int|
        0 <= i <= a.len() && i <= b.len() && a.subrange(0, i) == b.subrange(0, i) && (
        (i == a.len() && i < b.len()) || (i < a.len() && i < b.len() && (a[i] as int) < (
        b[i] as int)))
}

/// Strict lexicographic order is asymmetric.
pub proof fn lemma_seq_less_asymmetric(a: Seq<char>, b: Seq<char>)
    ensures
        !(seq_less(a, b) && seq_less(b, a)),
{
    if seq_less(a, b) && seq_less(b, a) {
        let i = choose|i: int|
            0 <= i <= a.len() && i <= b.len() && a.subrange(0, i) == b.subrange(0, i) && (
            (i == a.len() && i < b.len()) || (i < a.len() && i < b.len() && (a[i] as int) < (
            b[i] as int)));
        let j = choose|j: int|
            0 <= j <= b.len() && j <= a.len() && b.subrange(0, j) == a.subrange(0, j) && (
            (j == b.len() && j < a.len()) || (j < b.len() && j < a.len() && (b[j] as int) < (
            a[j] as int)));
        if i < j {
            assert(b.subrange(0, j)[i] == a.subrange(0, j)[i]);
        } else if j < i {
            assert(a.subrange(0, i)[j] == b.subrange(0, i)[j]);
        }
    }
}

/// Strict lexicographic order is irreflexive.
pub proof fn lemma_seq_less_irreflexive(a: Seq<char>)
    ensures
        !seq_less(a, a),
{
}

/// `a` and `b` are equal, compared character by character.
pub fn str_eq(a: &str, b: &str) -> (r: bool)
    ensures
        r == (a@ == b@),
{
    let n = a.unicode_len();
    if n != b.unicode_len() {
        return false;
    }
    let mut i: usize = 0;
    while i < n
        invariant
            n == a@.len() == b@.len(),
            i <= n,
            a@.subrange(0, i as int) == b@.subrange(0, i as int),
        decreases n - i,
    {
        if a.get_char(i) != b.get_char(i) {
            assert(a@[i as int] != b@[i as int]);
            return false;
        }
        assert(a@.subrange(0, i + 1) =~= a@.subrange(0, i as int).push(a@[i as int]));
        assert(b@.subrange(0, i + 1) =~= b@.subrange(0, i as int).push(b@[i as int]));
        i = i + 1;
    }
    assert(a@ =~= a@.subrange(0, n as int));
    assert(b@ =~= b@.subrange(0, n as int));
    true
}

/// `t` occurs in `s` at position `start`.
pub fn occurs_at_exec(s: &str, t: &str, start: usize) -> (r: bool)
    ensures
        r == occurs_at(s@, t@, start as int),
{
    let n = s.unicode_len();
    let m = t.unicode_len();
    if start > n || m > n - start {
        return false;
    }
    let mut i: usize = 0;
    while i < m
        invariant
            n == s@.len(),
            m == t@.len(),
            start + m <= n,
            i <= m,
            s@.subrange(start as int, start + i) == t@.subrange(0, i as int),
        decreases m - i,
    {
        if s.get_char(start + i) != t.get_char(i) {
            assert(s@.subrange(start as int, start + m)[i as int] == s@[start + i]);
            return false;
        }
        assert(s@.subrange(start as int, start + i + 1) =~= s@.subrange(start as int, start + i).push(
            s@[start + i]));
        assert(t@.subrange(0, i + 1) =~= t@.subrange(0, i as int).push(t@[i as int]));
        i = i + 1;
    }
    assert(t@ =~= t@.subrange(0, m as int));
    true
}

/// `p` is a prefix of `s`.
pub fn starts_with(s: &str, p: &str) -> (r: bool)
    ensures
        r == is_prefix(p@, s@),
{
    occurs_at_exec(s, p, 0)
}

/// `t` occurs somewhere in `s`.
pub fn contains(s: &str, t: &str) -> (r: bool)
    ensures
        r == has_substring(s@, t@),
{
    let n = s.unicode_len();
    let m = t.unicode_len();
    if m > n {
        assert forall|i: int| !occurs_at(s@, t@, i) by {}
        return false;
    }
    let mut i: usize = 0;
    loop
        invariant
            n == s@.len(),
            m == t@.len(),
            m <= n,
            i <= n - m,
            forall|j: int| 0 <= j < i ==> !occurs_at(s@, t@, j),
        decreases n - m - i,
    {
        if occurs_at_exec(s, t, i) {
            return true;
        }
        if i == n - m {
            assert forall|j: int| !occurs_at(s@, t@, j) by {
                if 0 <= j < i {
                }
            }
            return false;
        }
        i = i + 1;
    }
}

/// Three-way lexicographic comparison: `-1`, `0` or `1` as `a` is before,
/// equal to, or after `b`.
pub fn compare_str(a: &str, b: &str) -> (r: i8)
    ensures
        r == -1 <==> seq_less(a@, b@),
        r == 0 <==> a@ == b@,
        r == 1 <==> seq_less(b@, a@),
        -1 <= r <= 1,
{
    let n = a.unicode_len();
    let m = b.unicode_len();
    let mut i: usize = 0;
    while i < n && i < m
        invariant
            n == a@.len(),
            m == b@.len(),
            i <= n,
            i <= m,
            a@.subrange(0, i as int) == b@.subrange(0, i as int),
        decreases n - i,
    {
        let x = a.get_char(i);
        let y = b.get_char(i);
        if x != y {
            proof {
                lemma_seq_less_asymmetric(a@, b@);
            }
            if (x as u32) < (y as u32) {
                assert(seq_less(a@, b@));
                return -1;
            } else {
                assert((x as u32) != (y as u32));
                assert(seq_less(b@, a@));
                return 1;
            }
        }
        assert(a@.subrange(0, i + 1) =~= a@.subrange(0, i as int).push(a@[i as int]));
        assert(b@.subrange(0, i + 1) =~= b@.subrange(0, i as int).push(b@[i as int]));
        i = i + 1;
    }
    proof {
        lemma_seq_less_asymmetric(a@, b@);
    }
    if n < m {
        assert(a@ =~= a@.subrange(0, i as int));
        assert(seq_less(a@, b@));
        -1
    } else if m < n {
        assert(b@ =~= b@.subrange(0, i as int));
        assert(seq_less(b@, a@));
        1
    } else {
        assert(a@ =~= a@.subrange(0, i as int));
        assert(b@ =~= b@.subrange(0, i as int));
        proof {
            lemma_seq_less_irreflexive(a@);
        }
        0
    }
}

} // verus!

verus! {

/// The characters of `s` from position `start` on are exactly `t`.
pub fn tail_eq(s: &str, start: usize, t: &str) -> (r: bool)
    ensures
        r == (start <= s@.len() && s@.subrange(start as int, s@.len() as int) == t@),
{
    let n = s.unicode_len();
    let m = t.unicode_len();
    if start > n || n - start != m {
        return false;
    }
    occurs_at_exec(s, t, start)
}

} // verus!

verus! {

/// Strict lexicographic order is transitive.
pub proof fn lemma_seq_less_transitive(a: Seq<char>, b: Seq<char>, c: Seq<char>)
    requires
        seq_less(a, b),
        seq_less(b, c),
    ensures
        seq_less(a, c),
{
    let i = choose|i: int|
        0 <= i <= a.len() && i <= b.len() && a.subrange(0, i) == b.subrange(0, i) && (
        (i == a.len() && i < b.len()) || (i < a.len() && i < b.len() && (a[i] as int) < (
        b[i] as int)));
    let j = choose|j: int|
        0 <= j <= b.len() && j <= c.len() && b.subrange(0, j) == c.subrange(0, j) && (
        (j == b.len() && j < c.len()) || (j < b.len() && j < c.len() && (b[j] as int) < (
        c[j] as int)));
    let k = if i < j { i } else { j };
    assert forall|t: int| 0 <= t < k implies a[t] == c[t] by {
        assert(a.subrange(0, i)[t] == b.subrange(0, i)[t]);
        assert(b.subrange(0, j)[t] == c.subrange(0, j)[t]);
    }
    assert(a.subrange(0, k) =~= c.subrange(0, k));
    if i < j {
        assert(b.subrange(0, j)[i] == c.subrange(0, j)[i]);
    } else if j < i {
        assert(a.subrange(0, i)[j] == b.subrange(0, i)[j]);
    }
}

proof fn lemma_seq_trichotomy_from(a: Seq<char>, b: Seq<char>, i: int)
    requires
        0 <= i <= a.len(),
        i <= b.len(),
        a.subrange(0, i) == b.subrange(0, i),
    ensures
        a == b || seq_less(a, b) || seq_less(b, a),
    decreases a.len() - i,
{
    if i == a.len() || i == b.len() {
        if a.len() == b.len() {
            assert(a =~= a.subrange(0, i));
            assert(b =~= b.subrange(0, i));
        } else if i == a.len() {
            assert(seq_less(a, b));
        } else {
            assert(seq_less(b, a));
        }
    } else if a[i] != b[i] {
        if (a[i] as int) < (b[i] as int) {
            assert(seq_less(a, b));
        } else {
            assert((a[i] as int) != (b[i] as int));
            assert(seq_less(b, a));
        }
    } else {
        assert(a.subrange(0, i + 1) =~= a.subrange(0, i).push(a[i]));
        assert(b.subrange(0, i + 1) =~= b.subrange(0, i).push(b[i]));
        lemma_seq_trichotomy_from(a, b, i + 1);
    }
}

/// Two sequences are equal or one is lexicographically before the other.
pub proof fn lemma_seq_less_total(a: Seq<char>, b: Seq<char>)
    ensures
        a == b || seq_less(a, b) || seq_less(b, a),
{
    assert(a.subrange(0, 0) =~= b.subrange(0, 0));
    lemma_seq_trichotomy_from(a, b, 0);
}

/// Lexicographic "not after" is transitive: if `c` is before `a`, any `b`
/// is after `c` or before `a`.
pub proof fn lemma_seq_less_negative_transitive(a: Seq<char>, b: Seq<char>, c: Seq<char>)
    requires
        seq_less(c, a),
    ensures
        seq_less(c, b) || seq_less(b, a),
{
    lemma_seq_less_total(c, b);
    if seq_less(b, c) {
        lemma_seq_less_transitive(b, c, a);
    }
}

} // verus!
