//! Character-level text tests used by the source filters and the import
//! protocol.

use vstd::prelude::*;

verus! {

/// `p` is a prefix of `s`.
pub open spec fn has_prefix(s: Seq<char>, p: Seq<char>) -> bool {
    p.len() <= s.len() && s.subrange(0, p.len() as int) == p
}

/// `p` is a suffix of `s`.
pub open spec fn has_suffix(s: Seq<char>, p: Seq<char>) -> bool {
    p.len() <= s.len() && s.subrange(s.len() - p.len(), s.len() as int) == p
}

/// Whether `p` occurs in `s` at character offset `at`.
fn text_matches_at(s: &str, p: &str, at: usize) -> (r: bool)
    requires
        at <= s@.len(),
    ensures
        r == (at + p@.len() <= s@.len() && s@.subrange(at as int, at + p@.len()) == p@),
{
    let s_len = s.unicode_len();
    let p_len = p.unicode_len();
    if p_len > s_len - at {
        return false;
    }
    let mut i: usize = 0;
    while i < p_len
        invariant
            s_len == s@.len(),
            p_len == p@.len(),
            at + p_len <= s_len,
            0 <= i <= p_len,
            s@.subrange(at as int, at + i) == p@.subrange(0, i as int),
        decreases p_len - i,
    {
        if s.get_char(at + i) != p.get_char(i) {
            assert(s@.subrange(at as int, at + p_len)[i as int] != p@[i as int]);
            return false;
        }
        assert(s@.subrange(at as int, at + i + 1) =~= s@.subrange(at as int, at + i).push(s@[at + i]));
        assert(p@.subrange(0, i + 1) =~= p@.subrange(0, i as int).push(p@[i as int]));
        i = i + 1;
    }
    assert(p@.subrange(0, p_len as int) =~= p@);
    true
}

/// Whether `s` begins with `p`.
pub fn text_has_prefix(s: &str, p: &str) -> (r: bool)
    ensures
        r == has_prefix(s@, p@),
{
    text_matches_at(s, p, 0)
}

/// Whether `s` ends with `p`.
pub fn text_has_suffix(s: &str, p: &str) -> (r: bool)
    ensures
        r == has_suffix(s@, p@),
{
    let s_len = s.unicode_len();
    let p_len = p.unicode_len();
    if p_len > s_len {
        return false;
    }
    text_matches_at(s, p, s_len - p_len)
}

/// Whether two texts are equal.
pub fn text_equals(s: &str, p: &str) -> (r: bool)
    ensures
        r == (s@ == p@),
{
    let s_len = s.unicode_len();
    let p_len = p.unicode_len();
    assert(s@.subrange(0, s@.len() as int) =~= s@);
    s_len == p_len && text_matches_at(s, p, 0)
}

/// `c` read with ASCII capitals folded to small letters equals `d`.
pub open spec fn folds_to(c: char, d: char) -> bool {
    if 'A' <= c <= 'Z' {
        c as u32 + 32 == d as u32
    } else {
        c == d
    }
}

/// `p` occurs in `s` at `at` once ASCII capitals in `s` are folded.
pub open spec fn folded_match_at(s: Seq<char>, p: Seq<char>, at: int) -> bool {
    0 <= at && at + p.len() <= s.len() && forall|j: int| 0 <= j < p.len() ==> folds_to(#[trigger] s[at + j], p[j])
}

/// `s` with ASCII capitals folded to small letters is `p`.
pub open spec fn folded_equals(s: Seq<char>, p: Seq<char>) -> bool {
    s.len() == p.len() && folded_match_at(s, p, 0)
}

/// `s` with ASCII capitals folded to small letters contains `p`.
pub open spec fn folded_contains(s: Seq<char>, p: Seq<char>) -> bool {
    exists|at: int| folded_match_at(s, p, at)
}

fn char_folds_to(c: char, d: char) -> (r: bool)
    ensures
        r == folds_to(c, d),
{
    if 'A' <= c && c <= 'Z' {
        c as u32 + 32 == d as u32
    } else {
        c == d
    }
}

fn text_folded_match_at(s: &str, p: &str, at: usize) -> (r: bool)
    requires
        at <= s@.len(),
    ensures
        r == folded_match_at(s@, p@, at as int),
{
    let s_len = s.unicode_len();
    let p_len = p.unicode_len();
    if p_len > s_len - at {
        return false;
    }
    let mut i: usize = 0;
    while i < p_len
        invariant
            s_len == s@.len(),
            p_len == p@.len(),
            at + p_len <= s_len,
            0 <= i <= p_len,
            forall|j: int| 0 <= j < i ==> folds_to(#[trigger] s@[at + j], p@[j]),
        decreases p_len - i,
    {
        if !char_folds_to(s.get_char(at + i), p.get_char(i)) {
            return false;
        }
        i = i + 1;
    }
    true
}

/// Whether `s`, its ASCII capitals folded, equals `p`.
pub fn text_folded_equals(s: &str, p: &str) -> (r: bool)
    ensures
        r == folded_equals(s@, p@),
{
    s.unicode_len() == p.unicode_len() && text_folded_match_at(s, p, 0)
}

/// Whether `s`, its ASCII capitals folded, contains `p`.
pub fn text_folded_contains(s: &str, p: &str) -> (r: bool)
    ensures
        r == folded_contains(s@, p@),
{
    let s_len = s.unicode_len();
    let p_len = p.unicode_len();
    if p_len == 0 {
        assert(folded_match_at(s@, p@, 0));
        return true;
    }
    if p_len > s_len {
        assert forall|k: int| !folded_match_at(s@, p@, k) by {}
        return false;
    }
    let last = s_len - p_len;
    let mut at: usize = 0;
    while at < last + 1
        invariant
            s_len == s@.len(),
            p_len == p@.len(),
            1 <= p_len <= s_len,
            last == s_len - p_len,
            0 <= at <= last + 1,
            forall|k: int| 0 <= k < at ==> !folded_match_at(s@, p@, k),
        decreases last + 1 - at,
    {
        if text_folded_match_at(s, p, at) {
            return true;
        }
        at = at + 1;
    }
    assert forall|k: int| !folded_match_at(s@, p@, k) by {
        if 0 <= k && k < at {
        }
    }
    false
}

/// `s` without the double quotes at its two ends.
pub open spec fn trim_quotes(s: Seq<char>) -> Seq<char>
    decreases s.len(),
{
    if s.len() == 0 {
        s
    } else if s[0] == '"' {
        trim_quotes(s.drop_first())
    } else if s.last() == '"' {
        trim_quotes(s.drop_last())
    } else {
        s
    }
}

/// Strips every double quote from both ends of `s`.
pub fn text_trim_quotes(s: &str) -> (r: String)
    ensures
        r@ == trim_quotes(s@),
{
    let n = s.unicode_len();
    let mut lo: usize = 0;
    let mut hi: usize = n;
    assert(s@.subrange(0, n as int) =~= s@);
    while lo < hi && s.get_char(lo) == '"'
        invariant
            n == s@.len(),
            0 <= lo <= hi == n,
            trim_quotes(s@) == trim_quotes(s@.subrange(lo as int, hi as int)),
        decreases hi - lo,
    {
        assert(s@.subrange(lo as int, hi as int).drop_first() =~= s@.subrange(lo + 1, hi as int));
        lo = lo + 1;
    }
    while lo < hi && s.get_char(hi - 1) == '"'
        invariant
            n == s@.len(),
            0 <= lo <= hi <= n,
            lo < hi ==> s@[lo as int] != '"',
            trim_quotes(s@) == trim_quotes(s@.subrange(lo as int, hi as int)),
        decreases hi - lo,
    {
        assert(s@.subrange(lo as int, hi as int).drop_last() =~= s@.subrange(lo as int, hi - 1));
        hi = hi - 1;
    }
    let t = s.substring_char(lo, hi);
    String::from_str(t)
}

} // verus!
