//! Character-level string helpers: whitespace trimming, prefixes and the
//! spawned-instance name match.
use vstd::prelude::*;

verus! {

/// Unicode `White_Space`, the set `char::is_whitespace` tests.
pub open spec fn is_unicode_whitespace(c: char) -> bool {
    let u = c as u32;
    ||| 0x09 <= u <= 0x0d
    ||| u == 0x20
    ||| u == 0x85
    ||| u == 0xa0
    ||| u == 0x1680
    ||| 0x2000 <= u <= 0x200a
    ||| u == 0x2028
    ||| u == 0x2029
    ||| u == 0x202f
    ||| u == 0x205f
    ||| u == 0x3000
}

/// Whether `c` is a Unicode whitespace character.
pub fn char_is_whitespace(c: char) -> (r: bool)
    ensures
        r == is_unicode_whitespace(c),
{
    let u = c as u32;
    (0x09 <= u && u <= 0x0d) || u == 0x20 || u == 0x85 || u == 0xa0 || u == 0x1680 || (0x2000
        <= u && u <= 0x200a) || u == 0x2028 || u == 0x2029 || u == 0x202f || u == 0x205f || u
        == 0x3000
}

/// An ASCII decimal digit.
pub open spec fn is_ascii_digit(c: char) -> bool {
    '0' <= c && c <= '9'
}

/// Every character of `s` is whitespace (so `s.trim()` is empty).
pub open spec fn is_blank(s: Seq<char>) -> bool {
    forall|i: int| 0 <= i < s.len() ==> is_unicode_whitespace(#[trigger] s[i])
}

/// `[start, end)` is the part of `s` that `str::trim` keeps.
pub open spec fn is_trim_range(s: Seq<char>, start: int, end: int) -> bool {
    &&& 0 <= start <= end <= s.len()
    &&& forall|i: int| 0 <= i < start ==> is_unicode_whitespace(#[trigger] s[i])
    &&& forall|i: int| end <= i < s.len() ==> is_unicode_whitespace(#[trigger] s[i])
    &&& start < end ==> !is_unicode_whitespace(s[start]) && !is_unicode_whitespace(s[end - 1])
}

/// `t` is `s` with leading and trailing whitespace removed.
pub open spec fn is_trim_of(s: Seq<char>, t: Seq<char>) -> bool {
    exists|start: int, end: int| is_trim_range(s, start, end) && t == s.subrange(start, end)
}

/// The trimmed text is the same whichever trim range is taken.
pub proof fn lemma_trim_unique(s: Seq<char>, t1: Seq<char>, t2: Seq<char>)
    requires
        is_trim_of(s, t1),
        is_trim_of(s, t2),
    ensures
        t1 == t2,
{
    let (a1, b1) = choose|a: int, b: int| is_trim_range(s, a, b) && t1 == s.subrange(a, b);
    let (a2, b2) = choose|a: int, b: int| is_trim_range(s, a, b) && t2 == s.subrange(a, b);
    if a1 < b1 && a2 < b2 {
        if a1 < a2 {
            assert(is_unicode_whitespace(s[a1]));
        }
        if a2 < a1 {
            assert(is_unicode_whitespace(s[a2]));
        }
        if b1 < b2 {
            assert(is_unicode_whitespace(s[b2 - 1]));
        }
        if b2 < b1 {
            assert(is_unicode_whitespace(s[b1 - 1]));
        }
        assert(t1 =~= t2);
    } else if a1 < b1 {
        assert(is_unicode_whitespace(s[a1]));
    } else if a2 < b2 {
        assert(is_unicode_whitespace(s[a2]));
    } else {
        assert(t1 =~= t2);
    }
}

/// Whether the whole of `s` is whitespace.
pub fn str_is_blank(s: &str) -> (r: bool)
    ensures
        r == is_blank(s@),
{
    let n = s.unicode_len();
    let mut i: usize = 0;
    while i < n
        invariant
            n == s@.len(),
            i <= n,
            forall|k: int| 0 <= k < i ==> is_unicode_whitespace(#[trigger] s@[k]),
        decreases n - i,
    {
        if !char_is_whitespace(s.get_char(i)) {
            return false;
        }
        i = i + 1;
    }
    true
}

/// The text of `s` without leading and trailing whitespace.
pub fn trim_str(s: &str) -> (r: &str)
    ensures
        is_trim_of(s@, r@),
{
    let n = s.unicode_len();
    let mut start: usize = 0;
    while start < n && char_is_whitespace(s.get_char(start))
        invariant
            n == s@.len(),
            start <= n,
            forall|k: int| 0 <= k < start ==> is_unicode_whitespace(#[trigger] s@[k]),
        decreases n - start,
    {
        start = start + 1;
    }
    let mut end: usize = n;
    while end > start && char_is_whitespace(s.get_char(end - 1))
        invariant
            n == s@.len(),
            start <= end <= n,
            forall|k: int| end <= k < n ==> is_unicode_whitespace(#[trigger] s@[k]),
            start < n ==> !is_unicode_whitespace(s@[start as int]),
        decreases end,
    {
        end = end - 1;
    }
    let r = s.substring_char(start, end);
    assert(is_trim_range(s@, start as int, end as int));
    r
}

/// `p` is a prefix of `s`.
pub open spec fn has_prefix(s: Seq<char>, p: Seq<char>) -> bool {
    p.len() <= s.len() && s.subrange(0, p.len() as int) == p
}

/// Whether `s` starts with `prefix`.
pub fn str_starts_with(s: &str, prefix: &str) -> (r: bool)
    ensures
        r == has_prefix(s@, prefix@),
{
    let n = s.unicode_len();
    let m = prefix.unicode_len();
    if m > n {
        return false;
    }
    let mut i: usize = 0;
    while i < m
        invariant
            n == s@.len(),
            m == prefix@.len(),
            m <= n,
            i <= m,
            forall|k: int| 0 <= k < i ==> s@[k] == prefix@[k],
        decreases m - i,
    {
        if s.get_char(i) != prefix.get_char(i) {
            assert(s@.subrange(0, m as int)[i as int] != prefix@[i as int]);
            return false;
        }
        i = i + 1;
    }
    assert(s@.subrange(0, m as int) =~= prefix@);
    true
}

/// Whether two strings hold the same characters.
pub fn str_eq(a: &str, b: &str) -> (r: bool)
    ensures
        r == (a@ == b@),
{
    let n = a.unicode_len();
    let m = b.unicode_len();
    if n != m {
        return false;
    }
    let mut i: usize = 0;
    while i < n
        invariant
            n == a@.len(),
            m == b@.len(),
            n == m,
            i <= n,
            forall|k: int| 0 <= k < i ==> a@[k] == b@[k],
        decreases n - i,
    {
        if a.get_char(i) != b.get_char(i) {
            return false;
        }
        i = i + 1;
    }
    assert(a@ =~= b@);
    true
}

/// `actual` is `expected`, or `expected` followed by one or more ASCII digits.
pub open spec fn name_matches(actual: Seq<char>, expected: Seq<char>) -> bool {
    ||| actual == expected
    ||| {
        &&& expected.len() < actual.len()
        &&& has_prefix(actual, expected)
        &&& forall|i: int|
            expected.len() <= i < actual.len() ==> is_ascii_digit(#[trigger] actual[i])
    }
}

/// Matches an exact name, or a spawned instance name with a numeric suffix
/// such as `unit1` or `unit12`.
pub fn entity_name_matches_value(actual: &str, expected: &str) -> (r: bool)
    ensures
        r == name_matches(actual@, expected@),
{
    if str_eq(actual, expected) {
        return true;
    }
    if !str_starts_with(actual, expected) {
        return false;
    }
    let n = actual.unicode_len();
    let m = expected.unicode_len();
    if n == m {
        assert(actual@ =~= actual@.subrange(0, m as int));
        return false;
    }
    let mut i: usize = m;
    while i < n
        invariant
            n == actual@.len(),
            m == expected@.len(),
            m <= i <= n,
            forall|k: int| m <= k < i ==> is_ascii_digit(#[trigger] actual@[k]),
        decreases n - i,
    {
        let c = actual.get_char(i);
        if !('0' <= c && c <= '9') {
            return false;
        }
        i = i + 1;
    }
    true
}

} // verus!
