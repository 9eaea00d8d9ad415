//! Conversions between bytes and text.

use vstd::prelude::*;
use vstd::string::StrSliceExecFns;
use vstd::utf8::{decode_utf8, valid_utf8};

verus! {

/// Calls `String::from_utf8`, which succeeds exactly when `bytes` are valid
/// UTF-8; the string then holds the characters that they encode. Any other
/// outcome is `None`.
#[verifier::external_body]
pub(crate) fn string_from_utf8(bytes: Vec<u8>) -> (r: Option<String>)
    ensures
        r is Some <==> valid_utf8(bytes@),
        r is Some ==> r->0@ == decode_utf8(bytes@),
{
    String::from_utf8(bytes).ok()
}

/// Whether `s` begins with `prefix`.
pub fn str_starts_with(s: &str, prefix: &str) -> (r: bool)
    ensures
        r == prefix@.is_prefix_of(s@),
{
    let n = prefix.unicode_len();
    let m = s.unicode_len();
    if n > m {
        return false;
    }
    let mut i: usize = 0;
    while i < n
        invariant
            i <= n,
            n == prefix@.len(),
            m == s@.len(),
            n <= m,
            forall|k: int| 0 <= k < i ==> prefix@[k] == s@[k],
        decreases n - i,
    {
        if prefix.get_char(i) != s.get_char(i) {
            return false;
        }
        i = i + 1;
    }
    proof {
        assert(prefix@ =~= s@.subrange(0, n as int));
    }
    true
}

/// Whether `a` and `b` are the same text.
pub fn str_eq(a: &str, b: &str) -> (r: bool)
    ensures
        r == (a@ == b@),
{
    let n = a.unicode_len();
    if n != b.unicode_len() {
        return false;
    }
    let r = str_starts_with(a, b);
    proof {
        if r {
            assert(a@ =~= b@);
        }
    }
    r
}

/// The first index at or after `from` where `s` holds `c`, or the length of
/// `s` where there is none.
pub open spec fn find_char_from(s: Seq<char>, c: char, from: int) -> int
    decreases s.len() - from,
{
    if from >= s.len() {
        s.len() as int
    } else if s[from] == c {
        from
    } else {
        find_char_from(s, c, from + 1)
    }
}

/// The last index where `s` holds `c`, or -1 where there is none.
pub open spec fn rfind_char(s: Seq<char>, c: char) -> int
    decreases s.len(),
{
    if s.len() == 0 {
        -1
    } else if s.last() == c {
        s.len() - 1
    } else {
        rfind_char(s.drop_last(), c)
    }
}

pub proof fn lemma_find_char_from(s: Seq<char>, c: char, from: int)
    requires
        0 <= from <= s.len(),
    ensures
        from <= find_char_from(s, c, from) <= s.len(),
        find_char_from(s, c, from) < s.len() ==> s[find_char_from(s, c, from)] == c,
        forall|k: int| from <= k < find_char_from(s, c, from) ==> s[k] != c,
    decreases s.len() - from,
{
    if from < s.len() && s[from] != c {
        lemma_find_char_from(s, c, from + 1);
    }
}

pub proof fn lemma_rfind_char(s: Seq<char>, c: char)
    ensures
        -1 <= rfind_char(s, c) < s.len(),
        rfind_char(s, c) >= 0 ==> s[rfind_char(s, c)] == c,
        forall|k: int| rfind_char(s, c) < k < s.len() ==> s[k] != c,
    decreases s.len(),
{
    if s.len() > 0 && s.last() != c {
        lemma_rfind_char(s.drop_last(), c);
        assert forall|k: int| rfind_char(s, c) < k < s.len() implies s[k] != c by {
            if k < s.len() - 1 {
                assert(s[k] == s.drop_last()[k]);
            }
        }
    }
}

/// The first index at or after `from` where `s` holds `c`, or the length of
/// `s` where there is none.
pub fn str_find_char_from(s: &str, c: char, from: usize) -> (r: usize)
    requires
        from <= s@.len(),
    ensures
        r == find_char_from(s@, c, from as int),
{
    let n = s.unicode_len();
    let mut i: usize = from;
    while i < n
        invariant
            from <= i <= n,
            n == s@.len(),
            find_char_from(s@, c, from as int) == find_char_from(s@, c, i as int),
        decreases n - i,
    {
        if s.get_char(i) == c {
            return i;
        }
        i = i + 1;
    }
    i
}

/// The last index where `s` holds `c`, if any.
pub fn str_rfind_char(s: &str, c: char) -> (r: Option<usize>)
    ensures
        match r {
            Some(i) => i == rfind_char(s@, c),
            None => rfind_char(s@, c) == -1,
        },
{
    let n = s.unicode_len();
    let mut i: usize = n;
    proof {
        assert(s@.subrange(0, n as int) =~= s@);
    }
    while i > 0
        invariant
            i <= n,
            n == s@.len(),
            rfind_char(s@, c) == rfind_char(s@.subrange(0, i as int), c),
        decreases i,
    {
        proof {
            assert(s@.subrange(0, i as int).drop_last() =~= s@.subrange(0, i - 1));
        }
        if s.get_char(i - 1) == c {
            return Some(i - 1);
        }
        i = i - 1;
    }
    None
}

/// White space as Unicode defines it (what `char::is_whitespace` tests).
pub open spec fn is_ws(c: char) -> bool {
    ||| '\u{9}' <= c <= '\u{d}'
    ||| c == ' '
    ||| c == '\u{85}'
    ||| c == '\u{a0}'
    ||| c == '\u{1680}'
    ||| '\u{2000}' <= c <= '\u{200a}'
    ||| c == '\u{2028}'
    ||| c == '\u{2029}'
    ||| c == '\u{202f}'
    ||| c == '\u{205f}'
    ||| c == '\u{3000}'
}

/// Whether `c` is white space.
pub fn char_is_ws(c: char) -> (r: bool)
    ensures
        r == is_ws(c),
{
    ('\u{9}' <= c && c <= '\u{d}') || c == ' ' || c == '\u{85}' || c == '\u{a0}' || c
        == '\u{1680}' || ('\u{2000}' <= c && c <= '\u{200a}') || c == '\u{2028}' || c
        == '\u{2029}' || c == '\u{202f}' || c == '\u{205f}' || c == '\u{3000}'
}

/// The first index at or after `from` that is not white space, or the
/// length of `s`.
pub open spec fn skip_ws(s: Seq<char>, from: int) -> int
    decreases s.len() - from,
{
    if from >= s.len() {
        s.len() as int
    } else if is_ws(s[from]) {
        skip_ws(s, from + 1)
    } else {
        from
    }
}

/// One past the last index below `to` that is not white space, or 0.
pub open spec fn skip_ws_back(s: Seq<char>, to: int) -> int
    decreases to,
{
    if to <= 0 {
        0
    } else if is_ws(s[to - 1]) {
        skip_ws_back(s, to - 1)
    } else {
        to
    }
}

/// `s` without white space at either end.
pub open spec fn trimmed(s: Seq<char>) -> Seq<char> {
    let a = skip_ws(s, 0);
    let b = skip_ws_back(s, s.len() as int);
    if a < b {
        s.subrange(a, b)
    } else {
        Seq::empty()
    }
}

pub proof fn lemma_skip_ws(s: Seq<char>, from: int)
    requires
        0 <= from <= s.len(),
    ensures
        from <= skip_ws(s, from) <= s.len(),
    decreases s.len() - from,
{
    if from < s.len() && is_ws(s[from]) {
        lemma_skip_ws(s, from + 1);
    }
}

pub proof fn lemma_skip_ws_back(s: Seq<char>, to: int)
    requires
        0 <= to <= s.len(),
    ensures
        0 <= skip_ws_back(s, to) <= to,
    decreases to,
{
    if to > 0 && is_ws(s[to - 1]) {
        lemma_skip_ws_back(s, to - 1);
    }
}

/// `s` without white space at either end.
pub fn str_trim(s: &str) -> (r: &str)
    ensures
        r@ == trimmed(s@),
{
    let n = s.unicode_len();
    let mut a: usize = 0;
    while a < n && char_is_ws(s.get_char(a))
        invariant
            a <= n,
            n == s@.len(),
            skip_ws(s@, 0) == skip_ws(s@, a as int),
        decreases n - a,
    {
        a = a + 1;
    }
    let mut b: usize = n;
    while b > 0 && char_is_ws(s.get_char(b - 1))
        invariant
            b <= n,
            n == s@.len(),
            skip_ws_back(s@, n as int) == skip_ws_back(s@, b as int),
        decreases b,
    {
        b = b - 1;
    }
    if a < b {
        s.substring_char(a, b)
    } else {
        proof {
            assert(s@.subrange(0, 0) =~= Seq::<char>::empty());
        }
        s.substring_char(0, 0)
    }
}

/// The pieces of `s` from `from` on, between the occurrences of `c` (as
/// `str::split` gives them: an empty piece where two separators meet or
/// one ends the text).
pub open spec fn split_from(s: Seq<char>, c: char, from: int) -> Seq<Seq<char>>
    decreases s.len() - from,
{
    let i = find_char_from(s, c, from);
    if from < 0 || from > s.len() || i >= s.len() {
        seq![s.subrange(from, s.len() as int)]
    } else {
        proof {
            lemma_find_char_from(s, c, from);
        }
        seq![s.subrange(from, i)] + split_from(s, c, i + 1)
    }
}

/// `s` without the copies of `c` at its start.
pub open spec fn strip_all_start(s: Seq<char>, c: char) -> Seq<char>
    decreases s.len(),
{
    if s.len() > 0 && s[0] == c {
        strip_all_start(s.drop_first(), c)
    } else {
        s
    }
}

/// `s` without the copies of `c` at its end.
pub open spec fn strip_all_end(s: Seq<char>, c: char) -> Seq<char>
    decreases s.len(),
{
    if s.len() > 0 && s.last() == c {
        strip_all_end(s.drop_last(), c)
    } else {
        s
    }
}

/// `s` without the copies of `c` at either end (what `str::trim_matches`
/// gives for one character).
pub open spec fn strip_all(s: Seq<char>, c: char) -> Seq<char> {
    strip_all_end(strip_all_start(s, c), c)
}

/// `s` without the copies of `c` at its end.
pub fn str_strip_all_end(s: &str, c: char) -> (r: &str)
    ensures
        r@ == strip_all_end(s@, c),
{
    let mut b: usize = s.unicode_len();
    proof {
        assert(s@.subrange(0, b as int) =~= s@);
    }
    while b > 0 && s.get_char(b - 1) == c
        invariant
            b <= s@.len(),
            strip_all_end(s@, c) == strip_all_end(s@.subrange(0, b as int), c),
        decreases b,
    {
        proof {
            assert(s@.subrange(0, b as int).drop_last() =~= s@.subrange(0, b - 1));
        }
        b = b - 1;
    }
    s.substring_char(0, b)
}

/// `s` without the copies of `c` at either end.
pub fn str_strip_all(s: &str, c: char) -> (r: &str)
    ensures
        r@ == strip_all(s@, c),
{
    let n = s.unicode_len();
    let mut a: usize = 0;
    proof {
        assert(s@.subrange(0, n as int) =~= s@);
    }
    while a < n && s.get_char(a) == c
        invariant
            a <= n,
            n == s@.len(),
            strip_all_start(s@, c) == strip_all_start(s@.subrange(a as int, n as int), c),
        decreases n - a,
    {
        proof {
            assert(s@.subrange(a as int, n as int).drop_first() =~= s@.subrange(a + 1, n as int));
        }
        a = a + 1;
    }
    let rest = s.substring_char(a, n);
    str_strip_all_end(rest, c)
}

/// Whether `c` occurs in `s`.
pub fn str_contains_char(s: &str, c: char) -> (r: bool)
    ensures
        r == s@.contains(c),
{
    let n = s.unicode_len();
    proof {
        lemma_find_char_from(s@, c, 0);
    }
    let i = str_find_char_from(s, c, 0);
    proof {
        if s@.contains(c) {
            let k = choose|k: int| 0 <= k < s@.len() && s@[k] == c;
            assert(!(k < find_char_from(s@, c, 0)));
        }
    }
    i < n
}

/// The decimal digits of `value`, most significant first, as ASCII.
pub open spec fn decimal(value: u64) -> Seq<u8>
    decreases value,
{
    if value < 10 {
        seq![(48 + value) as u8]
    } else {
        decimal(value / 10).push((48 + value % 10) as u8)
    }
}

/// The decimal form of `value` in ASCII digits.
pub fn decimal_bytes(value: u64) -> (r: Vec<u8>)
    ensures
        r@ == decimal(value),
    decreases value,
{
    if value < 10 {
        let mut v: Vec<u8> = Vec::new();
        v.push(48 + value as u8);
        v
    } else {
        let mut v = decimal_bytes(value / 10);
        v.push(48 + (value % 10) as u8);
        v
    }
}

} // verus!
