//! Character/byte index conversions for `&str` slices.
//!
//! Rust strings are UTF-8 encoded, so character counts and byte offsets
//! diverge as soon as the text holds a multi-byte character.  The helpers
//! here convert between the two and split a string without ever cutting a
//! multi-byte character in half.

use vstd::prelude::*;

verus! {

use vstd::string::StrSliceExecFns;
use vstd::string::StringSliceAdditionalSpecFns;
use vstd::utf8::encode_utf8;
use vstd::utf8::is_char_boundary;
use vstd::utf8::decode_utf8;
use vstd::utf8::decode_utf8_split;
use vstd::utf8::encode_utf8_decode_utf8;
use vstd::utf8::encode_utf8_valid_utf8;

/// Number of bytes taken by the UTF-8 encoding of the first `i` characters
/// of `s`: the byte offset at which character `i` starts.
pub open spec fn byte_offset_of(s: Seq<char>, i: int) -> int {
    encode_utf8(s.subrange(0, i)).len() as int
}

/// Byte offset of the `i`-th character of `s`, or of the end of `s` when
/// exactly `i` characters remain; `None` when `s` has fewer than `i`
/// characters.
pub fn char_offset(s: &str, i: usize) -> (r: Option<usize>)
    ensures
        i <= s@.len() ==> r == Some((byte_offset_of(s@, i as int)) as usize),
        i > s@.len() ==> r is None,
{
    let n = s.unicode_len();
    if i <= n {
        let p = s.substring_char(0, i);
        Some(p.len())
    } else {
        None
    }
}

/// Number of characters in `s` (not bytes).
pub fn len_chars(s: &str) -> (r: usize)
    ensures
        r == s@.len(),
{
    s.unicode_len()
}

/// The first `i` characters of `s`, or `None` when fewer than `i` remain.
pub fn take_chars<'a>(s: &'a str, i: usize) -> (r: Option<&'a str>)
    ensures
        i <= s@.len() ==> (r matches Some(p) && p@ == s@.subrange(0, i as int)),
        i > s@.len() ==> r is None,
{
    let n = s.unicode_len();
    if i <= n {
        Some(s.substring_char(0, i))
    } else {
        None
    }
}

/// Length of the longest prefix of `s` whose characters all satisfy `p`.
pub open spec fn scan_len(s: Seq<char>, p: spec_fn(char) -> bool) -> int
    decreases s.len(),
{
    if s.len() == 0 || !p(s[0]) {
        0
    } else {
        1 + scan_len(s.skip(1), p)
    }
}

/// What `scan_len` returns is within bounds, all scanned characters satisfy
/// the predicate, and the first character past the scan does not.
pub proof fn lemma_scan_len_bounds(s: Seq<char>, p: spec_fn(char) -> bool)
    ensures
        0 <= scan_len(s, p) <= s.len(),
        forall|t: int| 0 <= t < scan_len(s, p) ==> p(#[trigger] s[t]),
        scan_len(s, p) < s.len() ==> !p(s[scan_len(s, p)]),
    decreases s.len(),
{
    if s.len() > 0 && p(s[0]) {
        lemma_scan_len_bounds(s.skip(1), p);
        assert(forall|t: int| 0 < t < scan_len(s, p) ==> #[trigger] s[t] == s.skip(1)[t - 1]);
    }
}

/// A position bounding a satisfying prefix, whose own character fails the
/// predicate (or which is the end of the text), is what `scan_len` returns.
pub proof fn lemma_scan_len_is(s: Seq<char>, p: spec_fn(char) -> bool, j: int)
    requires
        0 <= j <= s.len(),
        forall|t: int| 0 <= t < j ==> p(#[trigger] s[t]),
        j == s.len() || !p(s[j]),
    ensures
        scan_len(s, p) == j,
    decreases j,
{
    if j == 0 {
    } else {
        assert(p(s[0]));
        assert(forall|t: int| 0 <= t < j - 1 ==> #[trigger] s.skip(1)[t] == s[t + 1]);
        lemma_scan_len_is(s.skip(1), p, j - 1);
    }
}

/// Decides whether two strings hold the same characters.
pub fn str_eq(a: &str, b: &str) -> (r: bool)
    ensures
        r == (a@ == b@),
{
    let n = a.unicode_len();
    if n != b.unicode_len() {
        return false;
    }
    let mut j: usize = 0;
    while j < n
        invariant
            j <= n,
            n == a@.len(),
            n == b@.len(),
            forall|t: int| 0 <= t < j ==> a@[t] == b@[t],
        decreases n - j,
    {
        if a.get_char(j) != b.get_char(j) {
            return false;
        }
        j = j + 1;
    }
    proof {
        assert(a@ =~= b@);
    }
    true
}

/// Splits `s` at byte offset `i`, returning `(suffix, prefix)`.  The offset
/// must lie on a character boundary: the split never cuts a multi-byte
/// character apart.
pub fn split_bytes<'a>(s: &'a str, i: usize) -> (r: (&'a str, &'a str))
    requires
        is_char_boundary(s.spec_bytes(), i as int),
    ensures
        s@ == r.1@ + r.0@,
        r.1@ == s@.subrange(0, r.1@.len() as int),
        r.0@ == s@.subrange(r.1@.len() as int, s@.len() as int),
        encode_utf8(r.1@).len() == i,
{
    proof {
        broadcast use encode_utf8_valid_utf8;

    }
    let (prefix, suffix) = s.split_at(i);
    proof {
        decode_utf8_split(s.spec_bytes(), i as int);
        encode_utf8_decode_utf8(s@);
        encode_utf8_decode_utf8(prefix@);
        encode_utf8_decode_utf8(suffix@);
        assert(s@ =~= prefix@ + suffix@);
        assert(prefix@ =~= s@.subrange(0, prefix@.len() as int));
        assert(suffix@ =~= s@.subrange(prefix@.len() as int, s@.len() as int));
    }
    (suffix, prefix)
}

/// Splits `s` after its first `i` characters, returning `(suffix, prefix)`;
/// `None` when fewer than `i` characters remain.
pub fn split_chars<'a>(s: &'a str, i: usize) -> (r: Option<(&'a str, &'a str)>)
    ensures
        i <= s@.len() ==> (r matches Some((suf, pre)) && suf@ == s@.subrange(
            i as int,
            s@.len() as int,
        ) && pre@ == s@.subrange(0, i as int)),
        i > s@.len() ==> r is None,
{
    let n = s.unicode_len();
    if i <= n {
        Some((s.substring_char(i, n), s.substring_char(0, i)))
    } else {
        None
    }
}

} // verus!
