//! Classification of UTF-8 leading bytes, and the shared accounting of how
//! many bytes a malformed sequence consumes before the decoder resynchronizes.

use vstd::prelude::*;
use vstd::utf8::is_continuation_byte;

verus! {

/// Number of leading one bits in a byte, written out by range.
///
/// This is the sequence-length classification shared by both decode paths:
/// `0` marks an ASCII byte (a one-byte sequence), `2` through `6` mark the
/// head of a multi-byte sequence of that total length, and `1` (a bare
/// continuation byte), `7` and `8` (`0xFE`, `0xFF`) mark bytes that cannot
/// head any sequence.
pub open spec fn spec_leading_ones(b: u8) -> u32 {
    if b < 0x80 {
        0
    } else if b < 0xC0 {
        1
    } else if b < 0xE0 {
        2
    } else if b < 0xF0 {
        3
    } else if b < 0xF8 {
        4
    } else if b < 0xFC {
        5
    } else if b < 0xFE {
        6
    } else if b == 0xFE {
        7
    } else {
        8
    }
}

/// Sequence-length classifier: counts the leading one bits of a byte.
#[verifier::when_used_as_spec(spec_leading_ones)]
pub fn leading_ones(b: u8) -> (n: u32)
    ensures
        n == spec_leading_ones(b),
{
    if b < 0x80 {
        0
    } else if b < 0xC0 {
        1
    } else if b < 0xE0 {
        2
    } else if b < 0xF0 {
        3
    } else if b < 0xF8 {
        4
    } else if b < 0xFC {
        5
    } else if b < 0xFE {
        6
    } else if b == 0xFE {
        7
    } else {
        8
    }
}

/// Canonical UTF-8 length in bytes of a scalar value: the fewest bytes in
/// which the value can be encoded.
pub open spec fn scalar_length(v: u32) -> int
    recommends
        v <= 0x10FFFF,
{
    if v < 0x80 {
        1
    } else if v < 0x800 {
        2
    } else if v < 0x10000 {
        3
    } else {
        4
    }
}

/// Number of continuation bytes at the front of `s`, counting at most `limit`
/// of them.
pub open spec fn continuation_count(s: Seq<u8>, limit: int) -> int
    decreases limit,
{
    if limit <= 0 || s.len() == 0 || !is_continuation_byte(s[0]) {
        0
    } else {
        1 + continuation_count(s.drop_first(), limit - 1)
    }
}

/// Number of bytes a pull consumes from the front of `bytes` when the first
/// sequence there is malformed: the leading byte, plus every continuation
/// byte the classification asked for that is actually present.  A byte that
/// fails the continuation pattern is left unconsumed, which is what lets the
/// decoder resynchronize on it.
pub open spec fn bytes_consumed_on_error(bytes: Seq<u8>) -> int
    recommends
        bytes.len() > 0,
{
    let l = spec_leading_ones(bytes[0]) as int;
    if 2 <= l <= 6 {
        1 + continuation_count(bytes.drop_first(), l - 1)
    } else {
        1
    }
}

/// `continuation_count` is exactly the length of the run of continuation
/// bytes at the front, capped by the limit.
pub(crate) proof fn lemma_continuation_count_exact(s: Seq<u8>, limit: int, j: int)
    requires
        0 <= j <= limit,
        j <= s.len(),
        forall|i: int| 0 <= i < j ==> is_continuation_byte(#[trigger] s[i]),
        j < limit ==> (j == s.len() || !is_continuation_byte(s[j as int])),
    ensures
        continuation_count(s, limit) == j,
    decreases j,
{
    if j == 0 {
    } else {
        assert(is_continuation_byte(s[0]));
        let t = s.drop_first();
        assert(forall|i: int| 0 <= i < j - 1 ==> #[trigger] t[i] == s[i + 1]);
        lemma_continuation_count_exact(t, limit - 1, j - 1);
    }
}

} // verus!
