//! The codec's laws: the two round-trip directions, rejection of overlong
//! and surrogate forms, the ASCII fast path, and resynchronization after
//! malformed input.

use crate::classify::bytes_consumed_on_error;
use crate::classify::lemma_continuation_count_exact;
use crate::classify::scalar_length;
use crate::classify::spec_leading_ones;
use crate::encode::lemma_wide_encode_scalar;
use crate::encode::wide_encode;
use vstd::prelude::*;
use vstd::utf8::codepoint_width_1;
use vstd::utf8::codepoint_width_2;
use vstd::utf8::codepoint_width_3;
use vstd::utf8::codepoint_width_4;
use vstd::utf8::decode_first_codepoint;
use vstd::utf8::decode_first_scalar;
use vstd::utf8::is_continuation_byte;
use vstd::utf8::is_leading_byte_width_1;
use vstd::utf8::is_leading_byte_width_2;
use vstd::utf8::is_leading_byte_width_3;
use vstd::utf8::is_leading_byte_width_4;
use vstd::utf8::is_scalar;
use vstd::utf8::last_continuation_byte;
use vstd::utf8::leading_byte_width_1;
use vstd::utf8::leading_byte_width_2;
use vstd::utf8::leading_byte_width_3;
use vstd::utf8::leading_byte_width_4;
use vstd::utf8::length_of_first_codepoint;
use vstd::utf8::length_of_first_scalar;
use vstd::utf8::second_last_continuation_byte;
use vstd::utf8::third_last_continuation_byte;
use vstd::utf8::valid_first_scalar;
use vstd::utf8::valid_leading_and_continuation_bytes_first_codepoint;

verus! {

proof fn lemma_encode_decode_width_1(v: u32)
    by (bit_vector)
    requires
        v < 0x80,
    ensures
        is_leading_byte_width_1(leading_byte_width_1(v)),
        codepoint_width_1(leading_byte_width_1(v)) == v,
{
}

proof fn lemma_encode_decode_width_2(v: u32)
    by (bit_vector)
    requires
        0x80 <= v < 0x800,
    ensures
        is_leading_byte_width_2(leading_byte_width_2(v)),
        is_continuation_byte(last_continuation_byte(v)),
        codepoint_width_2(leading_byte_width_2(v), last_continuation_byte(v)) == v,
{
}

proof fn lemma_encode_decode_width_3(v: u32)
    by (bit_vector)
    requires
        0x800 <= v < 0x10000,
    ensures
        is_leading_byte_width_3(leading_byte_width_3(v)),
        is_continuation_byte(second_last_continuation_byte(v)),
        is_continuation_byte(last_continuation_byte(v)),
        codepoint_width_3(
            leading_byte_width_3(v),
            second_last_continuation_byte(v),
            last_continuation_byte(v),
        ) == v,
{
}

proof fn lemma_encode_decode_width_4(v: u32)
    by (bit_vector)
    requires
        0x10000 <= v <= 0x10FFFF,
    ensures
        is_leading_byte_width_4(leading_byte_width_4(v)),
        is_continuation_byte(third_last_continuation_byte(v)),
        is_continuation_byte(second_last_continuation_byte(v)),
        is_continuation_byte(last_continuation_byte(v)),
        codepoint_width_4(
            leading_byte_width_4(v),
            third_last_continuation_byte(v),
            second_last_continuation_byte(v),
            last_continuation_byte(v),
        ) == v,
{
}

proof fn lemma_decode_encode_width_1(b0: u8)
    by (bit_vector)
    requires
        b0 < 0x80,
    ensures
        codepoint_width_1(b0) < 0x80,
        leading_byte_width_1(codepoint_width_1(b0)) == b0,
{
}

proof fn lemma_decode_encode_width_2(b0: u8, b1: u8)
    by (bit_vector)
    requires
        0xC0 <= b0 <= 0xDF,
        0x80 <= b1 <= 0xBF,
        codepoint_width_2(b0, b1) >= 0x80,
    ensures
        0x80 <= codepoint_width_2(b0, b1) < 0x800,
        leading_byte_width_2(codepoint_width_2(b0, b1)) == b0,
        last_continuation_byte(codepoint_width_2(b0, b1)) == b1,
{
}

proof fn lemma_decode_encode_width_3(b0: u8, b1: u8, b2: u8)
    by (bit_vector)
    requires
        0xE0 <= b0 <= 0xEF,
        0x80 <= b1 <= 0xBF,
        0x80 <= b2 <= 0xBF,
        codepoint_width_3(b0, b1, b2) >= 0x800,
    ensures
        0x800 <= codepoint_width_3(b0, b1, b2) < 0x10000,
        leading_byte_width_3(codepoint_width_3(b0, b1, b2)) == b0,
        second_last_continuation_byte(codepoint_width_3(b0, b1, b2)) == b1,
        last_continuation_byte(codepoint_width_3(b0, b1, b2)) == b2,
{
}

proof fn lemma_decode_encode_width_4(b0: u8, b1: u8, b2: u8, b3: u8)
    by (bit_vector)
    requires
        0xF0 <= b0 <= 0xF7,
        0x80 <= b1 <= 0xBF,
        0x80 <= b2 <= 0xBF,
        0x80 <= b3 <= 0xBF,
        0x10000 <= codepoint_width_4(b0, b1, b2, b3) <= 0x10FFFF,
    ensures
        leading_byte_width_4(codepoint_width_4(b0, b1, b2, b3)) == b0,
        third_last_continuation_byte(codepoint_width_4(b0, b1, b2, b3)) == b1,
        second_last_continuation_byte(codepoint_width_4(b0, b1, b2, b3)) == b2,
        last_continuation_byte(codepoint_width_4(b0, b1, b2, b3)) == b3,
{
}

/// Round trip, encode first: the encoding of a scalar value is a valid first
/// scalar that decodes back to the value itself, and its length is the
/// value's canonical length.
pub proof fn lemma_round_trip(v: u32)
    requires
        is_scalar(v),
    ensures
        valid_first_scalar(wide_encode(v)),
        decode_first_scalar(wide_encode(v)) == v,
        length_of_first_scalar(wide_encode(v)) == wide_encode(v).len(),
        wide_encode(v).len() == scalar_length(v),
{
    lemma_wide_encode_scalar(v);
    let bs = wide_encode(v);
    if v < 0x80 {
        lemma_encode_decode_width_1(v);
        assert(bs[0] == leading_byte_width_1(v));
    } else if v < 0x800 {
        lemma_encode_decode_width_2(v);
        assert(bs[0] == leading_byte_width_2(v) && bs[1] == last_continuation_byte(v));
        assert(!is_leading_byte_width_1(bs[0]));
    } else if v < 0x10000 {
        lemma_encode_decode_width_3(v);
        assert(bs[0] == leading_byte_width_3(v) && bs[1] == second_last_continuation_byte(v)
            && bs[2] == last_continuation_byte(v));
        assert(!is_leading_byte_width_1(bs[0]) && !is_leading_byte_width_2(bs[0]));
    } else {
        lemma_encode_decode_width_4(v);
        assert(bs[0] == leading_byte_width_4(v) && bs[1] == third_last_continuation_byte(v)
            && bs[2] == second_last_continuation_byte(v) && bs[3] == last_continuation_byte(v));
        assert(!is_leading_byte_width_1(bs[0]) && !is_leading_byte_width_2(bs[0])
            && !is_leading_byte_width_3(bs[0]));
    }
}

/// Round trip, decode first: re-encoding the scalar value at the front of a
/// valid sequence reproduces exactly the bytes it was decoded from.  No two
/// distinct valid sequences decode to the same value.
pub proof fn lemma_decode_then_encode(bytes: Seq<u8>)
    requires
        valid_first_scalar(bytes),
    ensures
        is_scalar(decode_first_scalar(bytes)),
        wide_encode(decode_first_scalar(bytes)) == bytes.subrange(
            0,
            length_of_first_scalar(bytes),
        ),
{
    let v = decode_first_scalar(bytes);
    let l = length_of_first_scalar(bytes);
    if is_leading_byte_width_1(bytes[0]) {
        lemma_decode_encode_width_1(bytes[0]);
        assert(wide_encode(v) =~= bytes.subrange(0, l));
    } else if is_leading_byte_width_2(bytes[0]) {
        lemma_decode_encode_width_2(bytes[0], bytes[1]);
        assert(wide_encode(v) =~= bytes.subrange(0, l));
    } else if is_leading_byte_width_3(bytes[0]) {
        lemma_decode_encode_width_3(bytes[0], bytes[1], bytes[2]);
        assert(wide_encode(v) =~= bytes.subrange(0, l));
    } else {
        lemma_decode_encode_width_4(bytes[0], bytes[1], bytes[2], bytes[3]);
        assert(wide_encode(v) =~= bytes.subrange(0, l));
    }
}

/// No overlong acceptance: a structurally complete sequence strictly longer
/// than the canonical length of the value it carries is not a valid first
/// scalar.
pub proof fn lemma_overlong_rejected(bytes: Seq<u8>)
    requires
        valid_leading_and_continuation_bytes_first_codepoint(bytes),
        is_scalar(decode_first_codepoint(bytes)),
        length_of_first_codepoint(bytes) > scalar_length(decode_first_codepoint(bytes)),
    ensures
        !valid_first_scalar(bytes),
{
}

/// Surrogate rejection: a structurally complete sequence whose accumulated
/// value falls in the surrogate range is not a valid first scalar.
pub proof fn lemma_surrogate_rejected(bytes: Seq<u8>)
    requires
        valid_leading_and_continuation_bytes_first_codepoint(bytes),
        0xD800 <= decode_first_codepoint(bytes) <= 0xDFFF,
    ensures
        !valid_first_scalar(bytes),
{
}

/// ASCII fast path: a byte below `0x80` at the front of any input is a valid
/// one-byte sequence that decodes to itself.
pub proof fn lemma_ascii_fast_path(bytes: Seq<u8>)
    requires
        bytes.len() >= 1,
        bytes[0] < 0x80,
    ensures
        valid_first_scalar(bytes),
        decode_first_scalar(bytes) == bytes[0] as u32,
        length_of_first_scalar(bytes) == 1,
{
    let b = bytes[0];
    assert(codepoint_width_1(b) == b as u32) by (bit_vector)
        requires
            b < 0x80,
    ;
}

/// Resynchronization: a leading byte that no length class accepts is an
/// invalid sequence of exactly one byte, and an ASCII byte right after it
/// decodes on the next pull.
pub proof fn lemma_resynchronization(bytes: Seq<u8>)
    requires
        bytes.len() == 2,
        spec_leading_ones(bytes[0]) == 1 || spec_leading_ones(bytes[0]) >= 7,
        bytes[1] < 0x80,
    ensures
        !valid_first_scalar(bytes),
        bytes_consumed_on_error(bytes) == 1,
        valid_first_scalar(bytes.skip(1)),
        decode_first_scalar(bytes.skip(1)) == bytes[1] as u32,
        length_of_first_scalar(bytes.skip(1)) == 1,
{
    assert(bytes.skip(1).len() == 1 && bytes.skip(1)[0] == bytes[1]);
    lemma_ascii_fast_path(bytes.skip(1));
}

/// Truncation at the end of input: a three-byte head followed by one
/// continuation byte and nothing further is invalid, and both available
/// bytes are consumed.
pub proof fn lemma_truncated_sequence(bytes: Seq<u8>)
    requires
        bytes.len() == 2,
        spec_leading_ones(bytes[0]) == 3,
        is_continuation_byte(bytes[1]),
    ensures
        !valid_first_scalar(bytes),
        bytes_consumed_on_error(bytes) == 2,
{
    assert(bytes.drop_first().len() == 1 && bytes.drop_first()[0] == bytes[1]);
    lemma_continuation_count_exact(bytes.drop_first(), 2, 1);
}

/// What the front of the input decodes to does not depend on what follows
/// it: appending bytes changes neither validity nor the first outcome.
pub proof fn lemma_first_scalar_prefix(bytes: Seq<u8>, rest: Seq<u8>)
    requires
        valid_first_scalar(bytes),
    ensures
        valid_first_scalar(bytes + rest),
        decode_first_scalar(bytes + rest) == decode_first_scalar(bytes),
        length_of_first_scalar(bytes + rest) == length_of_first_scalar(bytes),
{
    let cat = bytes + rest;
    assert(forall|i: int| 0 <= i < bytes.len() ==> cat[i] == #[trigger] bytes[i]);
}

} // verus!
