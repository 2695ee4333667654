//! Decoding UTF-8: a lazy pull-based decoder and a bulk slice decoder, both
//! built on one shared single-scalar core.

use crate::classify::bytes_consumed_on_error;
use crate::classify::lemma_continuation_count_exact;
use crate::classify::leading_ones;
use crate::classify::scalar_length;
use crate::classify::spec_leading_ones;
use vstd::prelude::*;
use vstd::utf8::char_u32_cast;
use vstd::utf8::codepoint_width_2;
use vstd::utf8::codepoint_width_3;
use vstd::utf8::codepoint_width_4;
use vstd::utf8::decode_first_codepoint;
use vstd::utf8::decode_first_scalar;
use vstd::utf8::is_continuation_byte;
use vstd::utf8::is_leading_byte_width_1;
use vstd::utf8::is_leading_byte_width_2;
use vstd::utf8::is_leading_byte_width_3;
use vstd::utf8::is_leading_byte_width_4;
use vstd::utf8::is_scalar;
use vstd::utf8::length_of_first_codepoint;
use vstd::utf8::length_of_first_scalar;
use vstd::utf8::not_surrogate;
use vstd::utf8::valid_first_scalar;
use vstd::utf8::valid_leading_and_continuation_bytes_first_codepoint;

verus! {

/// Marker for one malformed byte sequence met while decoding.  It carries no
/// further detail: every category of malformed input collapses into it.
#[derive(Clone, Copy, Debug, PartialEq, Eq, Hash)]
pub struct InvalidSequence(());

/// Relies on `char::from_u32`: it returns `Some` exactly when the argument is
/// a Unicode scalar value (at most `0x10FFFF` and not a surrogate), and the
/// resulting `char` has the argument as its value.
#[verifier::external_body]
fn char_from_u32(v: u32) -> (r: Option<char>)
    ensures
        r is Some <==> is_scalar(v),
        r matches Some(c) ==> c as u32 == v,
{
    char::from_u32(v)
}

/// Payload bits of a leading byte: the byte with its length-marker high bits
/// masked off.
pub(crate) open spec fn leading_payload(b: u8) -> u32 {
    (b as u32) & (0x7Fu32 >> spec_leading_ones(b))
}

/// Folds the six payload bits of one continuation byte into the accumulator.
pub(crate) open spec fn accum_step(x: u32, b: u8) -> u32 {
    (x << 6) | ((b & 0x3F) as u32)
}

/// Value accumulated from a leading byte and the continuation bytes `conts`.
pub(crate) open spec fn accum(b0: u8, conts: Seq<u8>) -> u32
    decreases conts.len(),
{
    if conts.len() == 0 {
        leading_payload(b0)
    } else {
        accum_step(accum(b0, conts.drop_last()), conts.last())
    }
}

proof fn lemma_accum_width_2(b0: u8, b1: u8)
    by (bit_vector)
    requires
        0xC0 <= b0 < 0xE0,
        0x80 <= b1 < 0xC0,
    ensures
        accum_step(leading_payload(b0), b1) == codepoint_width_2(b0, b1),
        accum_step(leading_payload(b0), b1) <= 0x7FF,
{
}

proof fn lemma_accum_width_3(b0: u8, b1: u8, b2: u8)
    by (bit_vector)
    requires
        0xE0 <= b0 < 0xF0,
        0x80 <= b1 < 0xC0,
        0x80 <= b2 < 0xC0,
    ensures
        accum_step(accum_step(leading_payload(b0), b1), b2) == codepoint_width_3(b0, b1, b2),
        accum_step(accum_step(leading_payload(b0), b1), b2) <= 0xFFFF,
{
}

proof fn lemma_accum_width_4(b0: u8, b1: u8, b2: u8, b3: u8)
    by (bit_vector)
    requires
        0xF0 <= b0 < 0xF8,
        0x80 <= b1 < 0xC0,
        0x80 <= b2 < 0xC0,
        0x80 <= b3 < 0xC0,
    ensures
        accum_step(accum_step(accum_step(leading_payload(b0), b1), b2), b3) == codepoint_width_4(
            b0,
            b1,
            b2,
            b3,
        ),
        accum_step(accum_step(accum_step(leading_payload(b0), b1), b2), b3) <= 0x1FFFFF,
{
}

/// After a leading byte of class `l` and all `l - 1` continuation bytes have
/// been consumed, the accumulated value settles everything: the sequence is a
/// valid first scalar exactly when the value is a scalar whose canonical
/// length is `l`, and on failure the whole sequence of `l` bytes is consumed.
proof fn lemma_full_sequence(sub: Seq<u8>, l: u32, x: u32)
    requires
        l <= sub.len(),
        2 <= l <= 6,
        l == spec_leading_ones(sub[0]),
        forall|i: int| 1 <= i < l ==> is_continuation_byte(#[trigger] sub[i]),
        x == accum(sub[0], sub.subrange(1, l as int)),
    ensures
        valid_first_scalar(sub) <==> (is_scalar(x) && scalar_length(x) == l),
        is_scalar(x) && scalar_length(x) == l ==> decode_first_scalar(sub) == x
            && length_of_first_scalar(sub) == l,
        !(is_scalar(x) && scalar_length(x) == l) ==> bytes_consumed_on_error(sub) == l,
{
    reveal_with_fuel(accum, 7);
    let b0 = sub[0];
    let conts = sub.subrange(1, l as int);
    assert(sub.drop_first().len() == sub.len() - 1);
    assert(forall|i: int| 0 <= i < l - 1 ==> #[trigger] sub.drop_first()[i] == sub[i + 1]);
    lemma_continuation_count_exact(sub.drop_first(), l - 1, l - 1);
    assert(sub.subrange(1, 1).len() == 0);
    if l == 2 {
        assert(conts.drop_last() =~= sub.subrange(1, 1));
        assert(conts.last() == sub[1]);
        assert(x == accum_step(leading_payload(b0), sub[1]));
        assert(is_continuation_byte(sub[1]));
        lemma_accum_width_2(b0, sub[1]);
        assert(x == codepoint_width_2(b0, sub[1]) && x <= 0x7FF);
        assert(is_leading_byte_width_2(b0) && !is_leading_byte_width_1(b0));
        assert(valid_leading_and_continuation_bytes_first_codepoint(sub));
        assert(decode_first_codepoint(sub) == x);
        assert(length_of_first_codepoint(sub) == 2);
        assert(valid_first_scalar(sub) <==> (x >= 0x80));
        assert(is_scalar(x) && scalar_length(x) == 2 <==> (x >= 0x80));
    } else if l == 3 {
        let c1 = sub.subrange(1, 2);
        assert(conts.drop_last() =~= c1);
        assert(c1.drop_last() =~= sub.subrange(1, 1));
        assert(c1.last() == sub[1]);
        assert(conts.last() == sub[2]);
        assert(x == accum_step(accum_step(leading_payload(b0), sub[1]), sub[2]));
        assert(is_continuation_byte(sub[1]) && is_continuation_byte(sub[2]));
        lemma_accum_width_3(b0, sub[1], sub[2]);
        assert(x == codepoint_width_3(b0, sub[1], sub[2]) && x <= 0xFFFF);
        assert(is_leading_byte_width_3(b0) && !is_leading_byte_width_1(b0)
            && !is_leading_byte_width_2(b0));
        assert(valid_leading_and_continuation_bytes_first_codepoint(sub));
        assert(decode_first_codepoint(sub) == x);
        assert(length_of_first_codepoint(sub) == 3);
        assert(valid_first_scalar(sub) <==> (x >= 0x800 && not_surrogate(x)));
        assert(is_scalar(x) && scalar_length(x) == 3 <==> (x >= 0x800 && not_surrogate(x)));
    } else if l == 4 {
        let c2 = sub.subrange(1, 3);
        let c1 = sub.subrange(1, 2);
        assert(conts.drop_last() =~= c2);
        assert(c2.drop_last() =~= c1);
        assert(c1.drop_last() =~= sub.subrange(1, 1));
        assert(c1.last() == sub[1]);
        assert(c2.last() == sub[2]);
        assert(conts.last() == sub[3]);
        assert(x == accum_step(accum_step(accum_step(leading_payload(b0), sub[1]), sub[2]), sub[3]));
        assert(is_continuation_byte(sub[1]) && is_continuation_byte(sub[2])
            && is_continuation_byte(sub[3]));
        lemma_accum_width_4(b0, sub[1], sub[2], sub[3]);
        assert(x == codepoint_width_4(b0, sub[1], sub[2], sub[3]) && x <= 0x1FFFFF);
        assert(is_leading_byte_width_4(b0) && !is_leading_byte_width_1(b0)
            && !is_leading_byte_width_2(b0) && !is_leading_byte_width_3(b0));
        assert(valid_leading_and_continuation_bytes_first_codepoint(sub));
        assert(decode_first_codepoint(sub) == x);
        assert(length_of_first_codepoint(sub) == 4);
        assert(valid_first_scalar(sub) <==> (0x10000 <= x <= 0x10FFFF));
        assert(is_scalar(x) && scalar_length(x) == 4 <==> (0x10000 <= x <= 0x10FFFF));
    } else {
        // a five or six byte sequence: structurally complete, but no scalar
        // has a canonical length above four, so it is always rejected
        assert(!is_leading_byte_width_1(b0) && !is_leading_byte_width_2(b0)
            && !is_leading_byte_width_3(b0) && !is_leading_byte_width_4(b0));
        assert(!valid_leading_and_continuation_bytes_first_codepoint(sub));
        assert(!valid_first_scalar(sub));
        assert(scalar_length(x) <= 4 < l);
    }
}

/// Decodes the first scalar value of `bs[start..]`, which must be non-empty.
/// Returns the decode outcome and the number of bytes consumed: the length of
/// the scalar's encoding on success, and on failure the malformed leading
/// byte together with every continuation byte that was present of those its
/// classification asked for.
pub(crate) fn decode_first(bs: &[u8], start: usize) -> (r: (Result<char, InvalidSequence>, usize))
    requires
        start < bs@.len(),
    ensures
        ({
            let sub = bs@.skip(start as int);
            &&& 1 <= r.1 <= sub.len()
            &&& (valid_first_scalar(sub) ==> (r.0 matches Ok(c) && c as u32
                == decode_first_scalar(sub) && c == decode_first_scalar(sub) as char && r.1
                == length_of_first_scalar(sub)))
            &&& (!valid_first_scalar(sub) ==> r.0 is Err && r.1 == bytes_consumed_on_error(sub))
        }),
{
    let ghost sub = bs@.skip(start as int);
    let b0 = bs[start];
    assert(b0 == sub[0]);
    if b0 < 0x80 {
        let c = match char_from_u32(b0 as u32) {
            Some(c) => c,
            None => unreached(),
        };
        proof {
            assert(vstd::utf8::codepoint_width_1(b0) == b0 as u32) by (bit_vector)
                requires
                    b0 < 0x80,
            ;
            char_u32_cast(c, decode_first_scalar(sub));
        }
        return (Ok(c), 1);
    }
    let l = leading_ones(b0);
    if l < 2 || l > 6 {
        return (Err(InvalidSequence(())), 1);
    }
    let mut x: u32 = (b0 as u32) & (0x7Fu32 >> l);
    let mut k: usize = 1;
    assert(sub.subrange(1, 1) =~= Seq::<u8>::empty());
    while k < l as usize
        invariant
            start < bs@.len(),
            sub == bs@.skip(start as int),
            b0 == sub[0],
            l == spec_leading_ones(b0),
            2 <= l <= 6,
            1 <= k <= l,
            start + k <= bs@.len(),
            forall|i: int| 1 <= i < k ==> is_continuation_byte(#[trigger] sub[i]),
            x == accum(b0, sub.subrange(1, k as int)),
        decreases l as int - k as int,
    {
        if bs.len() - start <= k {
            proof {
                assert(sub.len() == k);
                assert(forall|i: int|
                    0 <= i < k - 1 ==> #[trigger] sub.drop_first()[i] == sub[i + 1]);
                lemma_continuation_count_exact(sub.drop_first(), l - 1, k - 1);
            }
            return (Err(InvalidSequence(())), k);
        }
        let b = bs[start + k];
        assert(b == sub[k as int]);
        if b < 0x80 || b >= 0xC0 {
            proof {
                assert(!is_continuation_byte(sub[k as int]));
                assert(forall|i: int|
                    0 <= i < k - 1 ==> #[trigger] sub.drop_first()[i] == sub[i + 1]);
                lemma_continuation_count_exact(sub.drop_first(), l - 1, k - 1);
            }
            return (Err(InvalidSequence(())), k);
        }
        x = (x << 6) | ((b & 0x3F) as u32);
        proof {
            let prev = sub.subrange(1, k as int);
            let cur = sub.subrange(1, k + 1 as int);
            assert(cur.drop_last() =~= prev);
            assert(cur.last() == sub[k as int]);
        }
        k = k + 1;
    }
    proof {
        lemma_full_sequence(sub, l, x);
    }
    match char_from_u32(x) {
        Some(c) => {
            let canon: u32 = if x < 0x80 {
                1
            } else if x < 0x800 {
                2
            } else if x < 0x10000 {
                3
            } else {
                4
            };
            if canon == l {
                proof {
                    char_u32_cast(c, x);
                }
                (Ok(c), k)
            } else {
                (Err(InvalidSequence(())), k)
            }
        },
        None => (Err(InvalidSequence(())), k),
    }
}

/// Decodes one scalar value from the front of `bs`, returning it as its raw
/// numeric value together with the number of bytes consumed.  Returns `None`
/// when the buffer is empty, holds fewer bytes than the first sequence needs,
/// or starts with a malformed sequence.
pub fn decode_slice_u32(bs: &[u8]) -> (r: Option<(u32, usize)>)
    ensures
        r is Some <==> valid_first_scalar(bs@),
        r matches Some((v, n)) ==> v == decode_first_scalar(bs@) && n == length_of_first_scalar(
            bs@,
        ) && 1 <= n <= bs@.len(),
{
    if bs.len() == 0 {
        return None;
    }
    assert(bs@.skip(0) =~= bs@);
    match decode_first(bs, 0) {
        (Ok(c), n) => Some((c as u32, n)),
        (Err(_), _) => None,
    }
}

/// Decodes one scalar value from the front of `bs`, returning it as a `char`
/// together with the number of bytes consumed.  Returns `None` when the
/// buffer is empty, holds fewer bytes than the first sequence needs, or
/// starts with a malformed sequence.
pub fn decode_slice(bs: &[u8]) -> (r: Option<(char, usize)>)
    ensures
        r is Some <==> valid_first_scalar(bs@),
        r matches Some((c, n)) ==> c as u32 == decode_first_scalar(bs@) && c
            == decode_first_scalar(bs@) as char && n == length_of_first_scalar(bs@) && 1 <= n
            <= bs@.len(),
{
    if bs.len() == 0 {
        return None;
    }
    assert(bs@.skip(0) =~= bs@);
    match decode_first(bs, 0) {
        (Ok(c), n) => Some((c, n)),
        (Err(_), _) => None,
    }
}

/// A lazy decoder over a sequence of bytes: each call of [`DecodeUtf8::next`]
/// pulls one decode outcome from the front of the remaining input, consuming
/// only the bytes that outcome accounts for.
#[derive(Clone, Debug)]
pub struct DecodeUtf8 {
    bytes: Vec<u8>,
    pos: usize,
}

impl DecodeUtf8 {
    /// The cursor never runs past the end of the input.
    pub closed spec fn wf(&self) -> bool {
        self.pos <= self.bytes@.len()
    }

    /// The bytes not yet consumed.
    pub closed spec fn remaining(&self) -> Seq<u8> {
        self.bytes@.skip(self.pos as int)
    }

    /// Pulls the next decode outcome: `None` at the end of the input, one
    /// scalar value for a valid sequence, or one invalid-sequence marker for
    /// a malformed one.  After an error the cursor stands on the first byte
    /// the malformed sequence did not account for, so decoding resumes there.
    pub fn next(&mut self) -> (r: Option<Result<char, InvalidSequence>>)
        requires
            old(self).wf(),
        ensures
            final(self).wf(),
            ({
                let sub = old(self).remaining();
                match r {
                    None => sub.len() == 0 && final(self).remaining() == sub,
                    Some(out) => {
                        &&& sub.len() > 0
                        &&& match out {
                            Ok(c) => valid_first_scalar(sub) && c as u32 == decode_first_scalar(
                                sub,
                            ) && c == decode_first_scalar(sub) as char && final(self).remaining()
                                == sub.skip(length_of_first_scalar(sub)),
                            Err(_) => !valid_first_scalar(sub) && final(self).remaining()
                                == sub.skip(bytes_consumed_on_error(sub)),
                        }
                    },
                }
            }),
    {
        if self.pos >= self.bytes.len() {
            return None;
        }
        let (out, n) = decode_first(self.bytes.as_slice(), self.pos);
        proof {
            let sub = old(self).remaining();
            assert(sub.skip(n as int) =~= self.bytes@.skip(self.pos + n as int));
        }
        self.pos = self.pos + n;
        Some(out)
    }
}

/// Wraps a sequence of bytes in a lazy decoder positioned at its start.
pub fn decode_utf8(bytes: Vec<u8>) -> (d: DecodeUtf8)
    ensures
        d.wf(),
        d.remaining() == bytes@,
{
    let d = DecodeUtf8 { bytes, pos: 0 };
    assert(d.remaining() =~= d.bytes@);
    d
}

} // verus!
