//! Encoding scalar values as UTF-8 into a caller-supplied buffer.

use vstd::prelude::*;
use vstd::utf8::char_is_scalar;
use vstd::utf8::encode_scalar;
use vstd::utf8::is_scalar;
use vstd::utf8::last_continuation_byte;
use vstd::utf8::leading_byte_width_1;
use vstd::utf8::leading_byte_width_2;
use vstd::utf8::leading_byte_width_3;
use vstd::utf8::leading_byte_width_4;
use vstd::utf8::second_last_continuation_byte;
use vstd::utf8::third_last_continuation_byte;

verus! {

/// The UTF-8 byte sequence encoding `v`, in the historical generalized form
/// that admits values all the way up to 31 payload bits: one to four bytes
/// for the modern scalar range, five or six bytes for values beyond it.  For
/// scalar values it coincides with the canonical encoding
/// ([`lemma_wide_encode_scalar`]).
pub open spec fn wide_encode(v: u32) -> Seq<u8>
    recommends
        v < 0x8000_0000,
{
    if v < 0x80 {
        seq![leading_byte_width_1(v)]
    } else if v < 0x800 {
        seq![leading_byte_width_2(v), last_continuation_byte(v)]
    } else if v < 0x10000 {
        seq![
            leading_byte_width_3(v),
            second_last_continuation_byte(v),
            last_continuation_byte(v),
        ]
    } else if v < 0x200000 {
        seq![
            leading_byte_width_4(v),
            third_last_continuation_byte(v),
            second_last_continuation_byte(v),
            last_continuation_byte(v),
        ]
    } else if v < 0x4000000 {
        seq![
            0xF8 | ((v >> 24) & 0x03) as u8,
            0x80 | ((v >> 18) & 0x3F) as u8,
            0x80 | ((v >> 12) & 0x3F) as u8,
            0x80 | ((v >> 6) & 0x3F) as u8,
            0x80 | (v & 0x3F) as u8,
        ]
    } else {
        seq![
            0xFC | ((v >> 30) & 0x01) as u8,
            0x80 | ((v >> 24) & 0x3F) as u8,
            0x80 | ((v >> 18) & 0x3F) as u8,
            0x80 | ((v >> 12) & 0x3F) as u8,
            0x80 | ((v >> 6) & 0x3F) as u8,
            0x80 | (v & 0x3F) as u8,
        ]
    }
}

/// On the scalar range the generalized encoding is exactly the canonical
/// UTF-8 encoding.
pub proof fn lemma_wide_encode_scalar(v: u32)
    requires
        is_scalar(v),
    ensures
        wide_encode(v) == encode_scalar(v),
{
    assert(wide_encode(v) =~= encode_scalar(v));
}

/// Closed marker for the types that carry a UTF-8 encoding of themselves.
pub trait UtfExtSealed {

}

/// Encoding a value in place into a caller-supplied buffer.
pub trait UtfExt: UtfExtSealed + Sized {
    /// Whether the value can be encoded at all.
    spec fn encodable(self) -> bool;

    /// The byte sequence the value encodes to.
    spec fn encoded_bytes(self) -> Seq<u8>;

    /// Writes the value's encoding over the front of `bs` and returns the
    /// number of bytes written.  Returns `None`, leaving the buffer
    /// untouched, when the value cannot be encoded or the buffer is shorter
    /// than its encoding.
    fn try_encode_utf8(self, bs: &mut Vec<u8>) -> (r: Option<usize>)
        ensures
            r is Some <==> self.encodable() && self.encoded_bytes().len() <= old(bs)@.len(),
            r matches Some(l) ==> l == self.encoded_bytes().len() && final(bs)@
                == self.encoded_bytes() + old(bs)@.skip(l as int),
            r is None ==> final(bs)@ == old(bs)@,
    ;
}

impl UtfExtSealed for char {

}

impl UtfExtSealed for u32 {

}

impl UtfExt for u32 {
    /// Any value of at most 31 payload bits fits the generalized encoding.
    open spec fn encodable(self) -> bool {
        self < 0x8000_0000
    }

    open spec fn encoded_bytes(self) -> Seq<u8> {
        wide_encode(self)
    }

    fn try_encode_utf8(self, bs: &mut Vec<u8>) -> (r: Option<usize>) {
        let v = self;
        let l: usize = if v < 0x80 {
            1
        } else if v < 0x800 {
            2
        } else if v < 0x10000 {
            3
        } else if v < 0x200000 {
            4
        } else if v < 0x4000000 {
            5
        } else if v < 0x8000_0000 {
            6
        } else {
            return None;
        };
        if bs.len() < l {
            return None;
        }
        if l == 1 {
            bs.set(0, (v & 0x7F) as u8);
        } else if l == 2 {
            bs.set(0, 0xC0 | ((v >> 6) & 0x1F) as u8);
            bs.set(1, 0x80 | (v & 0x3F) as u8);
        } else if l == 3 {
            bs.set(0, 0xE0 | ((v >> 12) & 0x0F) as u8);
            bs.set(1, 0x80 | ((v >> 6) & 0x3F) as u8);
            bs.set(2, 0x80 | (v & 0x3F) as u8);
        } else if l == 4 {
            bs.set(0, 0xF0 | ((v >> 18) & 0x7) as u8);
            bs.set(1, 0x80 | ((v >> 12) & 0x3F) as u8);
            bs.set(2, 0x80 | ((v >> 6) & 0x3F) as u8);
            bs.set(3, 0x80 | (v & 0x3F) as u8);
        } else if l == 5 {
            bs.set(0, 0xF8 | ((v >> 24) & 0x03) as u8);
            bs.set(1, 0x80 | ((v >> 18) & 0x3F) as u8);
            bs.set(2, 0x80 | ((v >> 12) & 0x3F) as u8);
            bs.set(3, 0x80 | ((v >> 6) & 0x3F) as u8);
            bs.set(4, 0x80 | (v & 0x3F) as u8);
        } else {
            bs.set(0, 0xFC | ((v >> 30) & 0x01) as u8);
            bs.set(1, 0x80 | ((v >> 24) & 0x3F) as u8);
            bs.set(2, 0x80 | ((v >> 18) & 0x3F) as u8);
            bs.set(3, 0x80 | ((v >> 12) & 0x3F) as u8);
            bs.set(4, 0x80 | ((v >> 6) & 0x3F) as u8);
            bs.set(5, 0x80 | (v & 0x3F) as u8);
        }
        proof {
            assert(bs@ =~= wide_encode(v) + old(bs)@.skip(l as int));
        }
        Some(l)
    }
}

impl UtfExt for char {
    /// Every `char` is a scalar value, so every `char` can be encoded.
    open spec fn encodable(self) -> bool {
        true
    }

    open spec fn encoded_bytes(self) -> Seq<u8> {
        encode_scalar(self as u32)
    }

    fn try_encode_utf8(self, bs: &mut Vec<u8>) -> (r: Option<usize>) {
        proof {
            char_is_scalar(self);
            lemma_wide_encode_scalar(self as u32);
        }
        (self as u32).try_encode_utf8(bs)
    }
}

} // verus!
