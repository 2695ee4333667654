//! A minimal UTF-8 codec.
//!
//! The decode side turns raw bytes into validated Unicode scalar values,
//! either lazily one pull at a time ([`DecodeUtf8`]) or from the front of a
//! finite buffer ([`decode_slice`]).  Every category of malformed input —
//! truncated sequences, overlong encodings, bare continuation bytes,
//! surrogate halves, out-of-range values — is rejected, and decoding
//! resynchronizes at the next byte after an invalid sequence.  The encode
//! side ([`UtfExt::try_encode_utf8`]) writes the canonical byte sequence of a
//! scalar value into a caller-supplied buffer.

mod classify;
mod decode;
mod encode;
mod laws;

pub use classify::bytes_consumed_on_error;
pub use classify::continuation_count;
pub use classify::leading_ones;
pub use classify::scalar_length;
pub use classify::spec_leading_ones;
pub use decode::decode_slice;
pub use decode::decode_slice_u32;
pub use decode::decode_utf8;
pub use decode::DecodeUtf8;
pub use decode::InvalidSequence;
pub use encode::lemma_wide_encode_scalar;
pub use encode::wide_encode;
pub use encode::UtfExt;
pub use encode::UtfExtSealed;
pub use laws::lemma_ascii_fast_path;
pub use laws::lemma_decode_then_encode;
pub use laws::lemma_first_scalar_prefix;
pub use laws::lemma_overlong_rejected;
pub use laws::lemma_resynchronization;
pub use laws::lemma_round_trip;
pub use laws::lemma_surrogate_rejected;
pub use laws::lemma_truncated_sequence;
