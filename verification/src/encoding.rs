//! Shared pieces of the wire codec: error types, little-endian helpers for
//! `i16`, prefix writing into caller-supplied buffers, and UTF-8 decoding of
//! guest-supplied byte strings.

use vstd::bytes::*;
use vstd::prelude::*;
use vstd::utf8::{decode_utf8, valid_utf8};

verus! {

/// Error returned by the encoders when the output buffer cannot hold the value.
#[derive(Clone, Copy, Debug, PartialEq, Eq, Structural)]
pub enum EncodeError {
    BufferSize,
}

/// Error returned by the decoders on truncated input or an unknown tag.
#[derive(Clone, Copy, Debug, PartialEq, Eq, Structural)]
pub enum DecodeError {
    BadFormat,
}

/// Wire form of an `i16`: the two's-complement bits, little-endian.
pub open spec fn spec_i16_to_le_bytes(x: i16) -> Seq<u8> {
    spec_u16_to_le_bytes(x as u16)
}

/// Value of a two-byte little-endian sequence read as an `i16`.
pub open spec fn spec_i16_from_le_bytes(s: Seq<u8>) -> i16 {
    spec_u16_from_le_bytes(s) as i16
}

/// The two `i16` conversions invert each other, mirroring the `u16` lemma.
pub proof fn lemma_auto_spec_i16_to_from_le_bytes()
    ensures
        forall|x: i16|
            {
                &&& #[trigger] spec_i16_to_le_bytes(x).len() == 2
                &&& spec_i16_from_le_bytes(spec_i16_to_le_bytes(x)) == x
            },
        forall|s: Seq<u8>|
            s.len() == 2 ==> #[trigger] spec_i16_to_le_bytes(spec_i16_from_le_bytes(s)) == s,
{
    lemma_auto_spec_u16_to_from_le_bytes();
    assert forall|x: i16| spec_i16_from_le_bytes(spec_i16_to_le_bytes(x)) == x by {
        let v = x as u16;
        assert(spec_u16_to_le_bytes(v).len() == 2);
        assert(spec_u16_from_le_bytes(spec_u16_to_le_bytes(v)) == v);
        assert(((x as u16) as i16) == x) by (bit_vector);
    }
    assert forall|s: Seq<u8>| s.len() == 2 implies #[trigger] spec_i16_to_le_bytes(
        spec_i16_from_le_bytes(s),
    ) == s by {
        let v = spec_u16_from_le_bytes(s);
        assert(((v as i16) as u16) == v) by (bit_vector);
    }
}

/// Law: the two `u16` conversions invert each other.
pub proof fn lemma_u16_round_trip(x: u16)
    ensures
        spec_u16_from_le_bytes(spec_u16_to_le_bytes(x)) == x,
        spec_u16_to_le_bytes(x).len() == 2,
{
    lemma_auto_spec_u16_to_from_le_bytes();
}

/// Law: the two `u32` conversions invert each other.
pub proof fn lemma_u32_round_trip(x: u32)
    ensures
        spec_u32_from_le_bytes(spec_u32_to_le_bytes(x)) == x,
        spec_u32_to_le_bytes(x).len() == 4,
{
    lemma_auto_spec_u32_to_from_le_bytes();
}

pub fn i16_to_le_bytes(x: i16) -> (s: Vec<u8>)
    ensures
        s@ == spec_i16_to_le_bytes(x),
        s@.len() == 2,
{
    u16_to_le_bytes(x as u16)
}

pub fn i16_from_le_bytes(s: &[u8]) -> (x: i16)
    requires
        s@.len() == 2,
    ensures
        x == spec_i16_from_le_bytes(s@),
{
    u16_from_le_bytes(s) as i16
}

/// Overwrite the front of `buffer` with `bytes`, leaving the rest in place.
///
/// This gives every encoder the caller-supplied-buffer behaviour of the wire
/// codec: a buffer shorter than the value is refused and left untouched.
pub(crate) fn write_prefix(buffer: &mut Vec<u8>, bytes: &Vec<u8>) -> (r: Result<(), EncodeError>)
    ensures
        r is Ok <==> old(buffer).len() >= bytes.len(),
        r is Ok ==> final(buffer)@ == bytes@ + old(buffer)@.skip(bytes@.len() as int),
        r is Err ==> final(buffer)@ == old(buffer)@ && r == Err::<(), EncodeError>(
            EncodeError::BufferSize,
        ),
{
    if buffer.len() < bytes.len() {
        return Err(EncodeError::BufferSize);
    }
    let n = bytes.len();
    let mut i: usize = 0;
    while i < n
        invariant
            0 <= i <= n,
            n == bytes.len(),
            n <= buffer.len(),
            buffer.len() == old(buffer).len(),
            forall|j: int| 0 <= j < i ==> buffer@[j] == bytes@[j],
            forall|j: int| i <= j < buffer@.len() ==> buffer@[j] == old(buffer)@[j],
        decreases n - i,
    {
        buffer[i] = bytes[i];
        i += 1;
    }
    proof {
        assert(buffer@ =~= bytes@ + old(buffer)@.skip(bytes@.len() as int));
    }
    Ok(())
}

/// Relies on `core::str::from_utf8`: it accepts exactly the valid UTF-8 byte
/// sequences and yields the characters those bytes encode.
#[verifier::external_body]
pub(crate) fn utf8_to_str(bytes: &[u8]) -> (r: Option<&str>)
    ensures
        (r is Some) == valid_utf8(bytes@),
        r matches Some(s) ==> s@ == decode_utf8(bytes@),
{
    core::str::from_utf8(bytes).ok()
}

} // verus!
