//! Wire format of a probe datagram.
//!
//! Each datagram payload is `byte_size` bytes: the first eight bytes hold
//! the round-trip sequence number as an unsigned 64-bit little-endian
//! integer, and every remaining byte is a constant padding byte used purely
//! to reach the configured size.

use vstd::bytes::lemma_auto_spec_u64_to_from_le_bytes;
use vstd::bytes::spec_u64_from_le_bytes;
use vstd::bytes::spec_u64_to_le_bytes;
use vstd::bytes::u64_from_le_bytes;
use vstd::bytes::u64_to_le_bytes;
use vstd::prelude::*;
use vstd::slice::slice_subrange;

verus! {

/// Number of leading payload bytes that carry the sequence number.
pub const SEQ_WIDTH: usize = 8;

/// Value of every payload byte after the encoded sequence number.
pub const PADDING_BYTE: u8 = 0xff;

/// Failure to build a payload: raised only when the configured payload size
/// cannot hold an encoded sequence number.
#[derive(Debug, Clone, Copy, PartialEq, Eq, Structural)]
pub enum CodecError {
    PayloadTooSmall,
}

/// The payload that carries sequence number `n` in a datagram of `size`
/// bytes: the little-endian encoding of `n` followed by padding.
pub open spec fn payload_for(n: u64, size: nat) -> Seq<u8>
    recommends
        size >= SEQ_WIDTH,
{
    spec_u64_to_le_bytes(n) + Seq::new((size - SEQ_WIDTH as nat) as nat, |i: int| PADDING_BYTE)
}

/// Builds the payload for sequence number `n` at the configured payload
/// size, rejecting sizes too small to hold the encoded number.
pub fn encode_payload(n: u64, byte_size: usize) -> (r: Result<Vec<u8>, CodecError>)
    ensures
        byte_size >= SEQ_WIDTH ==> (r matches Ok(p) && p@ == payload_for(n, byte_size as nat)
            && p@.len() == byte_size),
        byte_size < SEQ_WIDTH ==> r == Err::<Vec<u8>, CodecError>(CodecError::PayloadTooSmall),
{
    if byte_size < SEQ_WIDTH {
        return Err(CodecError::PayloadTooSmall);
    }
    let mut p = u64_to_le_bytes(n);
    while p.len() < byte_size
        invariant
            SEQ_WIDTH <= p@.len() <= byte_size,
            p@.subrange(0, SEQ_WIDTH as int) == spec_u64_to_le_bytes(n),
            forall|i: int| SEQ_WIDTH <= i < p@.len() ==> p@[i] == PADDING_BYTE,
        decreases byte_size - p@.len(),
    {
        let ghost prev = p@;
        p.push(PADDING_BYTE);
        proof {
            assert(p@.subrange(0, SEQ_WIDTH as int) =~= prev.subrange(0, SEQ_WIDTH as int));
        }
    }
    proof {
        assert(p@ =~= payload_for(n, byte_size as nat));
    }
    Ok(p)
}

/// Reads the sequence number carried by the leading bytes of a received
/// datagram.
pub fn decode_seq(buf: &[u8]) -> (n: u64)
    requires
        buf@.len() >= SEQ_WIDTH,
    ensures
        n == spec_u64_from_le_bytes(buf@.subrange(0, SEQ_WIDTH as int)),
{
    let head = slice_subrange(buf, 0, SEQ_WIDTH);
    u64_from_le_bytes(head)
}

/// An encoded payload has exactly the configured size.
pub proof fn lemma_payload_len(n: u64, size: nat)
    requires
        size >= SEQ_WIDTH,
    ensures
        payload_for(n, size).len() == size,
{
    lemma_auto_spec_u64_to_from_le_bytes();
}

/// Law: decoding the leading bytes of the payload encoded for `n` yields
/// exactly `n`, for every sequence number and every valid payload size.
pub proof fn lemma_encode_decode_roundtrip(n: u64, size: nat)
    requires
        size >= SEQ_WIDTH,
    ensures
        spec_u64_from_le_bytes(payload_for(n, size).subrange(0, SEQ_WIDTH as int)) == n,
{
    lemma_auto_spec_u64_to_from_le_bytes();
    assert(payload_for(n, size).subrange(0, SEQ_WIDTH as int) =~= spec_u64_to_le_bytes(n));
}

} // verus!
