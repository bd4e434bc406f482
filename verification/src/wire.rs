//! Byte-stream framing: the 4-byte big-endian length prefix that precedes
//! every encoded frame on the wire.

use vstd::prelude::*;

verus! {

/// The four big-endian bytes of a 32-bit length.
pub open spec fn be_bytes_of_u32(n: u32) -> Seq<u8> {
    seq![
        (n >> 24) as u8,
        ((n >> 16) & 0xff) as u8,
        ((n >> 8) & 0xff) as u8,
        (n & 0xff) as u8,
    ]
}

/// The 32-bit value read from four big-endian bytes.
pub open spec fn u32_of_be_bytes(b: Seq<u8>) -> u32
    recommends
        b.len() == 4,
{
    (((b[0] as u32) << 24) | ((b[1] as u32) << 16) | ((b[2] as u32) << 8) | (b[3] as u32)) as u32
}

/// Reading back the four bytes of a length yields the length.
pub proof fn lemma_be_bytes_round_trip(n: u32)
    ensures
        u32_of_be_bytes(be_bytes_of_u32(n)) == n,
{
    assert(((((n >> 24) as u8) as u32) << 24) | (((((n >> 16) & 0xff) as u8) as u32) << 16) | (((((
    n >> 8) & 0xff) as u8) as u32) << 8) | (((n & 0xff) as u8) as u32) == n) by (bit_vector);
}

/// Encode a payload length as its wire prefix.
pub fn encode_length_prefix(n: u32) -> (r: Vec<u8>)
    ensures
        r@ == be_bytes_of_u32(n),
        r@.len() == 4,
{
    let mut v: Vec<u8> = Vec::new();
    v.push((n >> 24) as u8);
    v.push(((n >> 16) & 0xff) as u8);
    v.push(((n >> 8) & 0xff) as u8);
    v.push((n & 0xff) as u8);
    proof {
        assert(v@ =~= be_bytes_of_u32(n));
    }
    v
}

/// Decode a wire prefix into a payload length; anything but exactly four
/// bytes is refused.
pub fn decode_length_prefix(b: &[u8]) -> (r: Option<u32>)
    ensures
        match r {
            Some(v) => b@.len() == 4 && v == u32_of_be_bytes(b@),
            None => b@.len() != 4,
        },
{
    if b.len() != 4 {
        return None;
    }
    let v: u32 = ((b[0] as u32) << 24) | ((b[1] as u32) << 16) | ((b[2] as u32) << 8) | (
    b[3] as u32);
    Some(v)
}

} // verus!
