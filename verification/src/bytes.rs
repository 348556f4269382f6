//! Big-endian integer fields read out of a byte region.
//!
//! Every multi-byte quantity in a flattened device tree is stored
//! big-endian, so all decoding in this crate goes through the two
//! readers here, each proved against a direct arithmetic model.

use vstd::prelude::*;

verus! {

/// The value of the four bytes of `b` starting at `i`, read big-endian.
pub open spec fn be32_at(b: Seq<u8>, i: int) -> u32
    recommends
        0 <= i,
        i + 4 <= b.len(),
{
    ((b[i] as int) * 0x100_0000 + (b[i + 1] as int) * 0x1_0000 + (b[i + 2] as int) * 0x100 + (b[i
        + 3] as int)) as u32
}

/// The value of the eight bytes of `b` starting at `i`, read big-endian.
pub open spec fn be64_at(b: Seq<u8>, i: int) -> u64
    recommends
        0 <= i,
        i + 8 <= b.len(),
{
    ((be32_at(b, i) as int) * 0x1_0000_0000 + (be32_at(b, i + 4) as int)) as u64
}

/// The four-byte big-endian encoding of `x`.
pub open spec fn be32_bytes(x: u32) -> Seq<u8> {
    seq![(x >> 24) as u8, ((x >> 16) & 0xff) as u8, ((x >> 8) & 0xff) as u8, (x & 0xff) as u8]
}

/// Decoding the big-endian encoding of a 32-bit value gives the value back.
pub proof fn lemma_be32_round_trip(x: u32)
    ensures
        be32_at(be32_bytes(x), 0) == x,
{
    assert(((x >> 24) as u8 as u64) * 0x100_0000 + (((x >> 16) & 0xff) as u8 as u64) * 0x1_0000 + ((
    (x >> 8) & 0xff) as u8 as u64) * 0x100 + ((x & 0xff) as u8 as u64) == x as u64)
        by (bit_vector);
}

/// Reads the big-endian 32-bit value at offset `i` of `b`.
pub fn read_be32(b: &[u8], i: usize) -> (r: u32)
    requires
        i + 4 <= b@.len(),
    ensures
        r == be32_at(b@, i as int),
{
    (b[i] as u32) * 0x100_0000 + (b[i + 1] as u32) * 0x1_0000 + (b[i + 2] as u32) * 0x100 + (b[i
        + 3] as u32)
}

/// Reads the big-endian 64-bit value at offset `i` of `b`.
pub fn read_be64(b: &[u8], i: usize) -> (r: u64)
    requires
        i + 8 <= b@.len(),
    ensures
        r == be64_at(b@, i as int),
{
    proof {
        vstd::slice::axiom_spec_len(b);
    }
    (read_be32(b, i) as u64) * 0x1_0000_0000 + (read_be32(b, i + 4) as u64)
}

} // verus!
