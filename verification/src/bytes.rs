//! Little-endian integers read from byte buffers.
use vstd::prelude::*;

verus! {

/// The unsigned little-endian value of `s[off..off + 4]`.
pub open spec fn le_u32_at(s: Seq<u8>, off: int) -> nat {
    s[off] as nat + 0x100 * s[off + 1] as nat + 0x10000 * s[off + 2] as nat + 0x1000000 * s[off + 3] as nat
}

/// The unsigned little-endian value of `s[off..off + 8]`.
pub open spec fn le_u64_at(s: Seq<u8>, off: int) -> nat {
    le_u32_at(s, off) + 0x1_0000_0000 * le_u32_at(s, off + 4)
}

/// The little-endian `u32` stored at `offset`.
pub fn read_int32(data: &[u8], offset: u64) -> (r: u32)
    requires
        offset + 4 <= data@.len(),
    ensures
        r as nat == le_u32_at(data@, offset as int),
{
    let o = offset as usize;
    data[o] as u32 + 0x100 * (data[o + 1] as u32) + 0x10000 * (data[o + 2] as u32) + 0x1000000 * (data[o + 3] as u32)
}

/// The little-endian `u64` stored at `offset`.
pub fn read_u64_le(data: &[u8], offset: u64) -> (r: u64)
    requires
        offset + 8 <= data@.len(),
    ensures
        r as nat == le_u64_at(data@, offset as int),
{
    assert(data@.len() == data.len());
    let lo = read_int32(data, offset) as u64;
    let hi = read_int32(data, offset + 4) as u64;
    lo + 0x1_0000_0000 * hi
}

/// The little-endian `i64` stored at `offset` (two's complement).
pub fn read_int64(data: &[u8], offset: u64) -> (r: i64)
    requires
        offset + 8 <= data@.len(),
    ensures
        r == (le_u64_at(data@, offset as int) as u64) as i64,
{
    read_u64_le(data, offset) as i64
}


/// A copy of `b`.
pub fn copy_bytes(b: &[u8]) -> (r: Vec<u8>)
    ensures
        r@ == b@,
{
    let mut r: Vec<u8> = Vec::new();
    let mut i: usize = 0;
    while i < b.len()
        invariant
            i <= b@.len(),
            r@ == b@.take(i as int),
        decreases b@.len() - i,
    {
        r.push(b[i]);
        proof {
            assert(r@ =~= b@.take(i + 1));
        }
        i = i + 1;
    }
    proof {
        assert(b@.take(i as int) =~= b@);
    }
    r
}

} // verus!
