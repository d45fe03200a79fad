//! Little-endian integer reads from byte buffers. All on-disk structures
//! are decoded through these, never by reinterpreting memory.

use vstd::prelude::*;

verus! {

/// The 16-bit little-endian integer stored at offset `i` of `b`.
pub open spec fn spec_le16(b: Seq<u8>, i: int) -> u16
    recommends
        0 <= i,
        i + 2 <= b.len(),
{
    (b[i] + b[i + 1] * 0x100) as u16
}

/// The 32-bit little-endian integer stored at offset `i` of `b`.
pub open spec fn spec_le32(b: Seq<u8>, i: int) -> u32
    recommends
        0 <= i,
        i + 4 <= b.len(),
{
    (b[i] + b[i + 1] * 0x100 + b[i + 2] * 0x10000 + b[i + 3] * 0x1000000) as u32
}

/// Copies `count` bytes of `src`, starting at `from`, into a fresh
/// vector.
pub fn copy_bytes(src: &Vec<u8>, from: usize, count: usize) -> (r: Vec<u8>)
    requires
        from + count <= src@.len(),
    ensures
        r@ == src@.subrange(from as int, from + count),
{
    let n = src.len();
    let mut out: Vec<u8> = Vec::new();
    let mut j: usize = 0;
    while j < count
        invariant
            0 <= j <= count,
            from + count <= n,
            n == src@.len(),
            out@ == src@.subrange(from as int, from + j),
        decreases count - j,
    {
        out.push(src[from + j]);
        proof {
            assert(src@.subrange(from as int, from + j + 1) == src@.subrange(
                from as int,
                from + j,
            ).push(src@[from + j]));
        }
        j = j + 1;
    }
    out
}

/// Reads the 16-bit little-endian integer at offset `i` of `b`.
pub fn read_le16(b: &Vec<u8>, i: usize) -> (r: u16)
    requires
        i + 2 <= b@.len(),
    ensures
        r == spec_le16(b@, i as int),
{
    // Materializes the vector length so the index sums are visibly in
    // bounds.
    let n = b.len();
    (b[i] as u16) + (b[i + 1] as u16) * 0x100
}

/// Reads the 32-bit little-endian integer at offset `i` of `b`.
pub fn read_le32(b: &Vec<u8>, i: usize) -> (r: u32)
    requires
        i + 4 <= b@.len(),
    ensures
        r == spec_le32(b@, i as int),
{
    // Materializes the vector length so the index sums are visibly in
    // bounds.
    let n = b.len();
    (b[i] as u32) + (b[i + 1] as u32) * 0x100 + (b[i + 2] as u32) * 0x10000 + (b[i + 3] as u32)
        * 0x1000000
}

} // verus!
