//! Big-endian encoding of integers into byte sequences.

use vstd::prelude::*;

verus! {

/// The two bytes of `x`, most significant first.
pub open spec fn be16(x: u16) -> Seq<u8> {
    seq![(x >> 8u16) as u8, x as u8]
}

/// The four bytes of `x`, most significant first.
pub open spec fn be32(x: u32) -> Seq<u8> {
    seq![(x >> 24u32) as u8, (x >> 16u32) as u8, (x >> 8u32) as u8, x as u8]
}

/// The 16-bit big-endian number at `off` in `b`.
pub open spec fn read16(b: Seq<u8>, off: int) -> u16 {
    (((b[off] as u16) << 8u16) | (b[off + 1] as u16)) as u16
}

/// The 32-bit big-endian number at `off` in `b`.
pub open spec fn read32(b: Seq<u8>, off: int) -> u32 {
    (((b[off] as u32) << 24u32) | ((b[off + 1] as u32) << 16u32) | ((b[off + 2] as u32) << 8u32)
        | (b[off + 3] as u32)) as u32
}

/// Reading back the bytes of a 16-bit number gives the number.
pub proof fn lemma_read16_be16(x: u16, b: Seq<u8>, off: int)
    requires
        0 <= off,
        off + 2 <= b.len(),
        b.subrange(off, off + 2) == be16(x),
    ensures
        read16(b, off) == x,
{
    let b0 = b[off];
    let b1 = b[off + 1];
    assert(b0 == b.subrange(off, off + 2)[0]);
    assert(b1 == b.subrange(off, off + 2)[1]);
    assert(b0 == (x >> 8u16) as u8);
    assert(b1 == x as u8);
    assert((((((x >> 8u16) as u8) as u16) << 8u16) | ((x as u8) as u16)) == x) by (bit_vector);
}

/// Reading back the bytes of a 32-bit number gives the number.
pub proof fn lemma_read32_be32(x: u32, b: Seq<u8>, off: int)
    requires
        0 <= off,
        off + 4 <= b.len(),
        b.subrange(off, off + 4) == be32(x),
    ensures
        read32(b, off) == x,
{
    assert(b[off] == b.subrange(off, off + 4)[0]);
    assert(b[off + 1] == b.subrange(off, off + 4)[1]);
    assert(b[off + 2] == b.subrange(off, off + 4)[2]);
    assert(b[off + 3] == b.subrange(off, off + 4)[3]);
    assert((((((x >> 24u32) as u8) as u32) << 24u32) | ((((x >> 16u32) as u8) as u32) << 16u32)
        | ((((x >> 8u32) as u8) as u32) << 8u32) | ((x as u8) as u32)) == x) by (bit_vector);
}

/// The bytes of the number read at `off` are the bytes found there.
pub proof fn lemma_be16_read16(b: Seq<u8>, off: int)
    requires
        0 <= off,
        off + 2 <= b.len(),
    ensures
        be16(read16(b, off)) == b.subrange(off, off + 2),
{
    let b0 = b[off];
    let b1 = b[off + 1];
    let x = read16(b, off);
    assert(x == (((b0 as u16) << 8u16) | (b1 as u16)) as u16);
    assert(((((((b0 as u16) << 8u16) | (b1 as u16)) as u16) >> 8u16) as u8) == b0) by (bit_vector);
    assert((((((b0 as u16) << 8u16) | (b1 as u16)) as u16) as u8) == b1) by (bit_vector);
    assert(be16(x) =~= b.subrange(off, off + 2));
}

/// The bytes of the number read at `off` are the bytes found there.
pub proof fn lemma_be32_read32(b: Seq<u8>, off: int)
    requires
        0 <= off,
        off + 4 <= b.len(),
    ensures
        be32(read32(b, off)) == b.subrange(off, off + 4),
{
    let b0 = b[off];
    let b1 = b[off + 1];
    let b2 = b[off + 2];
    let b3 = b[off + 3];
    let x = read32(b, off);
    assert(x == (((b0 as u32) << 24u32) | ((b1 as u32) << 16u32) | ((b2 as u32) << 8u32) | (b3 as u32)) as u32);
    assert(((((((b0 as u32) << 24u32) | ((b1 as u32) << 16u32) | ((b2 as u32) << 8u32) | (b3 as u32)) as u32) >> 24u32) as u8) == b0) by (bit_vector);
    assert(((((((b0 as u32) << 24u32) | ((b1 as u32) << 16u32) | ((b2 as u32) << 8u32) | (b3 as u32)) as u32) >> 16u32) as u8) == b1) by (bit_vector);
    assert(((((((b0 as u32) << 24u32) | ((b1 as u32) << 16u32) | ((b2 as u32) << 8u32) | (b3 as u32)) as u32) >> 8u32) as u8) == b2) by (bit_vector);
    assert((((((b0 as u32) << 24u32) | ((b1 as u32) << 16u32) | ((b2 as u32) << 8u32) | (b3 as u32)) as u32) as u8) == b3) by (bit_vector);
    assert(be32(x) =~= b.subrange(off, off + 4));
}

/// Appends the two bytes of `x`, most significant first.
pub fn push_be16(buf: &mut Vec<u8>, x: u16)
    ensures
        final(buf)@ == old(buf)@ + be16(x),
{
    buf.push((x >> 8u16) as u8);
    buf.push(x as u8);
    assert(buf@ =~= old(buf)@ + be16(x));
}

/// Appends the four bytes of `x`, most significant first.
pub fn push_be32(buf: &mut Vec<u8>, x: u32)
    ensures
        final(buf)@ == old(buf)@ + be32(x),
{
    buf.push((x >> 24u32) as u8);
    buf.push((x >> 16u32) as u8);
    buf.push((x >> 8u32) as u8);
    buf.push(x as u8);
    assert(buf@ =~= old(buf)@ + be32(x));
}

/// The 16-bit big-endian number at `off`.
pub fn get_be16(b: &[u8], off: usize) -> (x: u16)
    requires
        off + 2 <= b@.len(),
    ensures
        x == read16(b@, off as int),
{
    (((b[off] as u16) << 8u16) | (b[off + 1] as u16)) as u16
}

/// The 32-bit big-endian number at `off`.
pub fn get_be32(b: &[u8], off: usize) -> (x: u32)
    requires
        off + 4 <= b@.len(),
    ensures
        x == read32(b@, off as int),
{
    (((b[off] as u32) << 24u32) | ((b[off + 1] as u32) << 16u32) | ((b[off + 2] as u32) << 8u32)
        | (b[off + 3] as u32)) as u32
}

} // verus!
