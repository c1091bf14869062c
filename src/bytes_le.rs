//! Little-endian integer fields inside byte buffers.

use vstd::prelude::*;

verus! {

/// The value of the little-endian `u16` stored at `b[i..i + 2]`.
pub open spec fn le_u16(b: Seq<u8>, i: int) -> int {
    b[i] as int + 256 * (b[i + 1] as int)
}

/// The value of the little-endian `u32` stored at `b[i..i + 4]`.
pub open spec fn le_u32(b: Seq<u8>, i: int) -> int {
    le_u16(b, i) + 65536 * le_u16(b, i + 2)
}

/// The value of the little-endian `u64` stored at `b[i..i + 8]`.
pub open spec fn le_u64(b: Seq<u8>, i: int) -> int {
    le_u32(b, i) + 4294967296 * le_u32(b, i + 4)
}

/// The four little-endian bytes of `x`.
pub open spec fn u32_le(x: int) -> Seq<u8> {
    seq![
        (x % 256) as u8,
        (x / 256 % 256) as u8,
        (x / 65536 % 256) as u8,
        (x / 16777216 % 256) as u8,
    ]
}

/// The two little-endian bytes of `x`.
pub open spec fn u16_le(x: int) -> Seq<u8> {
    seq![(x % 256) as u8, (x / 256 % 256) as u8]
}

/// Reads the little-endian `u16` at `b[i..i + 2]`.
pub fn read_u16_le(b: &[u8], i: usize) -> (r: u16)
    requires
        i + 2 <= b.len(),
    ensures
        r as int == le_u16(b@, i as int),
{
    b[i] as u16 + 256 * (b[i + 1] as u16)
}

/// Reads the little-endian `u32` at `b[i..i + 4]`.
pub fn read_u32_le(b: &[u8], i: usize) -> (r: u32)
    requires
        i + 4 <= b.len(),
    ensures
        r as int == le_u32(b@, i as int),
{
    b[i] as u32 + 256 * (b[i + 1] as u32) + 65536 * (b[i + 2] as u32) + 16777216 * (
    b[i + 3] as u32)
}

/// Reads the little-endian `u64` at `b[i..i + 8]`.
pub fn read_u64_le(b: &[u8], i: usize) -> (r: u64)
    requires
        i + 8 <= b.len(),
    ensures
        r as int == le_u64(b@, i as int),
{
    let lo = read_u32_le(b, i) as u64;
    let hi = read_u32_le(b, i + 4) as u64;
    lo + 4294967296 * hi
}

/// Appends the four little-endian bytes of `x`.
pub fn push_u32_le(out: &mut Vec<u8>, x: u32)
    ensures
        final(out)@ == old(out)@ + u32_le(x as int),
{
    out.push((x % 256) as u8);
    out.push((x / 256 % 256) as u8);
    out.push((x / 65536 % 256) as u8);
    out.push((x / 16777216 % 256) as u8);
    assert(final(out)@ =~= old(out)@ + u32_le(x as int));
}

/// Appends the two little-endian bytes of `x`.
pub fn push_u16_le(out: &mut Vec<u8>, x: u16)
    ensures
        final(out)@ == old(out)@ + u16_le(x as int),
{
    out.push((x % 256) as u8);
    out.push((x / 256 % 256) as u8);
    assert(final(out)@ =~= old(out)@ + u16_le(x as int));
}

/// Appends the bytes of `b`.
pub fn push_bytes(out: &mut Vec<u8>, b: &[u8])
    ensures
        final(out)@ == old(out)@ + b@,
{
    let mut i: usize = 0;
    while i < b.len()
        invariant
            i <= b@.len(),
            out@ == old(out)@ + b@.take(i as int),
        decreases b@.len() - i,
    {
        out.push(b[i]);
        i = i + 1;
        assert(out@ =~= old(out)@ + b@.take(i as int));
    }
    assert(b@.take(i as int) =~= b@);
}

/// Reading back the bytes of a `u32` gives the value.
pub proof fn lemma_u32_le_read(x: int)
    requires
        0 <= x < 0x1_0000_0000,
    ensures
        le_u32(u32_le(x), 0) == x,
{
    let s = u32_le(x);
    assert(s[0] as int == x % 256);
    assert(s[1] as int == x / 256 % 256);
    assert(s[2] as int == x / 65536 % 256);
    assert(s[3] as int == x / 16777216 % 256);
    assert(x % 256 + 256 * (x / 256 % 256) + 65536 * (x / 65536 % 256) + 16777216 * (x
        / 16777216 % 256) == x) by (nonlinear_arith)
        requires
            0 <= x < 0x1_0000_0000,
    ;
}

} // verus!
