use vstd::prelude::*;

verus! {

/// Byte `j` (0 = least significant) of `w`.
pub open spec fn le_byte(w: u64, j: int) -> u8 {
    ((w >> ((8 * j) as u64)) & 0xffu64) as u8
}

/// The eight little-endian bytes of `w`.
pub open spec fn u64_le(w: u64) -> Seq<u8> {
    Seq::new(8, |j: int| le_byte(w, j))
}

/// The four little-endian bytes of `v`.
pub open spec fn u32_le(v: u32) -> Seq<u8> {
    Seq::new(4, |j: int| ((v >> ((8 * j) as u32)) & 0xffu32) as u8)
}

/// The blocks `ws`, eight little-endian bytes each, in order.
pub open spec fn words_le(ws: Seq<u64>) -> Seq<u8> {
    Seq::new(ws.len() * 8, |i: int| le_byte(ws[i / 8], i % 8))
}

/// The value of the first eight bytes of `b`, read little-endian.
pub open spec fn u64_of_le(b: Seq<u8>) -> u64 {
    (b[0] as u64) | ((b[1] as u64) << 8u64) | ((b[2] as u64) << 16u64) | ((b[3] as u64) << 24u64)
        | ((b[4] as u64) << 32u64) | ((b[5] as u64) << 40u64) | ((b[6] as u64) << 48u64) | ((
    b[7] as u64) << 56u64)
}

/// The value of the first four bytes of `b`, read little-endian.
pub open spec fn u32_of_le(b: Seq<u8>) -> u32 {
    (b[0] as u32) | ((b[1] as u32) << 8u32) | ((b[2] as u32) << 16u32) | ((b[3] as u32) << 24u32)
}

/// Reading back the bytes of a `u64` gives the `u64`.
pub proof fn lemma_u64_le_round_trip(w: u64)
    ensures
        u64_of_le(u64_le(w)) == w,
{
    let b = u64_le(w);
    assert(b[0] == ((w >> 0u64) & 0xffu64) as u8);
    assert(b[1] == ((w >> 8u64) & 0xffu64) as u8);
    assert(b[2] == ((w >> 16u64) & 0xffu64) as u8);
    assert(b[3] == ((w >> 24u64) & 0xffu64) as u8);
    assert(b[4] == ((w >> 32u64) & 0xffu64) as u8);
    assert(b[5] == ((w >> 40u64) & 0xffu64) as u8);
    assert(b[6] == ((w >> 48u64) & 0xffu64) as u8);
    assert(b[7] == ((w >> 56u64) & 0xffu64) as u8);
    assert((((w >> 0u64) & 0xffu64) as u8 as u64) | ((((w >> 8u64) & 0xffu64) as u8 as u64) << 8u64)
        | ((((w >> 16u64) & 0xffu64) as u8 as u64) << 16u64) | ((((w >> 24u64) & 0xffu64) as u8
        as u64) << 24u64) | ((((w >> 32u64) & 0xffu64) as u8 as u64) << 32u64) | ((((w >> 40u64)
        & 0xffu64) as u8 as u64) << 40u64) | ((((w >> 48u64) & 0xffu64) as u8 as u64) << 48u64)
        | ((((w >> 56u64) & 0xffu64) as u8 as u64) << 56u64) == w) by (bit_vector);
}

/// Reading back the bytes of a `u32` gives the `u32`.
pub proof fn lemma_u32_le_round_trip(v: u32)
    ensures
        u32_of_le(u32_le(v)) == v,
{
    let b = u32_le(v);
    assert(b[0] == ((v >> 0u32) & 0xffu32) as u8);
    assert(b[1] == ((v >> 8u32) & 0xffu32) as u8);
    assert(b[2] == ((v >> 16u32) & 0xffu32) as u8);
    assert(b[3] == ((v >> 24u32) & 0xffu32) as u8);
    assert((((v >> 0u32) & 0xffu32) as u8 as u32) | ((((v >> 8u32) & 0xffu32) as u8 as u32) << 8u32)
        | ((((v >> 16u32) & 0xffu32) as u8 as u32) << 16u32) | ((((v >> 24u32) & 0xffu32) as u8
        as u32) << 24u32) == v) by (bit_vector);
}

/// Appends the eight little-endian bytes of `w`.
pub fn push_u64_le(out: &mut Vec<u8>, w: u64)
    ensures
        final(out)@ == old(out)@ + u64_le(w),
{
    let ghost pre = out@;
    let mut j: u64 = 0;
    while j < 8
        invariant
            j <= 8,
            out@ == pre + Seq::new(j as nat, |t: int| le_byte(w, t)),
        decreases 8 - j,
    {
        let b = ((w >> (8 * j)) & 0xffu64) as u8;
        out.push(b);
        assert(out@ =~= pre + Seq::new((j + 1) as nat, |t: int| le_byte(w, t)));
        j += 1;
    }
    assert(out@ =~= pre + u64_le(w));
}

/// Appends the four little-endian bytes of `v`.
pub fn push_u32_le(out: &mut Vec<u8>, v: u32)
    ensures
        final(out)@ == old(out)@ + u32_le(v),
{
    let ghost pre = out@;
    let mut j: u32 = 0;
    while j < 4
        invariant
            j <= 4,
            out@ == pre + Seq::new(j as nat, |t: int| ((v >> ((8 * t) as u32)) & 0xffu32) as u8),
        decreases 4 - j,
    {
        let b = ((v >> (8 * j)) & 0xffu32) as u8;
        out.push(b);
        assert(out@ =~= pre + Seq::new(
            (j + 1) as nat,
            |t: int| ((v >> ((8 * t) as u32)) & 0xffu32) as u8,
        ));
        j += 1;
    }
    assert(out@ =~= pre + u32_le(v));
}

/// The `u64` held little-endian in `data[off..off + 8]`.
pub fn read_u64_le(data: &[u8], off: usize) -> (r: u64)
    requires
        off + 8 <= data@.len(),
    ensures
        r == u64_of_le(data@.subrange(off as int, off + 8)),
{
    (data[off] as u64) | ((data[off + 1] as u64) << 8u64) | ((data[off + 2] as u64) << 16u64) | ((
    data[off + 3] as u64) << 24u64) | ((data[off + 4] as u64) << 32u64) | ((data[off + 5] as u64)
        << 40u64) | ((data[off + 6] as u64) << 48u64) | ((data[off + 7] as u64) << 56u64)
}

/// The `u32` held little-endian in `data[off..off + 4]`.
pub fn read_u32_le(data: &[u8], off: usize) -> (r: u32)
    requires
        off + 4 <= data@.len(),
    ensures
        r == u32_of_le(data@.subrange(off as int, off + 4)),
{
    (data[off] as u32) | ((data[off + 1] as u32) << 8u32) | ((data[off + 2] as u32) << 16u32) | ((
    data[off + 3] as u32) << 24u32)
}

} // verus!
