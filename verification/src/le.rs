//! Little-endian 32-bit integers, as the format frames its lengths and
//! counts.

use vstd::prelude::*;

verus! {

/// The four bytes of `v`, least significant first.
pub open spec fn le_i32(v: i32) -> Seq<u8> {
    let u = v as u32;
    seq![
        (u % 256) as u8,
        ((u / 256) % 256) as u8,
        ((u / 65536) % 256) as u8,
        (u / 16777216) as u8,
    ]
}

/// The integer whose four bytes stand in `buf` at `pos`.
pub open spec fn i32_at(buf: Seq<u8>, pos: int) -> i32 {
    ((buf[pos] as u32) + 256 * (buf[pos + 1] as u32) + 65536 * (buf[pos + 2] as u32) + 16777216 * (
    buf[pos + 3] as u32)) as u32 as i32
}

/// Reading back the bytes of `v` gives `v`.
pub proof fn lemma_i32_roundtrip(buf: Seq<u8>, pos: int, v: i32)
    requires
        0 <= pos,
        pos + 4 <= buf.len(),
        buf.subrange(pos, pos + 4) == le_i32(v),
    ensures
        i32_at(buf, pos) == v,
{
    let u = v as u32;
    let b = le_i32(v);
    assert(buf[pos] == buf.subrange(pos, pos + 4)[0]);
    assert(buf[pos + 1] == buf.subrange(pos, pos + 4)[1]);
    assert(buf[pos + 2] == buf.subrange(pos, pos + 4)[2]);
    assert(buf[pos + 3] == buf.subrange(pos, pos + 4)[3]);
    assert((u % 256) + 256 * ((u / 256) % 256) + 65536 * ((u / 65536) % 256) + 16777216 * (u
        / 16777216) == u);
    assert(u as i32 == v) by (bit_vector)
        requires
            u == v as u32,
    ;
}

/// Appends the four bytes of `v` to `out`.
pub fn push_i32_le(out: &mut Vec<u8>, v: i32)
    ensures
        final(out)@ == old(out)@ + le_i32(v),
{
    let u = v as u32;
    out.push((u % 256) as u8);
    out.push(((u / 256) % 256) as u8);
    out.push(((u / 65536) % 256) as u8);
    out.push((u / 16777216) as u8);
    assert(out@ == old(out)@ + le_i32(v));
}

/// Reads the integer whose four bytes stand in `buf` at `pos`.
pub fn read_i32_le(buf: &[u8], pos: usize) -> (v: i32)
    requires
        pos + 4 <= buf@.len(),
    ensures
        v == i32_at(buf@, pos as int),
{
    let u: u32 = (buf[pos] as u32) + 256 * (buf[pos + 1] as u32) + 65536 * (buf[pos + 2] as u32)
        + 16777216 * (buf[pos + 3] as u32);
    u as i32
}

/// Appends `bytes` to `out`.
pub fn append_bytes(out: &mut Vec<u8>, bytes: &[u8])
    ensures
        final(out)@ == old(out)@ + bytes@,
{
    let ghost before = out@;
    let mut i: usize = 0;
    while i < bytes.len()
        invariant
            i <= bytes@.len(),
            out@ == before + bytes@.subrange(0, i as int),
        decreases bytes@.len() - i,
    {
        out.push(bytes[i]);
        i = i + 1;
        assert(out@ == before + bytes@.subrange(0, i as int));
    }
    assert(bytes@.subrange(0, bytes@.len() as int) == bytes@);
}

/// A copy of the bytes of `buf` from `from` up to `to`.
pub fn copy_range(buf: &[u8], from: usize, to: usize) -> (r: Vec<u8>)
    requires
        from <= to <= buf@.len(),
    ensures
        r@ == buf@.subrange(from as int, to as int),
{
    let mut r: Vec<u8> = Vec::new();
    let mut i: usize = from;
    while i < to
        invariant
            from <= i <= to <= buf@.len(),
            r@ == buf@.subrange(from as int, i as int),
        decreases to - i,
    {
        r.push(buf[i]);
        i = i + 1;
        assert(r@ == buf@.subrange(from as int, i as int));
    }
    r
}

} // verus!
