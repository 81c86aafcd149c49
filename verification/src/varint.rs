//! Unsigned little-endian base-128 integers.

use vstd::prelude::*;

verus! {

/// The LEB128 bytes of `v`: seven value bits per byte, least significant
/// group first, the high bit set on every byte but the last.
pub open spec fn varint_encoding(v: u64) -> Seq<u8>
    decreases v,
{
    if v < 128 {
        seq![v as u8]
    } else {
        seq![(v % 128 + 128) as u8] + varint_encoding(v / 128)
    }
}

/// Some byte at or after `pos` has its high bit clear.
pub open spec fn varint_terminated(buf: Seq<u8>, pos: int) -> bool
    decreases buf.len() - pos,
{
    0 <= pos < buf.len() && (buf[pos] < 128 || varint_terminated(buf, pos + 1))
}

/// The number of bytes from `pos` up to and including the first byte with
/// its high bit clear (the bytes left in `buf` where there is none).
pub open spec fn varint_len(buf: Seq<u8>, pos: int) -> int
    decreases buf.len() - pos,
{
    if pos < 0 || pos >= buf.len() {
        0
    } else if buf[pos] < 128 {
        1
    } else {
        1 + varint_len(buf, pos + 1)
    }
}

/// The integer that the bytes from `pos` on spell, without any bound.
pub open spec fn varint_value(buf: Seq<u8>, pos: int) -> int
    decreases buf.len() - pos,
{
    if pos < 0 || pos >= buf.len() {
        0
    } else if buf[pos] < 128 {
        buf[pos] as int
    } else {
        (buf[pos] - 128) + 128 * varint_value(buf, pos + 1)
    }
}

/// A complete varint that fits 64 bits starts at `pos`: it ends inside
/// `buf`, has at most ten bytes, and a tenth byte is 0 or 1.
pub open spec fn varint_valid(buf: Seq<u8>, pos: int) -> bool {
    &&& varint_terminated(buf, pos)
    &&& varint_len(buf, pos) <= 10
    &&& (varint_len(buf, pos) == 10 ==> buf[pos + 9] <= 1)
}

/// 128 to the power `n`.
pub open spec fn pow128(n: nat) -> int
    decreases n,
{
    if n == 0 {
        1
    } else {
        128 * pow128((n - 1) as nat)
    }
}

/// `varinteger::encode_with_offset`: writes the LEB128 bytes of `value`
/// into `buf` from `offset` on, leaves every other byte as it was, and
/// returns how many bytes it wrote. It indexes past the end where the
/// bytes do not fit, so the caller must have made room.
#[verifier::external_body]
fn encode_with_offset(value: u64, buf: &mut Vec<u8>, offset: usize) -> (n: usize)
    requires
        offset + varint_encoding(value).len() <= old(buf)@.len(),
    ensures
        n == varint_encoding(value).len(),
        final(buf)@.len() == old(buf)@.len(),
        final(buf)@.subrange(offset as int, offset + n) == varint_encoding(value),
        forall|i: int|
            0 <= i < old(buf)@.len() && !(offset <= i < offset + n) ==> final(buf)@[i] == old(
                buf,
            )@[i],
{
    varinteger::encode_with_offset(value, buf, offset)
}

/// `varinteger::decode_with_offset`: reads bytes from `offset` up to the
/// first one with its high bit clear, adds up their low seven bits by
/// position, and returns the sum with the number of bytes read. Its sum
/// overflows past ten bytes or a tenth byte above 1, and it indexes past
/// the end of an unterminated buffer: both are left out.
#[verifier::external_body]
fn decode_with_offset(buf: &[u8], offset: usize) -> (r: (u64, usize))
    requires
        varint_valid(buf@, offset as int),
    ensures
        r.0 == varint_value(buf@, offset as int),
        r.1 == varint_len(buf@, offset as int),
{
    let mut value = 0u64;
    let n = varinteger::decode_with_offset(buf, offset, &mut value);
    (value, n)
}

/// The encoding is one to ten bytes long; every byte but the last has its
/// high bit set, the last has not, and a tenth byte is 1.
pub proof fn lemma_encoding_shape(v: u64)
    ensures
        1 <= varint_encoding(v).len() <= 10,
        varint_encoding(v).last() < 128,
        forall|i: int| 0 <= i < varint_encoding(v).len() - 1 ==> varint_encoding(v)[i] >= 128,
        varint_encoding(v).len() == 10 ==> varint_encoding(v)[9] <= 1,
{
    lemma_encoding_bytes(v);
    assert(pow128(10) == 0x40_0000_0000_0000_0000) by {
        reveal_with_fuel(pow128, 11);
    }
    lemma_encoding_len_bound(v, 10);
    if varint_encoding(v).len() == 10 {
        assert(pow128(9) == 0x8000_0000_0000_0000) by {
            reveal_with_fuel(pow128, 10);
        }
        lemma_encoding_last_digit(v);
        let last = varint_encoding(v)[9] as int;
        assert(last <= 1) by (nonlinear_arith)
            requires
                last * 0x8000_0000_0000_0000 <= v,
                v <= 0xffff_ffff_ffff_ffff,
                0 <= last,
        ;
    }
}

proof fn lemma_encoding_bytes(v: u64)
    ensures
        1 <= varint_encoding(v).len(),
        varint_encoding(v).last() < 128,
        forall|i: int| 0 <= i < varint_encoding(v).len() - 1 ==> varint_encoding(v)[i] >= 128,
    decreases v,
{
    if v >= 128 {
        lemma_encoding_bytes(v / 128);
        let head = seq![(v % 128 + 128) as u8];
        let tail = varint_encoding(v / 128);
        assert(varint_encoding(v) == head + tail);
        assert forall|i: int| 0 <= i < varint_encoding(v).len() - 1 implies varint_encoding(v)[i]
            >= 128 by {
            if i > 0 {
                assert(varint_encoding(v)[i] == tail[i - 1]);
            }
        }
        assert(varint_encoding(v).last() == tail.last());
    }
}

proof fn lemma_encoding_len_bound(v: u64, k: nat)
    requires
        k >= 1,
        v < pow128(k),
    ensures
        varint_encoding(v).len() <= k,
    decreases v,
{
    if v >= 128 {
        assert(pow128(1) == 128) by {
            reveal_with_fuel(pow128, 2);
        }
        assert(k >= 2);
        assert(pow128(k) == 128 * pow128((k - 1) as nat));
        lemma_encoding_len_bound(v / 128, (k - 1) as nat);
    }
}

proof fn lemma_encoding_last_digit(v: u64)
    ensures
        varint_encoding(v).last() * pow128((varint_encoding(v).len() - 1) as nat) <= v,
    decreases v,
{
    lemma_encoding_bytes(v);
    if v >= 128 {
        lemma_encoding_bytes(v / 128);
        lemma_encoding_last_digit(v / 128);
        let tail = varint_encoding(v / 128);
        assert(varint_encoding(v) == seq![(v % 128 + 128) as u8] + tail);
        assert(varint_encoding(v).last() == tail.last());
        let last = tail.last() as int;
        let p = pow128((tail.len() - 1) as nat);
        assert(pow128(tail.len()) == 128 * p);
        assert(last * (128 * p) <= v) by (nonlinear_arith)
            requires
                last * p <= v / 128,
                0 <= v,
        ;
    } else {
        assert(pow128(0) == 1);
    }
}

/// Where every byte of `buf` from `pos` up to `i` has its high bit set, a
/// varint at `pos` is one at `i` with `i - pos` bytes in front.
pub proof fn lemma_skip_continuation(buf: Seq<u8>, pos: int, i: int)
    requires
        0 <= pos <= i <= buf.len(),
        forall|j: int| pos <= j < i ==> buf[j] >= 128,
    ensures
        varint_terminated(buf, pos) == varint_terminated(buf, i),
        varint_len(buf, pos) == (i - pos) + varint_len(buf, i),
        varint_len(buf, i) >= 0,
    decreases i - pos,
{
    if pos < i {
        lemma_skip_continuation(buf, pos + 1, i);
    } else {
        lemma_len_nonnegative(buf, i);
    }
}

proof fn lemma_len_nonnegative(buf: Seq<u8>, pos: int)
    ensures
        varint_len(buf, pos) >= 0,
    decreases buf.len() - pos,
{
    if 0 <= pos < buf.len() && buf[pos] >= 128 {
        lemma_len_nonnegative(buf, pos + 1);
    }
}

/// Reading back what was written: where the bytes of `buf` from `pos` on
/// begin with the encoding of `v`, a valid varint of that length and value
/// stands at `pos`.
pub proof fn lemma_decode_encoded(buf: Seq<u8>, pos: int, v: u64)
    requires
        0 <= pos,
        pos + varint_encoding(v).len() <= buf.len(),
        buf.subrange(pos, pos + varint_encoding(v).len()) == varint_encoding(v),
    ensures
        varint_valid(buf, pos),
        varint_len(buf, pos) == varint_encoding(v).len(),
        varint_value(buf, pos) == v,
{
    lemma_decode_encoded_rec(buf, pos, v);
    lemma_encoding_shape(v);
    let n = varint_encoding(v).len() as int;
    if n == 10 {
        assert(buf[pos + 9] == buf.subrange(pos, pos + n)[9]);
    }
}

proof fn lemma_decode_encoded_rec(buf: Seq<u8>, pos: int, v: u64)
    requires
        0 <= pos,
        pos + varint_encoding(v).len() <= buf.len(),
        buf.subrange(pos, pos + varint_encoding(v).len()) == varint_encoding(v),
    ensures
        varint_terminated(buf, pos),
        varint_len(buf, pos) == varint_encoding(v).len(),
        varint_value(buf, pos) == v,
    decreases v,
{
    let enc = varint_encoding(v);
    let n = enc.len() as int;
    lemma_encoding_bytes(v);
    assert(buf[pos] == buf.subrange(pos, pos + n)[0]);
    if v >= 128 {
        let tail = varint_encoding(v / 128);
        assert(enc == seq![(v % 128 + 128) as u8] + tail);
        assert(buf.subrange(pos + 1, pos + 1 + tail.len()) == tail) by {
            assert forall|i: int| 0 <= i < tail.len() implies buf.subrange(
                pos + 1,
                pos + 1 + tail.len(),
            )[i] == tail[i] by {
                assert(buf.subrange(pos, pos + n)[i + 1] == enc[i + 1]);
            }
        }
        lemma_decode_encoded_rec(buf, pos + 1, v / 128);
        assert(buf[pos] == (v % 128 + 128) as u8);
    }
}

/// Reads the varint at `pos`: its value and its length in bytes, or
/// `None` where no valid varint starts there.
pub fn read_varint(buf: &[u8], pos: usize) -> (r: Option<(u64, usize)>)
    ensures
        r is Some <==> varint_valid(buf@, pos as int),
        r matches Some((value, n)) ==> {
            &&& value == varint_value(buf@, pos as int)
            &&& n == varint_len(buf@, pos as int)
            &&& 1 <= n <= 10
            &&& pos + n <= buf@.len()
        },
{
    let mut i: usize = pos;
    let mut count: usize = 0;
    while i < buf.len() && count < 10
        invariant
            pos <= i <= buf@.len() || (i == pos && count == 0),
            count <= 10,
            i == pos + count,
            forall|j: int| pos <= j < i ==> buf@[j] >= 128,
        decreases 10 - count,
    {
        if buf[i] < 128 {
            proof {
                lemma_skip_continuation(buf@, pos as int, i as int);
            }
            if count == 9 && buf[i] > 1 {
                return None;
            }
            let r = decode_with_offset(buf, pos);
            return Some(r);
        }
        i = i + 1;
        count = count + 1;
    }
    proof {
        if pos <= buf@.len() {
            lemma_skip_continuation(buf@, pos as int, i as int);
        }
    }
    None
}

/// Appends the encoding of `value` to `out`.
pub fn write_varint(out: &mut Vec<u8>, value: u64)
    ensures
        final(out)@ == old(out)@ + varint_encoding(value),
{
    proof {
        lemma_encoding_shape(value);
    }
    let mut scratch: Vec<u8> = Vec::new();
    let mut k: usize = 0;
    while k < 10
        invariant
            k <= 10,
            scratch@.len() == k,
        decreases 10 - k,
    {
        scratch.push(0u8);
        k = k + 1;
    }
    let n = encode_with_offset(value, &mut scratch, 0);
    let ghost before = out@;
    let mut i: usize = 0;
    while i < n
        invariant
            i <= n <= scratch@.len(),
            n == varint_encoding(value).len(),
            scratch@.subrange(0, n as int) == varint_encoding(value),
            out@ == before + varint_encoding(value).subrange(0, i as int),
        decreases n - i,
    {
        assert(scratch@.subrange(0, n as int)[i as int] == scratch@[i as int]);
        out.push(scratch[i]);
        i = i + 1;
        assert(out@ == before + varint_encoding(value).subrange(0, i as int));
    }
    assert(varint_encoding(value).subrange(0, n as int) == varint_encoding(value));
}

} // verus!
