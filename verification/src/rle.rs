//! Run-length coding of zeros over a sequence of `u64`, every number
//! written as a varint: a value other than zero stands for itself, a
//! maximal run of `k` zeros is a zero followed by `k - 1`.

use crate::error::Error;
use crate::varint::{lemma_decode_encoded, read_varint, varint_encoding, varint_len, varint_valid, varint_value, write_varint};
use vstd::prelude::*;

verus! {

/// `n` zeros.
pub open spec fn zeros(n: nat) -> Seq<u64> {
    Seq::new(n, |i: int| 0u64)
}

/// The bytes for a run of `z` zeros: nothing for an empty run, else the
/// marker 0 and `z - 1`.
pub open spec fn zero_run(z: nat) -> Seq<u8> {
    if z == 0 {
        Seq::empty()
    } else {
        varint_encoding(0) + varint_encoding((z - 1) as u64)
    }
}

/// The bytes for `z` zeros followed by `s`.
pub open spec fn rle_encode_from(s: Seq<u64>, z: nat) -> Seq<u8>
    decreases s.len(),
{
    if s.len() == 0 {
        zero_run(z)
    } else if s[0] == 0 {
        rle_encode_from(s.drop_first(), z + 1)
    } else {
        zero_run(z) + varint_encoding(s[0]) + rle_encode_from(s.drop_first(), 0)
    }
}

/// The run-length coding of `s`.
pub open spec fn rle_encoding(s: Seq<u64>) -> Seq<u8> {
    rle_encode_from(s, 0)
}

/// Reads `n` values from `buf` at `pos`, the first `pending` of them zeros
/// that a marker has announced: the values, the position after the last
/// byte read, and the number of zeros that were announced beyond the
/// `n`-th value; or `None` where a varint is missing or malformed.
pub open spec fn rle_decode_from(buf: Seq<u8>, pos: int, n: nat, pending: nat) -> Option<
    (Seq<u64>, int, nat),
>
    decreases n,
{
    if n == 0 {
        Some((Seq::empty(), pos, pending))
    } else if pending > 0 {
        prepend(0, rle_decode_from(buf, pos, (n - 1) as nat, (pending - 1) as nat))
    } else if !varint_valid(buf, pos) {
        None
    } else {
        let v = varint_value(buf, pos) as u64;
        let p1 = pos + varint_len(buf, pos);
        if v != 0 {
            prepend(v, rle_decode_from(buf, p1, (n - 1) as nat, 0))
        } else if !varint_valid(buf, p1) {
            None
        } else {
            let run = varint_value(buf, p1) as nat;
            let p2 = p1 + varint_len(buf, p1);
            prepend(0, rle_decode_from(buf, p2, (n - 1) as nat, run))
        }
    }
}

/// `v` in front of the values of `rest`.
pub open spec fn prepend(v: u64, rest: Option<(Seq<u64>, int, nat)>) -> Option<
    (Seq<u64>, int, nat),
> {
    match rest {
        Some((s, end, left)) => Some((seq![v] + s, end, left)),
        None => None,
    }
}

/// `front` in front of the values of `rest`.
pub open spec fn prepend_all(front: Seq<u64>, rest: Option<(Seq<u64>, int, nat)>) -> Option<
    (Seq<u64>, int, nat),
> {
    match rest {
        Some((s, end, left)) => Some((front + s, end, left)),
        None => None,
    }
}

/// Encodes `values`.
pub fn rle_encode(values: &Vec<u64>) -> (out: Vec<u8>)
    ensures
        out@ == rle_encoding(values@),
{
    let mut out: Vec<u8> = Vec::new();
    let mut run: usize = 0;
    let mut i: usize = 0;
    assert(values@.skip(0) == values@);
    assert(out@ + rle_encoding(values@) == rle_encoding(values@));
    while i < values.len()
        invariant
            i <= values@.len(),
            run <= i,
            rle_encoding(values@) == out@ + rle_encode_from(values@.skip(i as int), run as nat),
        decreases values@.len() - i,
    {
        let v = values[i];
        let ghost rest = values@.skip(i as int);
        assert(rest[0] == v);
        assert(rest.drop_first() == values@.skip(i + 1));
        if v != 0 {
            if run > 0 {
                write_varint(&mut out, 0);
                write_varint(&mut out, (run - 1) as u64);
                run = 0;
            }
            write_varint(&mut out, v);
        } else {
            run = run + 1;
        }
        i = i + 1;
    }
    assert(values@.skip(i as int).len() == 0);
    if run > 0 {
        write_varint(&mut out, 0);
        write_varint(&mut out, (run - 1) as u64);
    }
    out
}

/// Decodes `count` values from `buf`, starting at `start` and ending at
/// the end of `buf`: `Truncated` where a varint is missing or malformed,
/// `TrailingBytes` where the payload holds more than `count` values: bytes
/// are left after the last value, or a run of zeros goes beyond it.
pub fn rle_decode(buf: &[u8], start: usize, count: usize) -> (r: Result<Vec<u64>, Error>)
    ensures
        match r {
            Ok(v) => rle_decode_from(buf@, start as int, count as nat, 0) == Some(
                (v@, buf@.len() as int, 0nat),
            ),
            Err(Error::Truncated) => rle_decode_from(buf@, start as int, count as nat, 0) is None,
            Err(Error::TrailingBytes) => rle_decode_from(buf@, start as int, count as nat, 0)
                matches Some((_, end, left)) && (end != buf@.len() || left != 0),
            Err(_) => false,
        },
{
    let mut values: Vec<u64> = Vec::new();
    let mut pos: usize = start;
    let mut pending: u64 = 0;
    let mut k: usize = 0;
    let len = buf.len();
    while k < count
        invariant
            k <= count,
            buf@.len() == len,
            values@.len() == k,
            rle_decode_from(buf@, start as int, count as nat, 0) == prepend_all(
                values@,
                rle_decode_from(buf@, pos as int, (count - k) as nat, pending as nat),
            ),
        decreases count - k,
    {
        let ghost before = values@;
        let ghost tail = rle_decode_from(buf@, pos as int, (count - k) as nat, pending as nat);
        if pending > 0 {
            pending = pending - 1;
            values.push(0);
        } else {
            let (v, p1) = match read_varint(buf, pos) {
                Some((v, n)) => (v, pos + n),
                None => {
                    return Err(Error::Truncated);
                },
            };
            if v == 0 {
                match read_varint(buf, p1) {
                    Some((run, n)) => {
                        pending = run;
                        pos = p1 + n;
                    },
                    None => {
                        return Err(Error::Truncated);
                    },
                }
            } else {
                pos = p1;
            }
            values.push(v);
        }
        k = k + 1;
        proof {
            let next = rle_decode_from(buf@, pos as int, (count - k) as nat, pending as nat);
            assert(tail == prepend(values@.last(), next));
            if let Some((rest, _, _)) = next {
                assert(before + (seq![values@.last()] + rest) == values@ + rest);
            }
        }
    }
    assert(values@ + Seq::<u64>::empty() == values@);
    if pos != len || pending != 0 {
        return Err(Error::TrailingBytes);
    }
    Ok(values)
}

/// Decoding gives as many values as asked for.
pub proof fn lemma_decoded_len(buf: Seq<u8>, pos: int, n: nat, pending: nat)
    ensures
        rle_decode_from(buf, pos, n, pending) matches Some((values, _, _)) ==> values.len() == n,
    decreases n,
{
    if n > 0 {
        if pending > 0 {
            lemma_decoded_len(buf, pos, (n - 1) as nat, (pending - 1) as nat);
        } else if varint_valid(buf, pos) {
            let v = varint_value(buf, pos) as u64;
            let p1 = pos + varint_len(buf, pos);
            if v != 0 {
                lemma_decoded_len(buf, p1, (n - 1) as nat, 0);
            } else if varint_valid(buf, p1) {
                let run = varint_value(buf, p1) as nat;
                let p2 = p1 + varint_len(buf, p1);
                lemma_decoded_len(buf, p2, (n - 1) as nat, run);
            }
        }
    }
}

/// Zeros that a marker announced are read back without touching `buf`.
proof fn lemma_decode_pending(buf: Seq<u8>, pos: int, n: nat, pending: nat)
    requires
        n <= pending,
    ensures
        rle_decode_from(buf, pos, n, pending) == Some((zeros(n), pos, (pending - n) as nat)),
    decreases n,
{
    if n > 0 {
        lemma_decode_pending(buf, pos, (n - 1) as nat, (pending - 1) as nat);
        assert(seq![0u64] + zeros((n - 1) as nat) == zeros(n));
    } else {
        assert(zeros(0) == Seq::<u64>::empty());
    }
}

/// Announced zeros come first, then decoding goes on with none pending.
proof fn lemma_decode_pending_then(buf: Seq<u8>, pos: int, n: nat, pending: nat)
    ensures
        rle_decode_from(buf, pos, pending + n, pending) == prepend_all(
            zeros(pending),
            rle_decode_from(buf, pos, n, 0),
        ),
    decreases pending,
{
    let rest = rle_decode_from(buf, pos, n, 0);
    if pending > 0 {
        lemma_decode_pending_then(buf, pos, n, (pending - 1) as nat);
        assert(seq![0u64] + zeros((pending - 1) as nat) == zeros(pending));
        if let Some((s, _, _)) = rest {
            assert(seq![0u64] + (zeros((pending - 1) as nat) + s) == zeros(pending) + s);
        }
    } else {
        assert(zeros(0) == Seq::<u64>::empty());
        if let Some((s, _, _)) = rest {
            assert(zeros(0) + s == s);
        }
    }
}

/// Where `buf` from `pos` on begins with `a + b`, it begins with `a`.
proof fn lemma_prefix_of_concat(buf: Seq<u8>, pos: int, end: int, a: Seq<u8>, b: Seq<u8>)
    requires
        0 <= pos <= end <= buf.len(),
        buf.subrange(pos, end) == a + b,
    ensures
        pos + a.len() + b.len() == end,
        buf.subrange(pos, pos + a.len()) == a,
        buf.subrange(pos + a.len(), end) == b,
{
    let whole = buf.subrange(pos, end);
    assert(whole.len() == a.len() + b.len());
    assert forall|i: int| 0 <= i < a.len() implies buf.subrange(pos, pos + a.len())[i] == a[i] by {
        assert(whole[i] == a[i]);
    }
    assert forall|i: int| 0 <= i < b.len() implies buf.subrange(pos + a.len(), end)[i] == b[i] by {
        assert(whole[a.len() + i] == b[i]);
    }
}

/// The marker and count of a run of `z >= 1` zeros at `pos` are read as a
/// zero followed by `z - 1` announced zeros.
proof fn lemma_decode_run(buf: Seq<u8>, pos: int, end: int, z: nat, rest: Seq<u8>)
    requires
        0 <= pos <= end <= buf.len(),
        1 <= z <= u64::MAX,
        buf.subrange(pos, end) == zero_run(z) + rest,
    ensures
        varint_valid(buf, pos),
        varint_value(buf, pos) == 0,
        varint_valid(buf, pos + varint_len(buf, pos)),
        varint_value(buf, pos + varint_len(buf, pos)) == z - 1,
        pos + zero_run(z).len() == pos + varint_len(buf, pos) + varint_len(
            buf,
            pos + varint_len(buf, pos),
        ),
        pos + zero_run(z).len() <= end,
        buf.subrange(pos + zero_run(z).len(), end) == rest,
{
    let a = varint_encoding(0);
    let b = varint_encoding((z - 1) as u64);
    lemma_prefix_of_concat(buf, pos, end, zero_run(z), rest);
    let mid = pos + zero_run(z).len();
    assert(buf.subrange(pos, mid) == a + b);
    lemma_prefix_of_concat(buf, pos, mid, a, b);
    lemma_decode_encoded(buf, pos, 0);
    lemma_decode_encoded(buf, pos + a.len(), (z - 1) as u64);
}

/// Decoding what was encoded, from any state of the encoder: where `buf`
/// from `pos` to its end holds the bytes for `z` zeros followed by `s`,
/// reading `z + s.len()` values there gives those values, ends at the end
/// of `buf` and leaves no zero over.
pub proof fn lemma_rle_roundtrip_from(buf: Seq<u8>, pos: int, s: Seq<u64>, z: nat)
    requires
        0 <= pos <= buf.len(),
        buf.subrange(pos, buf.len() as int) == rle_encode_from(s, z),
        z + s.len() <= u64::MAX,
    ensures
        rle_decode_from(buf, pos, z + s.len(), 0) == Some(
            (zeros(z) + s, buf.len() as int, 0nat),
        ),
    decreases s.len(),
{
    let end = buf.len() as int;
    let n = z + s.len();
    if s.len() == 0 {
        assert(zeros(z) + s == zeros(z));
        if z == 0 {
            assert(buf.subrange(pos, end).len() == 0);
            assert(zeros(0) == Seq::<u64>::empty());
        } else {
            assert(buf.subrange(pos, end) == zero_run(z) + Seq::<u8>::empty());
            lemma_decode_run(buf, pos, end, z, Seq::empty());
            let p2 = pos + zero_run(z).len();
            lemma_decode_pending(buf, p2, (z - 1) as nat, (z - 1) as nat);
            assert(seq![0u64] + zeros((z - 1) as nat) == zeros(z));
        }
    } else if s[0] == 0 {
        let tail = s.drop_first();
        lemma_rle_roundtrip_from(buf, pos, tail, z + 1);
        assert(zeros(z + 1) + tail == zeros(z) + s) by {
            assert forall|i: int| 0 <= i < z + 1 + tail.len() implies (zeros(z + 1) + tail)[i] == (
            zeros(z) + s)[i] by {
                if i > z {
                    assert(tail[i - z - 1] == s[i - z]);
                }
            }
        }
    } else {
        let tail = s.drop_first();
        let v = s[0];
        let after = varint_encoding(v) + rle_encode_from(tail, 0);
        assert(rle_encode_from(s, z) == zero_run(z) + after);
        // Position of the varint that holds `v`.
        let pv = pos + zero_run(z).len();
        if z == 0 {
            assert(zero_run(0) + after == after);
        } else {
            lemma_decode_run(buf, pos, end, z, after);
        }
        assert(buf.subrange(pv, end) == after);
        lemma_prefix_of_concat(buf, pv, end, varint_encoding(v), rle_encode_from(tail, 0));
        lemma_decode_encoded(buf, pv, v);
        let pt = pv + varint_len(buf, pv);
        lemma_rle_roundtrip_from(buf, pt, tail, 0);
        assert(zeros(0) + tail == tail);
        // From `pv` on: `v`, then `tail`.
        assert(rle_decode_from(buf, pv, 1 + tail.len(), 0) == Some((seq![v] + tail, end, 0nat)));
        assert(seq![v] + tail == s);
        if z == 0 {
            assert(zeros(0) + s == s);
        } else {
            lemma_decode_pending_then(buf, pv, s.len(), (z - 1) as nat);
            assert(seq![0u64] + (zeros((z - 1) as nat) + s) == zeros(z) + s);
        }
    }
}

/// Encoding then decoding gives the sequence back and reads exactly the
/// bytes that were written, wherever in a buffer they end.
pub proof fn lemma_rle_roundtrip(front: Seq<u8>, s: Seq<u64>)
    requires
        s.len() <= u64::MAX,
    ensures
        rle_decode_from(front + rle_encoding(s), front.len() as int, s.len(), 0) == Some(
            (s, (front + rle_encoding(s)).len() as int, 0nat),
        ),
{
    let buf = front + rle_encoding(s);
    assert(buf.subrange(front.len() as int, buf.len() as int) == rle_encoding(s));
    lemma_rle_roundtrip_from(buf, front.len() as int, s, 0);
    assert(zeros(0) + s == s);
}

} // verus!
