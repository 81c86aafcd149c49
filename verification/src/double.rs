//! Doubles as metric slots.
//!
//! A double is held as its IEEE 754 bit pattern: one sign bit, eleven
//! exponent bits, 52 fraction bits. A slot holds the double cut down to
//! an unsigned integer, and a double is restored from a slot as the
//! nearest double to that integer. Whole numbers from 0 to 2^53 pass both
//! ways unchanged.

use vstd::arithmetic::div_mod::lemma_div_denominator;
use vstd::arithmetic::power2::{
    lemma2_to64, lemma2_to64_rest, lemma_pow2_adds, lemma_pow2_pos, lemma_pow2_strictly_increases,
    lemma_pow2_unfold, pow2,
};
use vstd::bits::{lemma_u64_shl_is_mul, lemma_u64_shr_is_div};
use vstd::prelude::*;

verus! {

/// 2^52: the weight of the hidden bit of a significand.
pub const HIDDEN_BIT: u64 = 0x10_0000_0000_0000;

/// The sign bit is set.
pub open spec fn double_negative(bits: u64) -> bool {
    bits >= 0x8000_0000_0000_0000
}

/// The biased exponent.
pub open spec fn double_exponent(bits: u64) -> nat {
    ((bits / HIDDEN_BIT) % 2048) as nat
}

/// The fraction bits.
pub open spec fn double_fraction(bits: u64) -> nat {
    (bits % HIDDEN_BIT) as nat
}

/// The double as an unsigned integer: its value `(2^52 + fraction) *
/// 2^(exponent - 1075)` rounded toward zero, 0 for a negative number, for
/// a number below one and for a NaN, the largest `u64` for a number of
/// 2^64 or more and for positive infinity.
pub open spec fn double_to_slot_spec(bits: u64) -> u64 {
    let e = double_exponent(bits);
    let significand: nat = double_fraction(bits) + HIDDEN_BIT as nat;
    if double_negative(bits) || e < 1023 {
        0
    } else if e == 2047 {
        if double_fraction(bits) == 0 {
            u64::MAX
        } else {
            0
        }
    } else if e >= 1087 {
        u64::MAX
    } else if e >= 1075 {
        (significand * pow2((e - 1075) as nat)) as u64
    } else {
        (significand / pow2((1075 - e) as nat)) as u64
    }
}

/// The position of the highest set bit of `v`, 0 for 0.
pub open spec fn highest_bit(v: u64) -> nat
    decreases v,
{
    if v <= 1 {
        0
    } else {
        1 + highest_bit(v / 2)
    }
}

/// The bit pattern of the double nearest to `v`, with ties going to the
/// even significand: exact up to 53 significant bits, else the top 53
/// bits rounded by the bits cut off.
pub open spec fn slot_to_double_spec(v: u64) -> u64 {
    let p = highest_bit(v);
    if v == 0 {
        0
    } else if p <= 52 {
        ((1023 + p) * HIDDEN_BIT + (v * pow2((52 - p) as nat) - HIDDEN_BIT)) as u64
    } else {
        let unit = pow2((p - 52) as nat);
        let kept = v as nat / unit;
        let cut = v as nat % unit;
        let up: nat = if 2 * cut > unit || (2 * cut == unit && kept % 2 == 1) {
            1
        } else {
            0
        };
        ((1023 + p) * HIDDEN_BIT + (kept + up - HIDDEN_BIT)) as u64
    }
}

proof fn lemma_pow2_le(a: nat, b: nat)
    requires
        a <= b,
    ensures
        pow2(a) <= pow2(b),
{
    if a < b {
        lemma_pow2_strictly_increases(a, b);
    }
}

/// The slot of a double, from its bit pattern.
pub fn double_to_slot(bits: u64) -> (r: u64)
    ensures
        r == double_to_slot_spec(bits),
{
    let negative = bits >= 0x8000_0000_0000_0000;
    let e = (bits >> 52) & 0x7ff;
    let fraction = bits & 0xf_ffff_ffff_ffff;
    assert(e == (bits / 0x10_0000_0000_0000) % 2048) by (bit_vector)
        requires
            e == (bits >> 52) & 0x7ff,
    ;
    assert(fraction == bits % 0x10_0000_0000_0000) by (bit_vector)
        requires
            fraction == bits & 0xf_ffff_ffff_ffff,
    ;
    if negative || e < 1023 {
        return 0;
    }
    if e == 2047 {
        if fraction == 0 {
            return u64::MAX;
        }
        return 0;
    }
    if e >= 1087 {
        return u64::MAX;
    }
    let significand = fraction + 0x10_0000_0000_0000;
    if e >= 1075 {
        let k = e - 1075;
        proof {
            lemma2_to64();
            lemma_pow2_le(k as nat, 11);
            assert(significand * pow2(k as nat) <= u64::MAX) by (nonlinear_arith)
                requires
                    significand < 0x20_0000_0000_0000,
                    pow2(k as nat) <= 0x800,
            ;
            lemma_u64_shl_is_mul(significand, k);
        }
        significand << k
    } else {
        let k = 1075 - e;
        proof {
            lemma_u64_shr_is_div(significand, k);
        }
        significand >> k
    }
}

/// `p` is the highest bit of `v` where `v` lies from 2^p up to 2^(p+1).
proof fn lemma_highest_bit(v: u64, p: nat)
    requires
        pow2(p) <= v < 2 * pow2(p),
    ensures
        highest_bit(v) == p,
    decreases p,
{
    lemma2_to64();
    if p == 0 {
    } else {
        lemma_pow2_unfold(p);
        lemma_highest_bit(v / 2, (p - 1) as nat);
    }
}

/// The highest set bit of `v`, with the bounds that make it so.
fn find_highest_bit(v: u64) -> (p: u64)
    requires
        v > 0,
    ensures
        p == highest_bit(v),
        p <= 63,
        pow2(p as nat) <= v < 2 * pow2(p as nat),
{
    let mut p: u64 = 0;
    let mut t: u64 = v;
    proof {
        lemma2_to64();
    }
    while t > 1
        invariant
            t >= 1,
            p <= 63,
            t == v as nat / pow2(p as nat),
            pow2(p as nat) <= v,
        decreases t,
    {
        proof {
            lemma_pow2_pos(p as nat);
            lemma_pow2_unfold((p + 1) as nat);
            lemma_div_denominator(v as int, pow2(p as nat) as int, 2);
            let d = pow2(p as nat) as int;
            assert(2 * d <= v) by (nonlinear_arith)
                requires
                    v as int / d >= 2,
                    d > 0,
            ;
            assert(d * 2 == pow2((p + 1) as nat));
            if p == 63 {
                lemma2_to64_rest();
                assert(false);
            }
        }
        t = t / 2;
        p = p + 1;
    }
    proof {
        let d = pow2(p as nat) as int;
        lemma_pow2_pos(p as nat);
        assert(v < 2 * d) by (nonlinear_arith)
            requires
                v as int / d == 1,
                d > 0,
        ;
        lemma_highest_bit(v, p as nat);
    }
    p
}

/// The bit pattern of the double that a slot is restored to.
pub fn slot_to_double(v: u64) -> (r: u64)
    ensures
        r == slot_to_double_spec(v),
{
    if v == 0 {
        return 0;
    }
    let p = find_highest_bit(v);
    proof {
        lemma2_to64();
        lemma2_to64_rest();
    }
    if p <= 52 {
        let k = 52 - p;
        proof {
            lemma_pow2_adds(p as nat, k as nat);
            let a = pow2(p as nat) as int;
            let b = pow2(k as nat) as int;
            lemma_pow2_pos(k as nat);
            assert(a * b <= v * b < 2 * (a * b)) by (nonlinear_arith)
                requires
                    a <= v < 2 * a,
                    b > 0,
            ;
            lemma_u64_shl_is_mul(v, k);
        }
        (1023 + p) * HIDDEN_BIT + ((v << k) - HIDDEN_BIT)
    } else {
        let k = p - 52;
        proof {
            lemma_pow2_adds(52, k as nat);
            lemma_pow2_le(k as nat, 11);
            lemma_pow2_pos(k as nat);
            lemma_u64_shl_is_mul(1, k);
        }
        let unit: u64 = 1u64 << k;
        let kept = v / unit;
        let cut = v % unit;
        proof {
            let u = unit as int;
            assert(0x10_0000_0000_0000 <= v as int / u < 0x20_0000_0000_0000) by (nonlinear_arith)
                requires
                    0x10_0000_0000_0000 * u <= v < 2 * (0x10_0000_0000_0000 * u),
                    u > 0,
            ;
        }
        let up: u64 = if 2 * cut > unit || (2 * cut == unit && kept % 2 == 1) {
            1
        } else {
            0
        };
        (1023 + p) * HIDDEN_BIT + (kept + up - HIDDEN_BIT)
    }
}

/// A whole number below 2^53 is restored exactly: it goes to a double
/// and comes back as the same slot.
pub proof fn lemma_small_slot_roundtrip(v: u64)
    requires
        v < 0x20_0000_0000_0000,
    ensures
        double_to_slot_spec(slot_to_double_spec(v)) == v,
{
    lemma2_to64();
    lemma2_to64_rest();
    if v > 0 {
        let p = highest_bit(v);
        lemma_highest_bit_bounds(v);
        if p > 52 {
            lemma_pow2_le(53, p);
            assert(false);
        }
        let k = (52 - p) as nat;
        lemma_pow2_adds(p, k);
        lemma_pow2_pos(k);
        let a = pow2(p) as int;
        let b = pow2(k) as int;
        let scaled = v * b;
        assert(a * b <= scaled < 2 * (a * b)) by (nonlinear_arith)
            requires
                a <= v < 2 * a,
                b > 0,
                scaled == v * b,
        ;
        let fraction = scaled - HIDDEN_BIT;
        let bits = slot_to_double_spec(v);
        assert(bits == (1023 + p) * HIDDEN_BIT + fraction);
        assert(bits / HIDDEN_BIT == 1023 + p && bits % HIDDEN_BIT == fraction) by {
            vstd::arithmetic::div_mod::lemma_fundamental_div_mod_converse(
                bits as int,
                HIDDEN_BIT as int,
                (1023 + p) as int,
                fraction,
            );
        }
        assert(double_exponent(bits) == 1023 + p);
        assert(double_fraction(bits) == fraction);
        assert(scaled / b == v) by (nonlinear_arith)
            requires
                scaled == v * b,
                b > 0,
        ;
        assert(!double_negative(bits));
        if p == 52 {
            assert(b == 1);
            assert(scaled == v) by (nonlinear_arith)
                requires
                    scaled == v * b,
                    b == 1,
            ;
        } else {
            assert((1075 - (1023 + p)) as nat == k);
        }
    } else {
        assert(double_exponent(0) == 0);
    }
}

/// The double that a whole number below 2^53 is restored to is the
/// double nearest to its own slot: such doubles pass through a chunk
/// unchanged.
pub proof fn lemma_whole_double_restored(v: u64)
    requires
        v < 0x20_0000_0000_0000,
    ensures
        slot_to_double_spec(double_to_slot_spec(slot_to_double_spec(v))) == slot_to_double_spec(v),
{
    lemma_small_slot_roundtrip(v);
}

/// The highest bit of a positive `v` brackets it between two powers of
/// two.
pub proof fn lemma_highest_bit_bounds(v: u64)
    requires
        v > 0,
    ensures
        highest_bit(v) <= 63,
        pow2(highest_bit(v)) <= v < 2 * pow2(highest_bit(v)),
    decreases v,
{
    lemma2_to64();
    if v > 1 {
        lemma_highest_bit_bounds(v / 2);
        lemma_pow2_unfold(highest_bit(v));
        if highest_bit(v) > 63 {
            lemma_pow2_le(64, highest_bit(v));
            lemma2_to64_rest();
        }
    }
}

} // verus!
