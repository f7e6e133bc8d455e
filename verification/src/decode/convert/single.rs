//! Single-precision rounding, carried out on whole numbers.
//!
//! A product or sum of single-precision numbers is the exact result rounded
//! to 24 significant bits, ties to the even neighbour. The functions here
//! perform that rounding on a natural number whose unit is a fixed power of
//! two, and assemble and read IEEE-754 bit patterns, so that no hardware
//! arithmetic on fractions is involved.

use vstd::prelude::*;
use vstd::arithmetic::div_mod::{lemma_div_denominator, lemma_fundamental_div_mod};
use vstd::arithmetic::power2::{lemma2_to64, lemma_pow2_adds, lemma_pow2_unfold, pow2};

verus! {

/// One more than the largest significand of 24 bits.
pub const SIGNIFICAND_END: u64 = 0x100_0000;

/// The hidden bit of a normal single-precision number.
pub const HIDDEN_BIT: u64 = 0x80_0000;

/// Bit pattern of positive infinity.
pub const INFINITY_BITS: u32 = 0x7F80_0000;

/// Bit pattern of the quiet not-a-number.
pub const NAN_BITS: u32 = 0x7FC0_0000;

/// The sign bit.
pub const SIGN_BIT: u32 = 0x8000_0000;

/// How many low bits of `p` do not fit into 24 significant bits.
pub open spec fn sp_shift(p: nat) -> nat
    decreases p,
{
    if p < 0x100_0000 {
        0
    } else {
        1 + sp_shift(p / 2)
    }
}

/// The 24-bit significand of `p` rounded to 24 significant bits, in units of
/// `2^sp_shift(p)`. Where `p` lies halfway between two such numbers, the even
/// one is taken. The result may be `2^24`.
pub open spec fn sp_significand(p: nat) -> nat {
    let unit = pow2(sp_shift(p));
    let q = p / unit;
    let rem = p % unit;
    if 2 * rem > unit || (2 * rem == unit && q % 2 == 1) {
        q + 1
    } else {
        q
    }
}

/// `p` rounded to 24 significant bits, ties to even.
pub open spec fn sp_round(p: nat) -> nat {
    sp_significand(p) * pow2(sp_shift(p))
}

/// A non-negative number `scaled / unit`, multiplied by `max` in single
/// precision, then rounded to the nearest whole number (halves upwards) and
/// limited to `max`: `min(max, floor(round24(scaled * max) / unit + 1/2))`.
pub open spec fn to_unorm(scaled: nat, unit: nat, max: nat) -> nat
    recommends
        unit > 0,
{
    let v = (2 * sp_round(scaled * max) + unit) / (2 * unit);
    if v > max {
        max
    } else {
        v
    }
}

/// Whether the bit pattern is a finite number (not an infinity, not a NaN).
pub open spec fn single_is_finite(bits: u32) -> bool {
    (bits / 0x80_0000) % 256 != 255
}

/// Whether the sign bit of the pattern is set.
pub open spec fn single_is_negative(bits: u32) -> bool {
    bits >= 0x8000_0000
}

/// The magnitude of a finite single-precision number in units of `2^-149`,
/// the smallest positive number of the format.
pub open spec fn single_scaled(bits: u32) -> nat {
    let e = (bits as nat / 0x80_0000) % 256;
    let m = bits as nat % 0x80_0000;
    if e == 0 {
        m
    } else {
        (m + 0x80_0000) * pow2((e - 1) as nat)
    }
}

/// The bit pattern of the non-negative number `q * 2^(w - 149)`, for a
/// significand `q` of at most 24 bits (or `2^24` itself): the significand is
/// moved up until its top bit is the hidden bit, or until the weight is used
/// up and the number is a denormal.
pub open spec fn pack(q: nat, w: nat) -> u32
    decreases w,
{
    if q >= 0x100_0000 {
        ((w + 2) * 0x80_0000) as u32
    } else if q >= 0x80_0000 {
        ((w + 1) * 0x80_0000 + (q - 0x80_0000)) as u32
    } else if w == 0 {
        q as u32
    } else {
        pack(2 * q, (w - 1) as nat)
    }
}

/// The bit pattern of the non-negative single-precision number nearest to
/// `p * 2^(weight - 149)`, ties to even.
pub open spec fn rounded_bits(p: nat, weight: nat) -> u32 {
    pack(sp_significand(p), sp_shift(p) + weight)
}

/// A number rounded to 24 significant bits: `significand * unit`, where
/// `unit` is two to the power `shift`.
pub struct Rounded {
    pub significand: u64,
    pub shift: u32,
    pub unit: u64,
}

/// Rounds `p` to 24 significant bits, ties to even, and hands out the parts.
pub fn round_parts(p: u64) -> (r: Rounded)
    requires
        p < 0x4000_0000_0000_0000,
    ensures
        r.significand as nat == sp_significand(p as nat),
        r.shift as nat == sp_shift(p as nat),
        r.unit as nat == pow2(r.shift as nat),
        r.significand <= 0x100_0000,
        r.shift > 0 ==> r.significand >= 0x80_0000,
        r.shift <= 38,
        r.significand * r.unit < 0x8000_0000_0000_0000,
{
    let mut t: u64 = p;
    let mut unit: u64 = 1;
    let mut shift: u32 = 0;
    proof {
        lemma2_to64();
    }
    while t >= SIGNIFICAND_END
        invariant
            unit as nat == pow2(shift as nat),
            unit >= 1,
            shift <= 38,
            t as nat == p as nat / (unit as nat),
            sp_shift(p as nat) == shift + sp_shift(t as nat),
            (unit as nat) * (t as nat) <= p,
            unit == 1 || t >= 0x80_0000,
            p < 0x4000_0000_0000_0000,
        decreases t,
    {
        proof {
            lemma_div_denominator(p as int, unit as int, 2);
            lemma_pow2_unfold((shift + 1) as nat);
            assert((unit as nat) * 0x100_0000 <= (unit as nat) * (t as nat)) by (nonlinear_arith)
                requires
                    t >= 0x100_0000,
            ;
            assert((2 * unit as nat) * ((t / 2) as nat) <= (unit as nat) * (t as nat))
                by (nonlinear_arith);
            if shift == 38 {
                vstd::arithmetic::power2::lemma2_to64_rest();
            }
        }
        t = t / 2;
        unit = unit * 2;
        shift = shift + 1;
    }
    let rem: u64 = p % unit;
    proof {
        assert(sp_shift(t as nat) == 0);
        lemma_fundamental_div_mod(p as int, unit as int);
        assert((unit as nat) * 0x80_0000 <= (unit as nat) * (t as nat) || unit == 1)
            by (nonlinear_arith)
            requires
                unit == 1 || t >= 0x80_0000,
        ;
        assert((t as nat + 1) * (unit as nat) == (unit as nat) * (t as nat) + unit)
            by (nonlinear_arith);
        assert((t as nat) * (unit as nat) == (unit as nat) * (t as nat)) by (nonlinear_arith);
    }
    if rem > unit - rem || (rem == unit - rem && t % 2 == 1) {
        Rounded { significand: t + 1, shift, unit }
    } else {
        Rounded { significand: t, shift, unit }
    }
}

/// Rounds `p` to 24 significant bits, ties to even.
pub fn round_single(p: u64) -> (r: u64)
    requires
        p < 0x4000_0000_0000_0000,
    ensures
        r as nat == sp_round(p as nat),
        r < 0x8000_0000_0000_0000,
{
    let parts = round_parts(p);
    parts.significand * parts.unit
}

/// The number `scaled / unit` as a normalised integer of the range
/// `0..=max`: multiplied by `max` in single precision, then rounded to the
/// nearest whole number and limited to `max`.
pub fn quantize(scaled: u64, unit: u64, max: u64) -> (r: u64)
    requires
        unit > 0,
        scaled * max < 0x4000_0000_0000_0000,
    ensures
        r as nat == to_unorm(scaled as nat, unit as nat, max as nat),
        r <= max,
{
    let p = round_single(scaled * max);
    let v: u128 = (2 * (p as u128) + unit as u128) / (2 * (unit as u128));
    if v > max as u128 {
        max
    } else {
        v as u64
    }
}

/// The bit pattern of the non-negative single-precision number
/// `significand * 2^(weight - 149)`.
pub fn single_bits(significand: u64, weight: u32) -> (bits: u32)
    requires
        significand <= 0x100_0000,
        weight <= 252,
    ensures
        bits == pack(significand as nat, weight as nat),
        single_is_finite(bits),
        !single_is_negative(bits),
        single_scaled(bits) == significand as nat * pow2(weight as nat),
{
    let mut q: u64 = significand;
    let mut w: u32 = weight;
    if q == SIGNIFICAND_END {
        proof {
            lemma_pow2_unfold((w + 1) as nat);
            assert(0x100_0000 * pow2(w as nat) == 0x80_0000 * (2 * pow2(w as nat)))
                by (nonlinear_arith);
        }
        q = HIDDEN_BIT;
        w = w + 1;
    }
    while q < HIDDEN_BIT && w > 0
        invariant
            q < 0x100_0000,
            w <= 253,
            q as nat * pow2(w as nat) == significand as nat * pow2(weight as nat),
            pack(q as nat, w as nat) == pack(significand as nat, weight as nat),
        decreases w,
    {
        proof {
            lemma_pow2_unfold(w as nat);
            assert((2 * q as nat) * pow2((w - 1) as nat) == q as nat * (2 * pow2((w - 1) as nat)))
                by (nonlinear_arith);
        }
        q = q * 2;
        w = w - 1;
    }
    if q < HIDDEN_BIT {
        proof {
            lemma2_to64();
        }
        q as u32
    } else {
        let e: u32 = w + 1;
        let bits: u32 = e * 0x80_0000 + (q - HIDDEN_BIT) as u32;
        proof {
            assert(bits as nat / 0x80_0000 == e);
            assert(bits as nat % 0x80_0000 == (q - 0x80_0000) as nat);
        }
        bits
    }
}

/// Rounding to 24 significant bits keeps a number below a power of two at
/// or below that power.
pub proof fn sp_round_bound(p: nat, n: nat)
    requires
        p < pow2(n),
        n >= 24,
    ensures
        sp_round(p) <= pow2(n),
    decreases n,
{
    lemma2_to64();
    if p < 0x100_0000 {
        assert(sp_shift(p) == 0);
        assert(sp_round(p) == p);
    } else {
        // the significand is below 2^24 before rounding, so at most 2^24
        // after it; the unit is at most 2^(n - 24)
        sp_shift_bound(p, n);
        let s = sp_shift(p);
        let unit = pow2(s);
        vstd::arithmetic::power2::lemma_pow2_pos(s);
        lemma_fundamental_div_mod(p as int, unit as int);
        sp_shift_quotient(p);
        assert(sp_significand(p) <= 0x100_0000);
        lemma_pow2_adds(24, s);
        assert(sp_significand(p) * unit <= 0x100_0000 * unit) by (nonlinear_arith)
            requires
                sp_significand(p) <= 0x100_0000,
        ;
        if s + 24 < n {
            vstd::arithmetic::power2::lemma_pow2_strictly_increases(s + 24, n);
        }
    }
}

/// A number below `2^n` has at most `n - 24` bits too many.
pub proof fn sp_shift_bound(p: nat, n: nat)
    requires
        p < pow2(n),
        n >= 24,
    ensures
        sp_shift(p) + 24 <= n,
    decreases p,
{
    lemma2_to64();
    if p >= 0x100_0000 {
        if n == 24 {
            assert(false);
        } else {
            lemma_pow2_unfold(n);
            sp_shift_bound(p / 2, (n - 1) as nat);
        }
    }
}

/// What remains of `p` above its surplus bits is below `2^24`.
pub proof fn sp_shift_quotient(p: nat)
    ensures
        p / pow2(sp_shift(p)) < 0x100_0000,
    decreases p,
{
    lemma2_to64();
    if p >= 0x100_0000 {
        sp_shift_quotient(p / 2);
        let s = sp_shift(p / 2);
        lemma_pow2_unfold(s + 1);
        vstd::arithmetic::power2::lemma_pow2_pos(s);
        lemma_div_denominator(p as int, 2, pow2(s) as int);
    }
}

/// `bits` is the non-negative single-precision number nearest to
/// `p * 2^(weight - 149)`, ties to even.
pub open spec fn is_rounded(bits: u32, p: nat, weight: nat) -> bool {
    &&& single_is_finite(bits)
    &&& !single_is_negative(bits)
    &&& single_scaled(bits) == sp_round(p) * pow2(weight)
}

/// The bit pattern of the single-precision number nearest to
/// `p * 2^(weight - 149)`. With `p` the product of two significands this is
/// a single-precision multiplication, with `p` a sum of aligned significands
/// an addition.
pub fn round_to_single(p: u64, weight: u32) -> (bits: u32)
    requires
        p < 0x4000_0000_0000_0000,
        weight <= 200,
    ensures
        bits == rounded_bits(p as nat, weight as nat),
        is_rounded(bits, p as nat, weight as nat),
{
    let r = round_parts(p);
    proof {
        lemma_pow2_adds(r.shift as nat, weight as nat);
        assert(r.significand as nat * pow2((r.shift + weight) as nat) == (r.significand as nat
            * pow2(r.shift as nat)) * pow2(weight as nat)) by (nonlinear_arith)
            requires
                pow2((r.shift + weight) as nat) == pow2(r.shift as nat) * pow2(weight as nat),
        ;
    }
    single_bits(r.significand, r.shift + weight)
}

} // verus!
