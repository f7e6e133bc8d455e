//! The mean of two single-precision numbers as a normalised integer, for
//! the channels that two pixels of a block share.
//!
//! The numbers are added and the sum is halved, as single-precision
//! hardware does it, and the mean is turned into a normalised integer.
//! Single-precision numbers are handled as their bit patterns.

use vstd::prelude::*;
use vstd::arithmetic::div_mod::lemma_fundamental_div_mod_converse;
use vstd::arithmetic::power2::{lemma2_to64, lemma_pow2_adds, lemma_pow2_pos, lemma_pow2_unfold,
    pow2};
use crate::bits::{lemma_mask_u32, lemma_shr_u32};
use crate::decode::convert::fp;
use crate::decode::convert::rounding::lemma_shift_between;
use crate::decode::convert::single::{sp_shift, sp_significand};
use crate::decode::convert::soft::{aligned, number_of, sum, unit_bits, Number, Soft};

verus! {

/// The bit pattern of positive infinity.
pub const POSITIVE_INFINITY: u32 = 0x7F80_0000;

/// The bit pattern of negative infinity.
pub const NEGATIVE_INFINITY: u32 = 0xFF80_0000;

/// Whether a bit pattern is not a number.
pub open spec fn is_nan(bits: u32) -> bool {
    fp::exponent(bits) == 255 && fp::mantissa(bits) != 0
}

/// Half of a sum as a normalised integer of `0..=max`.
///
/// A sum that is not positive gives 0. A sum of weight 0 is below `2^-125`
/// and gives 0. A sum of weight 150 or more is 2 at least, and gives `max`.
pub open spec fn half_unorm(s: Number, max: nat) -> nat {
    if s.negative || s.significand == 0 || s.weight == 0 {
        0
    } else if s.weight >= 150 {
        max
    } else {
        fp::unorm_spec(unit_bits(Number { weight: (s.weight - 1) as nat, ..s }), max)
    }
}

/// The mean of two single-precision numbers as a normalised integer of
/// `0..=max`.
///
/// The mean of anything and a NaN is a NaN, and so is the mean of the two
/// infinities: they give 0. Else positive infinity gives `max` and negative
/// infinity gives 0.
pub open spec fn mean_unorm_spec(a: u32, b: u32, max: nat) -> nat {
    if is_nan(a) || is_nan(b) {
        0
    } else if a == POSITIVE_INFINITY {
        if b == NEGATIVE_INFINITY {
            0
        } else {
            max
        }
    } else if b == POSITIVE_INFINITY {
        if a == NEGATIVE_INFINITY {
            0
        } else {
            max
        }
    } else if a == NEGATIVE_INFINITY || b == NEGATIVE_INFINITY {
        0
    } else {
        half_unorm(sum(number_of(a), number_of(b)), max)
    }
}

/// Whether a bit pattern is a number, and not an infinity.
fn is_finite(bits: u32) -> (finite: bool)
    ensures
        finite == (fp::exponent(bits) != 255),
        !finite ==> (is_nan(bits) || bits == POSITIVE_INFINITY || bits == NEGATIVE_INFINITY),
        finite ==> !is_nan(bits) && bits != POSITIVE_INFINITY && bits != NEGATIVE_INFINITY,
{
    proof {
        lemma_shr_u32(bits);
        lemma_mask_u32(bits >> 23);
    }
    (bits >> 23) & 0xFF != 255
}

/// Whether a bit pattern is not a number.
fn is_not_a_number(bits: u32) -> (nan: bool)
    ensures
        nan == is_nan(bits),
{
    proof {
        lemma_shr_u32(bits);
        lemma_mask_u32(bits);
        lemma_mask_u32(bits >> 23);
    }
    (bits >> 23) & 0xFF == 255 && bits & 0x7F_FFFF != 0
}

/// The rounded sum of a number of 24 bits with `d` zeros behind it and a
/// number of at most 24 bits, added or taken away: the small number is lost
/// in rounding. Taken from a power of two, it leaves `2^24` units of half
/// the size, which is the power of two again.
proof fn lemma_absorbed(sa: nat, sb: nat, d: nat, minus: bool)
    requires
        0x80_0000 <= sa < 0x100_0000,
        0 < sb < 0x100_0000,
        d >= 26,
    ensures
        ({
            let p = if minus {
                (sa * pow2(d) - sb) as nat
            } else {
                sa * pow2(d) + sb
            };
            &&& sa * pow2(d) > sb
            &&& if minus && sa == 0x80_0000 {
                sp_shift(p) == d - 1 && sp_significand(p) == 0x100_0000
            } else {
                sp_shift(p) == d && sp_significand(p) == sa
            }
        }),
{
    lemma2_to64();
    let z = pow2(d);
    lemma_pow2_adds(26, (d - 26) as nat);
    lemma_pow2_pos((d - 26) as nat);
    assert(z >= 0x400_0000) by (nonlinear_arith)
        requires
            z == 0x400_0000 * pow2((d - 26) as nat),
            pow2((d - 26) as nat) >= 1,
    ;
    lemma_pow2_adds(23, d);
    lemma_pow2_adds(24, d);
    assert(0x80_0000 * z <= sa * z && sa * z + z <= 0x100_0000 * z) by (nonlinear_arith)
        requires
            0x80_0000 <= sa < 0x100_0000,
            z > 0,
    ;
    if !minus {
        let p = sa * z + sb;
        lemma_shift_between(p, d);
        assert(sa * z == z * sa) by (nonlinear_arith);
        lemma_fundamental_div_mod_converse(p as int, z as int, sa as int, sb as int);
    } else if sa > 0x80_0000 {
        let p = (sa * z - sb) as nat;
        assert((sa - 1) * z == sa * z - z && 0x80_0000 * z <= (sa - 1) * z) by (nonlinear_arith)
            requires
                sa > 0x80_0000,
                z > 0,
        ;
        lemma_shift_between(p, d);
        lemma_fundamental_div_mod_converse(p as int, z as int, sa - 1, z - sb);
    } else {
        let p = (sa * z - sb) as nat;
        lemma_pow2_unfold(d);
        let y = pow2((d - 1) as nat);
        lemma_pow2_adds(23, (d - 1) as nat);
        lemma_pow2_adds(24, (d - 1) as nat);
        assert(23 + (d - 1) as nat == 22 + d);
        assert(sa * z == 0x100_0000 * y) by (nonlinear_arith)
            requires
                sa == 0x80_0000,
                z == 2 * y,
        ;
        assert(0xFF_FFFF * y == 0x100_0000 * y - y) by (nonlinear_arith);
        assert(0x80_0000 * y <= 0x100_0000 * y - y) by (nonlinear_arith)
            requires
                y > 0,
        ;
        lemma_shift_between(p, (d - 1) as nat);
        lemma_fundamental_div_mod_converse(p as int, y as int, 0xFF_FFFF, y - sb);
    }
}

/// The sum of two numbers whose weights are more than 30 apart. The number
/// of the higher weight has its leading one; the other is not 0.
proof fn lemma_sum_absorbs(a: Number, b: Number)
    requires
        0x80_0000 <= a.significand < 0x100_0000,
        0 < b.significand < 0x100_0000,
        a.weight > b.weight + 30,
    ensures
        sum(a, b) == absorbed(a, b),
        sum(b, a) == absorbed(a, b),
{
    let d = (a.weight - b.weight) as nat;
    lemma2_to64();
    lemma_absorbed(a.significand, b.significand, d, a.negative != b.negative);
    assert(b.significand * pow2(0) == b.significand) by (nonlinear_arith)
        requires
            pow2(0) == 1,
    ;
    assert(aligned(b, b.weight) == if b.negative {
        -(b.significand as int)
    } else {
        b.significand as int
    });
    assert(aligned(a, b.weight) == if a.negative {
        -(a.significand * pow2(d))
    } else {
        (a.significand * pow2(d)) as int
    });
}

/// What the sum of a number with its leading one and a number of a weight
/// that is more than 30 lower is: the number itself. Where the number is a
/// power of two and the other number has the other sign, the sum is the
/// power of two as `2^24` units of half the size.
pub open spec fn absorbed(a: Number, b: Number) -> Number {
    if a.negative != b.negative && a.significand == 0x80_0000 {
        Number { negative: a.negative, significand: 0x100_0000, weight: (a.weight - 1) as nat }
    } else {
        a
    }
}

/// The sum of a number with its leading one and a number of a weight that
/// is more than 30 lower.
fn absorb(a: Soft, b: Soft) -> (s: Soft)
    requires
        a.weight > 0,
    ensures
        s@ == absorbed(a@, b@),
        s.significand <= 0x100_0000 || s.significand == a.significand,
        s.weight <= a.weight,
{
    if a.negative != b.negative && a.significand == 0x80_0000 {
        Soft { negative: a.negative, significand: 0x100_0000, weight: a.weight - 1 }
    } else {
        a
    }
}

/// The sum of two numbers, rounded to 24 significant bits.
///
/// Where the weights of the numbers are more than 30 apart, the number of
/// the lower weight is lost in rounding, and no sum is computed.
fn soft_sum(a: Soft, b: Soft) -> (s: Soft)
    requires
        a.within(0, 253),
        b.within(0, 253),
        a.significand < 0x100_0000,
        b.significand < 0x100_0000,
        a.weight > 0 ==> a.significand >= 0x80_0000,
        b.weight > 0 ==> b.significand >= 0x80_0000,
    ensures
        s@ == sum(a@, b@),
        s.significand <= 0x100_0000,
        s.weight <= 255,
{
    if a.significand != 0 && b.significand != 0 && a.weight > b.weight + 30 {
        proof {
            lemma_sum_absorbs(a@, b@);
        }
        absorb(a, b)
    } else if a.significand != 0 && b.significand != 0 && b.weight > a.weight + 30 {
        proof {
            lemma_sum_absorbs(b@, a@);
        }
        absorb(b, a)
    } else if a.significand == 0 {
        b
    } else if b.significand == 0 {
        a
    } else if a.weight < b.weight {
        a.plus(b, Ghost(a.weight as int), Ghost(b.weight as int))
    } else {
        a.plus(b, Ghost(b.weight as int), Ghost(a.weight as int))
    }
}

/// The mean of two single-precision numbers as a normalised integer of
/// `0..=max`.
pub fn mean_unorm(a: u32, b: u32, max: u16) -> (r: u16)
    ensures
        r as nat == mean_unorm_spec(a, b, max as nat),
        r <= max,
{
    if is_not_a_number(a) || is_not_a_number(b) {
        return 0;
    }
    let finite_a = is_finite(a);
    let finite_b = is_finite(b);
    if !finite_a || !finite_b {
        return if a == POSITIVE_INFINITY {
            if b == NEGATIVE_INFINITY {
                0
            } else {
                max
            }
        } else if b == POSITIVE_INFINITY {
            if a == NEGATIVE_INFINITY {
                0
            } else {
                max
            }
        } else {
            0
        };
    }
    let s = soft_sum(Soft::from_bits(a), Soft::from_bits(b));
    if s.negative || s.significand == 0 || s.weight == 0 {
        0
    } else if s.weight >= 150 {
        max
    } else {
        let half = Soft { negative: s.negative, significand: s.significand, weight: s.weight - 1 };
        fp::to_unorm(half.unit_bits(), max)
    }
}

/// The block of two pixels that share red and blue: red, the green of the
/// first pixel, blue, the green of the second pixel. Red and blue are the
/// means of the two pixels.
pub open spec fn rgbg(rgba: Seq<u32>) -> Seq<u8> {
    seq![
        mean_unorm_spec(rgba[0], rgba[4], 255) as u8,
        fp::unorm_spec(rgba[1], 255) as u8,
        mean_unorm_spec(rgba[2], rgba[6], 255) as u8,
        fp::unorm_spec(rgba[5], 255) as u8,
    ]
}

/// The block of two pixels that share red and blue, from the numbers of
/// the two pixels at the start of `rgba`.
pub fn to_rgbg(rgba: &[u32; 32]) -> (block: [u8; 4])
    ensures
        block@ == rgbg(rgba@),
{
    let g0 = fp::to_unorm(rgba[1], 255) as u8;
    let g1 = fp::to_unorm(rgba[5], 255) as u8;
    let r = mean_unorm(rgba[0], rgba[4], 255) as u8;
    let b = mean_unorm(rgba[2], rgba[6], 255) as u8;
    let block: [u8; 4] = [r, g0, b, g1];
    assert(block@ =~= rgbg(rgba@));
    block
}

} // verus!
