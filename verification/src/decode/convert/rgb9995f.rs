//! Conversions from pixels of three 9-bit mantissas under one shared 5-bit
//! exponent: red in the low 9 bits, then green, then blue, the exponent in
//! the top 5 bits.
//!
//! A channel with mantissa `m` is `m * 2^(exponent - 24)`, and `m * 2^-23`
//! where the exponent is 0. Under exponent 31 a zero mantissa is infinity and
//! any other a NaN.

use vstd::prelude::*;
use vstd::arithmetic::power2::{lemma2_to64, lemma_pow2_adds, lemma_pow2_strictly_increases, pow2};
use vstd::bits::lemma_u64_shl_is_mul;
use crate::bits::{lemma_mask_u32, lemma_shr_u32};
use crate::decode::convert::single::{pack, quantize, single_bits, single_is_finite,
    single_is_negative, single_scaled, to_unorm, INFINITY_BITS, NAN_BITS};

verus! {

/// Number of units of `2^-24` in 1.
pub const UNIT: u64 = 0x100_0000;

pub open spec fn exponent(rgb: u32) -> nat {
    (rgb as nat / 0x800_0000) % 32
}

/// The mantissa of channel `i`: 0 is red, 1 green, 2 blue.
pub open spec fn mantissa(rgb: u32, i: nat) -> nat {
    if i == 0 {
        rgb as nat % 512
    } else if i == 1 {
        (rgb as nat / 512) % 512
    } else {
        (rgb as nat / 262144) % 512
    }
}

/// The value of a finite channel in units of `2^-24`.
pub open spec fn scaled(exp: nat, mant: nat) -> nat {
    if exp == 0 {
        2 * mant
    } else {
        mant * pow2(exp)
    }
}

/// A channel as a normalised integer of `0..=max`.
pub open spec fn unorm_spec(exp: nat, mant: nat, max: nat) -> nat {
    if exp == 31 {
        if mant == 0 {
            max
        } else {
            0
        }
    } else {
        to_unorm(scaled(exp, mant), 0x100_0000, max)
    }
}

/// The single-precision bit pattern of a channel.
pub open spec fn single_spec(exp: nat, mant: nat) -> u32 {
    if exp == 31 {
        if mant == 0 {
            0x7F80_0000
        } else {
            0x7FC0_0000
        }
    } else if exp == 0 {
        pack(mant, 126)
    } else {
        pack(mant, exp + 125)
    }
}

/// `bits` is a single-precision bit pattern with the value of a channel.
pub open spec fn is_single_of(bits: u32, exp: nat, mant: nat) -> bool {
    if exp < 31 {
        &&& single_is_finite(bits)
        &&& !single_is_negative(bits)
        &&& single_scaled(bits) == scaled(exp, mant) * pow2(125)
    } else if mant == 0 {
        bits == 0x7F80_0000u32
    } else {
        bits == 0x7FC0_0000u32
    }
}

/// The four fields of a pixel: the mantissas of red, green and blue, then
/// the exponent.
fn fields(rgb: u32) -> (f: [u32; 4])
    ensures
        f[0] as nat == mantissa(rgb, 0),
        f[1] as nat == mantissa(rgb, 1),
        f[2] as nat == mantissa(rgb, 2),
        f[3] as nat == exponent(rgb),
{
    proof {
        lemma_shr_u32(rgb);
        lemma_mask_u32(rgb);
        lemma_mask_u32(rgb >> 9);
        lemma_mask_u32(rgb >> 18);
        lemma_mask_u32(rgb >> 27);
    }
    [rgb & 0x1FF, (rgb >> 9) & 0x1FF, (rgb >> 18) & 0x1FF, (rgb >> 27) & 0x1F]
}

fn channel_unorm(exp: u32, mant: u32, max: u16) -> (r: u16)
    requires
        exp <= 31,
        mant <= 511,
    ensures
        r as nat == unorm_spec(exp as nat, mant as nat, max as nat),
{
    if exp == 31 {
        if mant == 0 {
            max
        } else {
            0
        }
    } else {
        let s: u64 = if exp == 0 {
            2 * mant as u64
        } else {
            proof {
                lemma2_to64();
                lemma_pow2_strictly_increases(exp as nat, 31);
                assert(mant * pow2(exp as nat) < 512 * 0x8000_0000) by (nonlinear_arith)
                    requires
                        mant < 512,
                        pow2(exp as nat) < 0x8000_0000,
                ;
                lemma_u64_shl_is_mul(mant as u64, exp as u64);
            }
            (mant as u64) << (exp as u64)
        };
        proof {
            lemma2_to64();
            if exp > 0 {
                lemma_pow2_strictly_increases(exp as nat, 31);
                assert(mant * pow2(exp as nat) < 512 * 0x8000_0000) by (nonlinear_arith)
                    requires
                        mant < 512,
                        pow2(exp as nat) < 0x8000_0000,
                ;
            }
            assert(s * max < 0x100_0000_0000 * 0x1_0000) by (nonlinear_arith)
                requires
                    s < 0x100_0000_0000,
                    max < 0x1_0000,
            ;
        }
        quantize(s, UNIT, max as u64) as u16
    }
}

fn channel_bits(exp: u32, mant: u32) -> (bits: u32)
    requires
        exp <= 31,
        mant <= 511,
    ensures
        bits == single_spec(exp as nat, mant as nat),
        is_single_of(bits, exp as nat, mant as nat),
{
    if exp == 0 {
        proof {
            lemma_pow2_adds(1, 125);
            lemma2_to64();
            assert(mant as nat * pow2(126) == (2 * mant as nat) * pow2(125)) by (nonlinear_arith)
                requires
                    pow2(126) == 2 * pow2(125),
            ;
        }
        single_bits(mant as u64, 126)
    } else if exp != 31 {
        proof {
            lemma_pow2_adds(exp as nat, 125);
            assert(mant as nat * pow2((exp + 125) as nat) == (mant as nat * pow2(exp as nat))
                * pow2(125)) by (nonlinear_arith)
                requires
                    pow2((exp + 125) as nat) == pow2(exp as nat) * pow2(125),
            ;
        }
        single_bits(mant as u64, exp + 125)
    } else if mant == 0 {
        INFINITY_BITS
    } else {
        NAN_BITS
    }
}

/// Red, green and blue as single-precision bit patterns.
pub fn f32_bits(rgb: u32) -> (c: [u32; 3])
    ensures
        forall|i: int|
            0 <= i < 3 ==> #[trigger] c[i] == single_spec(exponent(rgb), mantissa(rgb, i as nat)),
        forall|i: int|
            0 <= i < 3 ==> is_single_of(#[trigger] c[i], exponent(rgb), mantissa(rgb, i as nat)),
{
    let f = fields(rgb);
    [channel_bits(f[3], f[0]), channel_bits(f[3], f[1]), channel_bits(f[3], f[2])]
}

/// Red, green and blue at 8 bits each.
pub fn n8(rgb: u32) -> (c: [u8; 3])
    ensures
        forall|i: int|
            0 <= i < 3 ==> (#[trigger] c[i]) as nat == unorm_spec(
                exponent(rgb),
                mantissa(rgb, i as nat),
                255,
            ),
{
    let f = fields(rgb);
    [
        channel_unorm(f[3], f[0], 255) as u8,
        channel_unorm(f[3], f[1], 255) as u8,
        channel_unorm(f[3], f[2], 255) as u8,
    ]
}

/// Red, green and blue at 16 bits each.
pub fn n16(rgb: u32) -> (c: [u16; 3])
    ensures
        forall|i: int|
            0 <= i < 3 ==> (#[trigger] c[i]) as nat == unorm_spec(
                exponent(rgb),
                mantissa(rgb, i as nat),
                65535,
            ),
{
    let f = fields(rgb);
    [
        channel_unorm(f[3], f[0], 65535),
        channel_unorm(f[3], f[1], 65535),
        channel_unorm(f[3], f[2], 65535),
    ]
}

} // verus!
