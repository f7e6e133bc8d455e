//! Conversions from the unsigned 11-bit floating-point numbers of packed
//! pixels: 5 exponent bits and 6 mantissa bits, no sign.
//!
//! A normal number is `(mantissa + 64) * 2^(exponent - 21)`, a denormal
//! one `mantissa * 2^-20`. The conversions to normalised integers are
//! fused: NaN gives 0, infinity gives the maximum. Bits above the low 11
//! are ignored.

use vstd::prelude::*;
use vstd::arithmetic::power2::pow2;
use crate::bits::{lemma_mask_u16, lemma_shr_u16};
use crate::decode::convert::minifloat::{finite_bits, mini_bits, mini_scaled, mini_unorm, unorm};
use crate::decode::convert::single::{single_is_finite, single_is_negative, single_scaled,
    INFINITY_BITS, NAN_BITS};

verus! {

/// Number of smallest denormals in 1.
pub const UNIT: u64 = 0x10_0000;

pub open spec fn exponent(x: u16) -> nat {
    (x as nat / 64) % 32
}

pub open spec fn mantissa(x: u16) -> nat {
    x as nat % 64
}

/// The value of a finite number in units of `2^-20`.
pub open spec fn scaled(x: u16) -> nat {
    mini_scaled(exponent(x), mantissa(x), 64)
}

/// The number `x` as a normalised integer of `0..=max`.
pub open spec fn unorm_spec(x: u16, max: nat) -> nat {
    mini_unorm(exponent(x), mantissa(x), 64, 0x10_0000, max)
}

/// The single-precision bit pattern of `x`.
pub open spec fn single_spec(x: u16) -> u32 {
    mini_bits(exponent(x), mantissa(x), 64, 129)
}

/// `bits` is a single-precision bit pattern with the value of `x`.
pub open spec fn is_single_of(bits: u32, x: u16) -> bool {
    if exponent(x) < 31 {
        &&& single_is_finite(bits)
        &&& !single_is_negative(bits)
        &&& single_scaled(bits) == scaled(x) * pow2(129)
    } else if mantissa(x) == 0 {
        bits == 0x7F80_0000u32
    } else {
        bits == 0x7FC0_0000u32
    }
}

pub fn n8(x: u16) -> (r: u8)
    ensures
        r as nat == unorm_spec(x, 255),
{
    proof {
        lemma_shr_u16(x);
        lemma_mask_u16(x);
        lemma_mask_u16(x >> 6);
    }
    let exp: u16 = (x >> 6) & 0x1F;
    let mant: u16 = x & 0x3F;
    unorm(exp, mant, 64, UNIT, 255) as u8
}

pub fn n16(x: u16) -> (r: u16)
    ensures
        r as nat == unorm_spec(x, 65535),
{
    proof {
        lemma_shr_u16(x);
        lemma_mask_u16(x);
        lemma_mask_u16(x >> 6);
    }
    let exp: u16 = (x >> 6) & 0x1F;
    let mant: u16 = x & 0x3F;
    unorm(exp, mant, 64, UNIT, 65535)
}

/// The single-precision number with the same value, as its bit pattern.
pub fn f32_bits(x: u16) -> (bits: u32)
    ensures
        bits == single_spec(x),
        is_single_of(bits, x),
{
    proof {
        lemma_shr_u16(x);
        lemma_mask_u16(x);
        lemma_mask_u16(x >> 6);
    }
    let exp: u16 = (x >> 6) & 0x1F;
    let mant: u16 = x & 0x3F;
    if exp != 31 {
        finite_bits(exp, mant, 64, 129)
    } else if mant == 0 {
        INFINITY_BITS
    } else {
        NAN_BITS
    }
}

} // verus!
