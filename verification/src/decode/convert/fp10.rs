//! Conversions from the unsigned 10-bit floating-point numbers of packed
//! pixels: 5 exponent bits and 5 mantissa bits, no sign.
//!
//! A normal number is `(mantissa + 32) * 2^(exponent - 20)`, a denormal
//! one `mantissa * 2^-19`. The conversions to normalised integers are
//! fused: NaN gives 0, infinity gives the maximum. Bits above the low 10
//! are ignored.

use vstd::prelude::*;
use vstd::arithmetic::power2::pow2;
use crate::bits::{lemma_mask_u16, lemma_shr_u16};
use crate::decode::convert::minifloat::{finite_bits, mini_bits, mini_scaled, mini_unorm, unorm};
use crate::decode::convert::single::{single_is_finite, single_is_negative, single_scaled,
    INFINITY_BITS, NAN_BITS};

verus! {

/// Number of smallest denormals in 1.
pub const UNIT: u64 = 0x8_0000;

pub open spec fn exponent(x: u16) -> nat {
    (x as nat / 32) % 32
}

pub open spec fn mantissa(x: u16) -> nat {
    x as nat % 32
}

/// The value of a finite number in units of `2^-19`.
pub open spec fn scaled(x: u16) -> nat {
    mini_scaled(exponent(x), mantissa(x), 32)
}

/// The number `x` as a normalised integer of `0..=max`.
pub open spec fn unorm_spec(x: u16, max: nat) -> nat {
    mini_unorm(exponent(x), mantissa(x), 32, 0x8_0000, max)
}

/// The single-precision bit pattern of `x`.
pub open spec fn single_spec(x: u16) -> u32 {
    mini_bits(exponent(x), mantissa(x), 32, 130)
}

/// `bits` is a single-precision bit pattern with the value of `x`.
pub open spec fn is_single_of(bits: u32, x: u16) -> bool {
    if exponent(x) < 31 {
        &&& single_is_finite(bits)
        &&& !single_is_negative(bits)
        &&& single_scaled(bits) == scaled(x) * pow2(130)
    } else if mantissa(x) == 0 {
        bits == 0x7F80_0000u32
    } else {
        bits == 0x7FC0_0000u32
    }
}

pub fn n8(x: u16) -> (r: u8)
    ensures
        r as nat == unorm_spec(x, 255),
{
    proof {
        lemma_shr_u16(x);
        lemma_mask_u16(x);
        lemma_mask_u16(x >> 5);
    }
    let exp: u16 = (x >> 5) & 0x1F;
    let mant: u16 = x & 0x1F;
    unorm(exp, mant, 32, UNIT, 255) as u8
}

pub fn n16(x: u16) -> (r: u16)
    ensures
        r as nat == unorm_spec(x, 65535),
{
    proof {
        lemma_shr_u16(x);
        lemma_mask_u16(x);
        lemma_mask_u16(x >> 5);
    }
    let exp: u16 = (x >> 5) & 0x1F;
    let mant: u16 = x & 0x1F;
    unorm(exp, mant, 32, UNIT, 65535)
}

/// The single-precision number with the same value, as its bit pattern.
pub fn f32_bits(x: u16) -> (bits: u32)
    ensures
        bits == single_spec(x),
        is_single_of(bits, x),
{
    proof {
        lemma_shr_u16(x);
        lemma_mask_u16(x);
        lemma_mask_u16(x >> 5);
    }
    let exp: u16 = (x >> 5) & 0x1F;
    let mant: u16 = x & 0x1F;
    if exp != 31 {
        finite_bits(exp, mant, 32, 130)
    } else if mant == 0 {
        INFINITY_BITS
    } else {
        NAN_BITS
    }
}

} // verus!
