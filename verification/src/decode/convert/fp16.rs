//! Conversions from half-precision numbers: a sign bit, 5 exponent bits and
//! 10 mantissa bits.
//!
//! A normal number is `(mantissa + 1024) * 2^(exponent - 25)`, a denormal
//! one `mantissa * 2^-24`. The conversions to normalised integers are fused:
//! negative numbers and NaN give 0, positive infinity gives the maximum.

use vstd::prelude::*;
use vstd::arithmetic::power2::pow2;
use crate::bits::{lemma_mask_u16, lemma_shr_u16};
use crate::decode::convert::minifloat::{finite_bits, mini_bits, mini_scaled, mini_unorm, unorm};
use crate::decode::convert::single::{single_is_finite, single_is_negative, single_scaled,
    INFINITY_BITS, NAN_BITS, SIGN_BIT};

verus! {

/// Number of smallest half-precision denormals in 1.
pub const UNIT: u64 = 0x100_0000;

pub open spec fn exponent(x: u16) -> nat {
    (x as nat / 1024) % 32
}

pub open spec fn mantissa(x: u16) -> nat {
    x as nat % 1024
}

pub open spec fn is_negative(x: u16) -> bool {
    x >= 0x8000
}

/// The magnitude of a finite half in units of `2^-24`.
pub open spec fn scaled(x: u16) -> nat {
    mini_scaled(exponent(x), mantissa(x), 1024)
}

/// The half `x` as a normalised integer of `0..=max`.
pub open spec fn unorm_spec(x: u16, max: nat) -> nat {
    if is_negative(x) {
        0
    } else {
        mini_unorm(exponent(x), mantissa(x), 1024, 0x100_0000, max)
    }
}

/// The single-precision bit pattern of the half `x`.
pub open spec fn single_spec(x: u16) -> u32 {
    let magnitude = mini_bits(exponent(x), mantissa(x), 1024, 125);
    if is_negative(x) {
        (magnitude + 0x8000_0000) as u32
    } else {
        magnitude
    }
}

/// `bits` is a single-precision bit pattern with the value of the half `x`.
pub open spec fn is_single_of(bits: u32, x: u16) -> bool {
    if exponent(x) < 31 {
        &&& single_is_finite(bits)
        &&& single_is_negative(bits) == is_negative(x)
        &&& single_scaled(bits) == scaled(x) * pow2(125)
    } else if mantissa(x) == 0 {
        bits == if is_negative(x) { 0xFF80_0000u32 } else { 0x7F80_0000u32 }
    } else {
        bits == if is_negative(x) { 0xFFC0_0000u32 } else { 0x7FC0_0000u32 }
    }
}

fn to_unorm(x: u16, max: u16) -> (r: u16)
    ensures
        r as nat == unorm_spec(x, max as nat),
{
    proof {
        lemma_shr_u16(x);
        lemma_mask_u16(x);
        lemma_mask_u16(x >> 10);
    }
    let exp: u16 = (x >> 10) & 0x1F;
    let mant: u16 = x & 0x3FF;
    let val = unorm(exp, mant, 1024, UNIT, max);
    if x & 0x8000 != 0 {
        0
    } else {
        val
    }
}

pub fn n8(x: u16) -> (r: u8)
    ensures
        r as nat == unorm_spec(x, 255),
{
    to_unorm(x, 255) as u8
}

pub fn n16(x: u16) -> (r: u16)
    ensures
        r as nat == unorm_spec(x, 65535),
{
    to_unorm(x, 65535)
}

/// The single-precision number with the same value, as its bit pattern.
pub fn f32_bits(x: u16) -> (bits: u32)
    ensures
        bits == single_spec(x),
        is_single_of(bits, x),
{
    proof {
        lemma_shr_u16(x);
        lemma_mask_u16(x);
        lemma_mask_u16(x >> 10);
    }
    let exp: u16 = (x >> 10) & 0x1F;
    let mant: u16 = x & 0x3FF;
    let val: u32 = if exp != 31 {
        finite_bits(exp, mant, 1024, 125)
    } else if mant == 0 {
        INFINITY_BITS
    } else {
        NAN_BITS
    };
    if x & 0x8000 != 0 {
        val + SIGN_BIT
    } else {
        val
    }
}

} // verus!
