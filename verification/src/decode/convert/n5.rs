//! Conversions from 5-bit normalised values.

use vstd::prelude::*;
use crate::bits::{lemma_shr_u16, lemma_shr_u32};
use crate::decode::convert::unorm_round;
use crate::decode::convert::single::{is_rounded, round_to_single, rounded_bits};
use crate::decode::convert::exact::{is_nearest_single, lemma_n5_exact_is_nearest,
    lemma_nearest_single};

verus! {

pub fn n8(x: u8) -> (r: u8)
    requires
        x <= 31,
    ensures
        r as nat == unorm_round(x as nat, 31, 255),
{
    let t: u16 = x as u16 * 2108 + 92;
    proof {
        lemma_shr_u16(t);
        assert(unorm_round(x as nat, 31, 255) == (510 * x + 31) / 62);
    }
    (t >> 8) as u8
}

pub fn n16(x: u8) -> (r: u16)
    requires
        x <= 31,
    ensures
        r as nat == unorm_round(x as nat, 31, 65535),
{
    let t: u32 = x as u32 * 138547200;
    proof {
        lemma_shr_u32(t);
        assert(unorm_round(x as nat, 31, 65535) == (131070 * x + 31) / 62) by (nonlinear_arith);
    }
    (t >> 16) as u16
}

/// The bit pattern of `x` times the single-precision number nearest to the
/// reciprocal of the largest value.
pub open spec fn single_spec(x: nat) -> u32 {
    rounded_bits(x * 0x84_2108, 121)
}

/// `x` times the single-precision number nearest to `1/31`, which is
/// `0x84_2108 * 2^-28`, as a single-precision bit pattern.
pub fn f32_bits(x: u8) -> (bits: u32)
    requires
        x <= 31,
    ensures
        bits == single_spec(x as nat),
        is_rounded(bits, x as nat * 0x84_2108, 121),
{
    round_to_single(x as u64 * 0x84_2108, 121)
}

/// `x / 31` as a single-precision bit pattern, by the product of `x * 3`,
/// which is exact, and the single-precision number nearest to `1/93`,
/// which is `0xB0_2C0B * 2^-30`.
pub fn f32_exact_bits(x: u8) -> (bits: u32)
    requires
        x <= 31,
    ensures
        bits == rounded_bits((x as nat * 3) * 0xB0_2C0B, 119),
        is_rounded(bits, (x as nat * 3) * 0xB0_2C0B, 119),
        is_nearest_single(bits, x as nat, 31),
{
    let bits = round_to_single((x as u64 * 3) * 0xB0_2C0B, 119);
    proof {
        lemma_n5_exact_is_nearest(x as nat);
        lemma_nearest_single(bits, (x as nat * 3) * 0xB0_2C0B, 119, x as nat, 31);
    }
    bits
}

} // verus!
