//! Conversions from 6-bit normalised values.

use vstd::prelude::*;
use crate::bits::{lemma_shr_u16, lemma_shr_u32};
use crate::decode::convert::unorm_round;
use crate::decode::convert::single::{is_rounded, round_to_single, rounded_bits};
use crate::decode::convert::exact::{is_nearest_single, lemma_n6_exact_is_nearest,
    lemma_nearest_single};

verus! {

pub fn n8(x: u8) -> (r: u8)
    requires
        x <= 63,
    ensures
        r as nat == unorm_round(x as nat, 63, 255),
{
    let t: u16 = x as u16 * 1036 + 132;
    proof {
        assert(unorm_round(x as nat, 63, 255) == (510 * x + 63) / 126);
        lemma_shr_u16(t);
    }
    (t >> 8) as u8
}

pub fn n16(x: u8) -> (r: u16)
    requires
        x <= 63,
    ensures
        r as nat == unorm_round(x as nat, 63, 65535),
{
    let t: u32 = x as u32 * 68173056 + 30976;
    proof {
        assert(unorm_round(x as nat, 63, 65535) == (131070 * x + 63) / 126);
        lemma_shr_u32(t);
    }
    (t >> 16) as u16
}

/// The bit pattern of `x` times the single-precision number nearest to the
/// reciprocal of the largest value.
pub open spec fn single_spec(x: nat) -> u32 {
    rounded_bits(x * 0x82_0821, 120)
}

/// `x` times the single-precision number nearest to `1/63`, which is
/// `0x82_0821 * 2^-29`, as a single-precision bit pattern.
pub fn f32_bits(x: u8) -> (bits: u32)
    requires
        x <= 63,
    ensures
        bits == single_spec(x as nat),
        is_rounded(bits, x as nat * 0x82_0821, 120),
{
    round_to_single(x as u64 * 0x82_0821, 120)
}

/// `x / 63` as a single-precision bit pattern, by the product of `x * 5`,
/// which is exact, and the single-precision number nearest to `1/315`,
/// which is `0xD0_0D01 * 2^-32`.
pub fn f32_exact_bits(x: u8) -> (bits: u32)
    requires
        x <= 63,
    ensures
        bits == rounded_bits((x as nat * 5) * 0xD0_0D01, 117),
        is_rounded(bits, (x as nat * 5) * 0xD0_0D01, 117),
        is_nearest_single(bits, x as nat, 63),
{
    let bits = round_to_single((x as u64 * 5) * 0xD0_0D01, 117);
    proof {
        lemma_n6_exact_is_nearest(x as nat);
        lemma_nearest_single(bits, (x as nat * 5) * 0xD0_0D01, 117, x as nat, 63);
    }
    bits
}

} // verus!
