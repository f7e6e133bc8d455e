//! Conversions from 8-bit normalised values.

use vstd::prelude::*;
use crate::decode::convert::unorm_round;
use crate::decode::convert::single::{is_rounded, round_to_single, rounded_bits};
use crate::decode::convert::exact::{is_nearest_single, lemma_n8_exact_is_nearest,
    lemma_nearest_single};

verus! {

pub fn n16(x: u8) -> (r: u16)
    ensures
        r as nat == unorm_round(x as nat, 255, 65535),
{
    proof {
        assert(unorm_round(x as nat, 255, 65535) == (131070 * x + 255) / 510);
    }
    x as u16 * 257
}

/// The bit pattern of `x` times the single-precision number nearest to the
/// reciprocal of the largest value.
pub open spec fn single_spec(x: nat) -> u32 {
    rounded_bits(x * 0x80_8081, 118)
}

/// `x` times the single-precision number nearest to `1/255`, which is
/// `0x80_8081 * 2^-31`, as a single-precision bit pattern.
pub fn f32_bits(x: u8) -> (bits: u32)
    ensures
        bits == single_spec(x as nat),
        is_rounded(bits, x as nat * 0x80_8081, 118),
{
    round_to_single(x as u64 * 0x80_8081, 118)
}

/// `x / 255` as a single-precision bit pattern, by the product of `x * 3`,
/// which is exact, and the single-precision number nearest to `1/765`,
/// which is `0xAB_5601 * 2^-33`.
pub fn f32_exact_bits(x: u8) -> (bits: u32)
    ensures
        bits == rounded_bits((x as nat * 3) * 0xAB_5601, 116),
        is_rounded(bits, (x as nat * 3) * 0xAB_5601, 116),
        is_nearest_single(bits, x as nat, 255),
{
    let bits = round_to_single((x as u64 * 3) * 0xAB_5601, 116);
    proof {
        lemma_n8_exact_is_nearest(x as nat);
        lemma_nearest_single(bits, (x as nat * 3) * 0xAB_5601, 116, x as nat, 255);
    }
    bits
}

} // verus!
