//! Conversions from 2-bit normalised values.

use vstd::prelude::*;
use crate::decode::convert::unorm_round;
use crate::decode::convert::single::{is_rounded, round_to_single, rounded_bits};
use crate::decode::convert::exact::{is_nearest_single, lemma_n2_is_nearest, lemma_nearest_single};

verus! {

pub fn n8(x: u8) -> (r: u8)
    requires
        x <= 3,
    ensures
        r as nat == unorm_round(x as nat, 3, 255),
{
    proof {
        assert(unorm_round(x as nat, 3, 255) == (510 * x + 3) / 6);
    }
    x * 85
}

pub fn n16(x: u8) -> (r: u16)
    requires
        x <= 3,
    ensures
        r as nat == unorm_round(x as nat, 3, 65535),
{
    proof {
        assert(unorm_round(x as nat, 3, 65535) == (131070 * x + 3) / 6);
    }
    x as u16 * 21845
}

/// The bit pattern of `x` times the single-precision number nearest to the
/// reciprocal of the largest value.
pub open spec fn single_spec(x: nat) -> u32 {
    rounded_bits(x * 0xAA_AAAB, 124)
}

/// `x` times the single-precision number nearest to `1/3`, which is
/// `0xAA_AAAB * 2^-25`, as a single-precision bit pattern.
pub fn f32_bits(x: u8) -> (bits: u32)
    requires
        x <= 3,
    ensures
        bits == single_spec(x as nat),
        is_rounded(bits, x as nat * 0xAA_AAAB, 124),
        is_nearest_single(bits, x as nat, 3),
{
    let bits = round_to_single(x as u64 * 0xAA_AAAB, 124);
    proof {
        lemma_n2_is_nearest(x as nat);
        lemma_nearest_single(bits, x as nat * 0xAA_AAAB, 124, x as nat, 3);
    }
    bits
}

} // verus!
