//! Conversions from 4-bit normalised values.

use vstd::prelude::*;
use crate::decode::convert::unorm_round;
use crate::decode::convert::single::{is_rounded, round_to_single, rounded_bits};
use crate::decode::convert::exact::{is_nearest_single, lemma_n4_exact_is_nearest,
    lemma_nearest_single};

verus! {

pub fn n8(x: u8) -> (r: u8)
    requires
        x <= 15,
    ensures
        r as nat == unorm_round(x as nat, 15, 255),
{
    proof {
        assert(unorm_round(x as nat, 15, 255) == (510 * x + 15) / 30);
    }
    x * 17
}

pub fn n16(x: u8) -> (r: u16)
    requires
        x <= 15,
    ensures
        r as nat == unorm_round(x as nat, 15, 65535),
{
    proof {
        assert(unorm_round(x as nat, 15, 65535) == (131070 * x + 15) / 30);
    }
    x as u16 * 4369
}

/// The bit pattern of `x` times the single-precision number nearest to the
/// reciprocal of the largest value.
pub open spec fn single_spec(x: nat) -> u32 {
    rounded_bits(x * 0x88_8889, 122)
}

/// `x` times the single-precision number nearest to `1/15`, which is
/// `0x88_8889 * 2^-27`, as a single-precision bit pattern.
pub fn f32_bits(x: u8) -> (bits: u32)
    requires
        x <= 15,
    ensures
        bits == single_spec(x as nat),
        is_rounded(bits, x as nat * 0x88_8889, 122),
{
    round_to_single(x as u64 * 0x88_8889, 122)
}

/// `x / 15` as a single-precision bit pattern, by the product of `x * 3`,
/// which is exact, and the single-precision number nearest to `1/45`,
/// which is `0xB6_0B61 * 2^-29`.
pub fn f32_exact_bits(x: u8) -> (bits: u32)
    requires
        x <= 15,
    ensures
        bits == rounded_bits((x as nat * 3) * 0xB6_0B61, 120),
        is_rounded(bits, (x as nat * 3) * 0xB6_0B61, 120),
        is_nearest_single(bits, x as nat, 15),
{
    let bits = round_to_single((x as u64 * 3) * 0xB6_0B61, 120);
    proof {
        lemma_n4_exact_is_nearest(x as nat);
        lemma_nearest_single(bits, (x as nat * 3) * 0xB6_0B61, 120, x as nat, 15);
    }
    bits
}

} // verus!
