//! Conversions from 16-bit normalised values.

use vstd::prelude::*;
use crate::decode::convert::unorm_round;
use crate::decode::convert::single::{is_rounded, round_single, round_to_single, rounded_bits,
    sp_round, sp_round_bound};
use crate::decode::convert::exact::{is_nearest_single, lemma_exact_without_shift,
    lemma_n16_exact_is_nearest, lemma_nearest_single};

verus! {

pub fn n8(x: u16) -> (r: u8)
    ensures
        r as nat == unorm_round(x as nat, 65535, 255),
{
    let t: u32 = x as u32 * 255 + 32895;
    proof {
        assert(t >> 16 == (510 * x + 65535) / 131070) by (bit_vector)
            requires
                x <= 65535,
                t == x as u32 * 255 + 32895,
        ;
        assert(unorm_round(x as nat, 65535, 255) == (510 * x + 65535) / 131070);
    }
    (t >> 16) as u8
}

/// The bit pattern of `x` times the single-precision number nearest to the
/// reciprocal of the largest value.
pub open spec fn single_spec(x: nat) -> u32 {
    rounded_bits(x * 0x80_0080, 110)
}

/// `x` times the single-precision number nearest to `1/65535`, which is
/// `0x80_0080 * 2^-39`, as a single-precision bit pattern.
pub fn f32_bits(x: u16) -> (bits: u32)
    ensures
        bits == single_spec(x as nat),
        is_rounded(bits, x as nat * 0x80_0080, 110),
{
    round_to_single(x as u64 * 0x80_0080, 110)
}

/// `x / 65535` as a single-precision bit pattern, by the sum of two terms:
/// `x * 2^-16`, which is exact, and the single-precision product of `x` and
/// `65537 * 2^-48`.
pub fn f32_exact_bits(x: u16) -> (bits: u32)
    ensures
        bits == rounded_bits(x as nat * 0x1_0000_0000 + sp_round(x as nat * 65537), 101),
        is_rounded(bits, x as nat * 0x1_0000_0000 + sp_round(x as nat * 65537), 101),
        is_nearest_single(bits, x as nat, 65535),
{
    let second = round_single(x as u64 * 65537);
    proof {
        vstd::arithmetic::power2::lemma2_to64_rest();
        sp_round_bound(x as nat * 65537, 33);
    }
    let bits = round_to_single(x as u64 * 0x1_0000_0000 + second, 101);
    proof {
        let p = x as nat * 0x1_0000_0000 + sp_round(x as nat * 65537);
        lemma_n16_exact_is_nearest(x as nat);
        if x == 0 {
            lemma_exact_without_shift(0);
        }
        lemma_nearest_single(bits, p, 101, x as nat, 65535);
    }
    bits
}

} // verus!
