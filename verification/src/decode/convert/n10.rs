//! Conversions from 10-bit normalised values.

use vstd::prelude::*;
use crate::decode::convert::unorm_round;
use crate::decode::convert::single::{is_rounded, round_to_single, rounded_bits};
use crate::decode::convert::exact::{is_nearest_single, lemma_n10_exact_is_nearest,
    lemma_nearest_single};

verus! {

pub fn n8(x: u16) -> (r: u8)
    requires
        x <= 1023,
    ensures
        r as nat == unorm_round(x as nat, 1023, 255),
{
    let t: u32 = x as u32 * 16336 + 32656;
    proof {
        assert(t >> 16 == (510 * x + 1023) / 2046) by (bit_vector)
            requires
                x <= 1023,
                t == x as u32 * 16336 + 32656,
        ;
        assert(unorm_round(x as nat, 1023, 255) == (510 * x + 1023) / 2046);
    }
    (t >> 16) as u8
}

pub fn n16(x: u16) -> (r: u16)
    requires
        x <= 1023,
    ensures
        r as nat == unorm_round(x as nat, 1023, 65535),
{
    let t: u32 = x as u32 * 4198340 + 32660;
    proof {
        assert(t >> 16 == (131070 * x + 1023) / 2046) by (bit_vector)
            requires
                x <= 1023,
                t == x as u32 * 4198340 + 32660,
        ;
        assert(unorm_round(x as nat, 1023, 65535) == (131070 * x + 1023) / 2046);
    }
    (t >> 16) as u16
}

/// The bit pattern of `x` times the single-precision number nearest to the
/// reciprocal of the largest value.
pub open spec fn single_spec(x: nat) -> u32 {
    rounded_bits(x * 0x80_2008, 116)
}

/// `x` times the single-precision number nearest to `1/1023`, which is
/// `0x80_2008 * 2^-33`, as a single-precision bit pattern.
pub fn f32_bits(x: u16) -> (bits: u32)
    requires
        x <= 1023,
    ensures
        bits == single_spec(x as nat),
        is_rounded(bits, x as nat * 0x80_2008, 116),
{
    round_to_single(x as u64 * 0x80_2008, 116)
}

/// `x / 1023` as a single-precision bit pattern, by the product of `x * 85`,
/// which is exact, and the single-precision number nearest to `1/86955`,
/// which is `0xC0_F0FD * 2^-40`.
pub fn f32_exact_bits(x: u16) -> (bits: u32)
    requires
        x <= 1023,
    ensures
        bits == rounded_bits((x as nat * 85) * 0xC0_F0FD, 109),
        is_rounded(bits, (x as nat * 85) * 0xC0_F0FD, 109),
        is_nearest_single(bits, x as nat, 1023),
{
    let bits = round_to_single((x as u64 * 85) * 0xC0_F0FD, 109);
    proof {
        lemma_n10_exact_is_nearest(x as nat);
        lemma_nearest_single(bits, (x as nat * 85) * 0xC0_F0FD, 109, x as nat, 1023);
    }
    bits
}

} // verus!
