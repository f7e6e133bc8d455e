//! Conversions from 16-bit signed normalised values, given as their two's
//! complement bit pattern. Results are unsigned: `-1` maps to the lowest
//! output and `+1` to the highest.

use vstd::prelude::*;
use crate::bits::lemma_shr_u32;
use crate::decode::convert::{snorm_norm, unorm_round};
use crate::decode::convert::single::{is_rounded, round_to_single, rounded_bits};

verus! {

/// Brings the value into `0..=65534`. Both `-32768` and `-32767` stand for
/// `-1` and map to 0.
pub fn norm(x: u16) -> (r: u16)
    ensures
        r as nat == snorm_norm(x as nat, 32767),
        r <= 65534,
{
    x.wrapping_add(32768).saturating_sub(1)
}

pub fn n8(x: u16) -> (r: u8)
    ensures
        r as nat == unorm_round(snorm_norm(x as nat, 32767), 65534, 255),
{
    let x = norm(x);
    let t: u32 = x as u32 * 65282 + 8388354;
    proof {
        assert(t >> 24 == (510 * x + 65534) / 131068) by (bit_vector)
            requires
                x <= 65534,
                t == x as u32 * 65282 + 8388354,
        ;
        assert(unorm_round(x as nat, 65534, 255) == (510 * x + 65534) / 131068);
    }
    (t >> 24) as u8
}

pub fn n16(x: u16) -> (r: u16)
    ensures
        r as nat == unorm_round(snorm_norm(x as nat, 32767), 65534, 65535),
{
    let x = norm(x);
    let t: u32 = x as u32 * 65538 + 2;
    proof {
        lemma_shr_u32(t);
        assert(unorm_round(x as nat, 65534, 65535) == (131070 * x + 65534) / 131068);
    }
    (t >> 16) as u16
}

/// The bit pattern of the unsigned form times the single-precision number
/// nearest to the reciprocal of the largest unsigned form.
pub open spec fn single_spec(x: nat) -> u32 {
    rounded_bits(snorm_norm(x, 32767) * 0x80_0100, 110)
}

/// The value as a single-precision bit pattern in `0..=1`: the unsigned form
/// times the single-precision number nearest to `1/65534`, which is
/// `0x80_0100 * 2^-39`.
pub fn uf32_bits(x: u16) -> (bits: u32)
    ensures
        bits == single_spec(x as nat),
        is_rounded(bits, snorm_norm(x as nat, 32767) * 0x80_0100, 110),
{
    let x = norm(x);
    round_to_single(x as u64 * 0x80_0100, 110)
}

/// The value as a single-precision bit pattern in `0..=1`, by the product of
/// the unsigned form times 73, which is exact, and the single-precision
/// number nearest to `1/4783982`, which is `0xE0_71F9 * 2^-46`.
pub fn uf32_exact_bits(x: u16) -> (bits: u32)
    ensures
        bits == rounded_bits((snorm_norm(x as nat, 32767) * 73) * 0xE0_71F9, 103),
        is_rounded(bits, (snorm_norm(x as nat, 32767) * 73) * 0xE0_71F9, 103),
{
    let x = norm(x);
    round_to_single((x as u64 * 73) * 0xE0_71F9, 103)
}

/// The signed normalised bit pattern nearest to an unsigned normalised
/// value: the value rescaled to `0..=65534`, rounded to the nearest, and
/// shifted down by 32767 into two's complement.
pub open spec fn from_unorm_spec(x: nat) -> nat {
    let norm = unorm_round(x, 65535, 65534);
    if norm >= 32767 {
        (norm - 32767) as nat
    } else {
        (norm + 32769) as nat
    }
}

/// The signed normalised bit pattern nearest to an unsigned normalised
/// value.
pub fn from_n16(x: u16) -> (r: u16)
    ensures
        r as nat == from_unorm_spec(x as nat),
        snorm_norm(r as nat, 32767) == unorm_round(x as nat, 65535, 65534),
{
    assert(unorm_round(x as nat, 65535, 65534) == (131068 * x + 65535) / 131070);
    let norm: u64 = (131068 * x as u64 + 65535) / 131070;
    if norm >= 32767 {
        (norm - 32767) as u16
    } else {
        (norm + 32769) as u16
    }
}

} // verus!
