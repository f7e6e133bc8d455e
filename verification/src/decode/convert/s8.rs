//! Conversions from 8-bit signed normalised values, given as their two's
//! complement bit pattern. Results are unsigned: `-1` maps to the lowest
//! output and `+1` to the highest.

use vstd::prelude::*;
use crate::bits::{lemma_shr_u16, lemma_shr_u32};
use crate::decode::convert::{snorm_norm, unorm_round};
use crate::decode::convert::single::{is_rounded, round_to_single, rounded_bits};

verus! {

/// Brings the value into `0..=254`. Both `-128` and `-127` stand for `-1`
/// and map to 0.
pub fn norm(x: u8) -> (r: u8)
    ensures
        r as nat == snorm_norm(x as nat, 127),
        r <= 254,
{
    x.wrapping_add(128).saturating_sub(1)
}

pub fn n8(x: u8) -> (r: u8)
    ensures
        r as nat == unorm_round(snorm_norm(x as nat, 127), 254, 255),
{
    let x = norm(x);
    let t: u16 = x as u16 * 258 + 2;
    proof {
        assert(unorm_round(x as nat, 254, 255) == (510 * x + 254) / 508);
        lemma_shr_u16(t);
    }
    (t >> 8) as u8
}

pub fn n16(x: u8) -> (r: u16)
    ensures
        r as nat == unorm_round(snorm_norm(x as nat, 127), 254, 65535),
{
    let x = norm(x);
    let t: u32 = x as u32 * 16909064 + 32520;
    proof {
        assert(unorm_round(x as nat, 254, 65535) == (131070 * x + 254) / 508);
        lemma_shr_u32(t);
    }
    (t >> 16) as u16
}

/// The bit pattern of the unsigned form times the single-precision number
/// nearest to the reciprocal of the largest unsigned form.
pub open spec fn single_spec(x: nat) -> u32 {
    rounded_bits(snorm_norm(x, 127) * 0x81_0204, 118)
}

/// The value as a single-precision bit pattern in `0..=1`: the unsigned form
/// times the single-precision number nearest to `1/254`, which is
/// `0x81_0204 * 2^-31`.
pub fn uf32_bits(x: u8) -> (bits: u32)
    ensures
        bits == single_spec(x as nat),
        is_rounded(bits, snorm_norm(x as nat, 127) * 0x81_0204, 118),
{
    let x = norm(x);
    round_to_single(x as u64 * 0x81_0204, 118)
}

/// The value as a single-precision bit pattern in `0..=1`, by the product of
/// the unsigned form times 31, which is exact, and the single-precision
/// number nearest to `1/7874`, which is `0x85_2B5F * 2^-36`.
pub fn uf32_exact_bits(x: u8) -> (bits: u32)
    ensures
        bits == rounded_bits((snorm_norm(x as nat, 127) * 31) * 0x85_2B5F, 113),
        is_rounded(bits, (snorm_norm(x as nat, 127) * 31) * 0x85_2B5F, 113),
{
    let x = norm(x);
    round_to_single((x as u64 * 31) * 0x85_2B5F, 113)
}

/// The signed normalised bit pattern nearest to an unsigned normalised
/// value: the value rescaled to `0..=254`, rounded to the nearest, and
/// shifted down by 127 into two's complement.
pub open spec fn from_unorm_spec(x: nat) -> nat {
    let norm = unorm_round(x, 255, 254);
    if norm >= 127 {
        (norm - 127) as nat
    } else {
        (norm + 129) as nat
    }
}

/// The signed normalised bit pattern nearest to an unsigned normalised
/// value.
pub fn from_n8(x: u8) -> (r: u8)
    ensures
        r as nat == from_unorm_spec(x as nat),
        snorm_norm(r as nat, 127) == unorm_round(x as nat, 255, 254),
{
    assert(unorm_round(x as nat, 255, 254) == (508 * x + 255) / 510);
    let norm: u32 = (508 * x as u32 + 255) / 510;
    if norm >= 127 {
        (norm - 127) as u8
    } else {
        (norm + 129) as u8
    }
}

} // verus!
