//! Conversions from single-precision numbers, given as their bit patterns,
//! to normalised integers.
//!
//! The number is multiplied by the largest output, a half is added, and the
//! fraction is dropped; both steps round to single precision. Negative
//! numbers and NaN give 0, numbers above 1 and positive infinity give the
//! largest output.

use vstd::prelude::*;
use vstd::arithmetic::power2::{lemma2_to64_rest, lemma_pow2_strictly_increases, pow2};
use vstd::bits::lemma_u64_shl_is_mul;
use crate::bits::{lemma_mask_u32, lemma_shr_u32};
use crate::decode::convert::single::{round_single, sp_round, sp_round_bound};

verus! {

/// The exponent field of a bit pattern.
pub open spec fn exponent(bits: u32) -> nat {
    (bits as nat / 0x80_0000) % 256
}

/// The mantissa field of a bit pattern.
pub open spec fn mantissa(bits: u32) -> nat {
    bits as nat % 0x80_0000
}

/// The number with bit pattern `bits` as a normalised integer of `0..=max`.
///
/// A number below `2^-17` gives 0 and a number of at least 2 gives `max`,
/// whatever `max` of at most 16 bits. Between these the number is
/// `sig * 2^(e - 150)` with a significand `sig` of 24 bits, and in units of
/// `2^(e - 150)` the result is `round24(round24(sig * max) + half) / one`,
/// where `half` and `one` are 0.5 and 1 in that unit.
pub open spec fn unorm_spec(bits: u32, max: nat) -> nat {
    let e = exponent(bits);
    if bits >= 0x8000_0000 {
        0
    } else if e == 255 {
        if mantissa(bits) == 0 {
            max
        } else {
            0
        }
    } else if e >= 128 {
        max
    } else if e <= 109 {
        0
    } else {
        let sig = mantissa(bits) + 0x80_0000;
        let half = pow2((149 - e) as nat);
        let v = sp_round(sp_round(sig * max) + half) / (2 * half);
        if v > max {
            max
        } else {
            v
        }
    }
}

/// The rounding of the numbers between `2^-17` and 2: `shift` is the
/// exponent of a half in units of the number's last place.
fn round_between(sig: u64, shift: u64, max: u16) -> (r: u16)
    requires
        sig < 0x100_0000,
        22 <= shift <= 39,
    ensures
        r as nat == ({
            let half = pow2(shift as nat);
            let v = sp_round(sp_round(sig as nat * max as nat) + half) / (2 * half);
            if v > max {
                max as nat
            } else {
                v
            }
        }),
{
    proof {
        lemma2_to64_rest();
        vstd::arithmetic::power2::lemma_pow2_pos(shift as nat);
        lemma_pow2_strictly_increases(shift as nat, 40);
        lemma_u64_shl_is_mul(1, shift);
        assert(sig * max < 0x100_0000 * 0x1_0000) by (nonlinear_arith)
            requires
                sig < 0x100_0000,
                max < 0x1_0000,
        ;
        sp_round_bound(sig as nat * max as nat, 40);
    }
    let half: u64 = 1u64 << shift;
    let product = round_single(sig * max as u64);
    let v = round_single(product + half) / (2 * half);
    if v > max as u64 {
        max
    } else {
        v as u16
    }
}

/// The number with bit pattern `bits` as a normalised integer of `0..=max`.
pub fn to_unorm(bits: u32, max: u16) -> (r: u16)
    ensures
        r as nat == unorm_spec(bits, max as nat),
        r <= max,
{
    proof {
        lemma_shr_u32(bits);
        lemma_mask_u32(bits);
        lemma_mask_u32(bits >> 23);
    }
    let e: u32 = (bits >> 23) & 0xFF;
    let m: u32 = bits & 0x7F_FFFF;
    if bits >= 0x8000_0000 {
        0
    } else if e == 255 {
        if m == 0 {
            max
        } else {
            0
        }
    } else if e >= 128 {
        max
    } else if e <= 109 {
        0
    } else {
        round_between(m as u64 + 0x80_0000, (149 - e) as u64, max)
    }
}

pub fn n8(bits: u32) -> (r: u8)
    ensures
        r as nat == unorm_spec(bits, 255),
{
    to_unorm(bits, 255) as u8
}

pub fn n16(bits: u32) -> (r: u16)
    ensures
        r as nat == unorm_spec(bits, 65535),
{
    to_unorm(bits, 65535)
}

} // verus!
