//! Conversions from 10-bit extended-range values.
//!
//! The input is a 2.8 fixed-point number with a bias of 1.5 (`0x180`) and a
//! scale of 510 per unit: it stands for `(x - 384) / 510`, a number in about
//! `-0.753..=1.253`.

use vstd::prelude::*;
use crate::bits::lemma_shr_u16;
use crate::decode::convert::unorm_round;
use crate::decode::convert::single::{is_rounded, round_to_single, rounded_bits, SIGN_BIT};

verus! {

/// The numerator of the value over 510, limited to the unit interval.
pub open spec fn xr10_clamped(x: nat) -> nat {
    if x <= 384 {
        0
    } else if x >= 894 {
        510
    } else {
        (x - 384) as nat
    }
}

pub fn n8(x: u16) -> (r: u8)
    requires
        x <= 1023,
    ensures
        r as nat == unorm_round(xr10_clamped(x as nat), 510, 255),
{
    let x: i16 = x as i16 - 0x180;
    let x: u16 = if x < 0 {
        0
    } else if x > 510 {
        510
    } else {
        x as u16
    };
    let t: u16 = x + 1;
    proof {
        assert(unorm_round(x as nat, 510, 255) == (510 * x + 510) / 1020);
        lemma_shr_u16(t);
    }
    (t >> 1) as u8
}

pub fn n16(x: u16) -> (r: u16)
    requires
        x <= 1023,
    ensures
        r as nat == unorm_round(xr10_clamped(x as nat), 510, 65535),
{
    let x: i16 = x as i16 - 0x180;
    let x: u16 = if x < 0 {
        0
    } else if x > 510 {
        510
    } else {
        x as u16
    };
    let t: u32 = x as u32 * 8421376 + 65535;
    proof {
        assert(t >> 16 == (131070 * x + 510) / 1020) by (bit_vector)
            requires
                x <= 510,
                t == x as u32 * 8421376 + 65535,
        ;
        assert(unorm_round(x as nat, 510, 65535) == (131070 * x + 510) / 1020);
    }
    (t >> 16) as u16
}

/// The bit pattern of `(x - 384) / 510` in single precision.
pub open spec fn single_spec(x: u16) -> u32 {
    if x >= 384 {
        rounded_bits((x - 384) as nat * 0x80_8081, 117)
    } else {
        (rounded_bits((384 - x) as nat * 0x80_8081, 117) + 0x8000_0000) as u32
    }
}

/// `(x - 384) / 510` as a single-precision bit pattern: the difference times
/// the single-precision number nearest to `1/510`, which is
/// `0x80_8081 * 2^-32`. Below 384 the result is negative.
pub fn f32_bits(x: u16) -> (bits: u32)
    requires
        x <= 1023,
    ensures
        bits == single_spec(x),
        x >= 384 ==> is_rounded(bits, (x - 384) as nat * 0x80_8081, 117),
        x < 384 ==> bits >= 0x8000_0000 && is_rounded(
            (bits - 0x8000_0000) as u32,
            (384 - x) as nat * 0x80_8081,
            117,
        ),
{
    if x >= 0x180 {
        round_to_single((x - 0x180) as u64 * 0x80_8081, 117)
    } else {
        round_to_single((0x180 - x) as u64 * 0x80_8081, 117) + SIGN_BIT
    }
}

} // verus!
