//! Conversions from 1-bit normalised values.

use vstd::prelude::*;
use crate::decode::convert::unorm_round;
use crate::decode::convert::exact::{is_nearest_single, lemma_n1_is_nearest};

verus! {

pub fn n8(x: u8) -> (r: u8)
    requires
        x <= 1,
    ensures
        r as nat == unorm_round(x as nat, 1, 255),
{
    proof {
        assert(unorm_round(x as nat, 1, 255) == (510 * x + 1) / 2);
    }
    if x == 0 {
        0
    } else {
        u8::MAX
    }
}

pub fn n16(x: u8) -> (r: u16)
    requires
        x <= 1,
    ensures
        r as nat == unorm_round(x as nat, 1, 65535),
{
    proof {
        assert(unorm_round(x as nat, 1, 65535) == (131070 * x + 1) / 2);
    }
    if x == 0 {
        0
    } else {
        u16::MAX
    }
}


/// The bit pattern of 0 or of 1 in single precision.
pub open spec fn single_spec(x: nat) -> u32 {
    if x == 0 {
        0
    } else {
        0x3F80_0000
    }
}

/// 0 or 1 as a single-precision bit pattern.
pub fn f32_bits(x: u8) -> (bits: u32)
    requires
        x <= 1,
    ensures
        bits == single_spec(x as nat),
        is_nearest_single(bits, x as nat, 1),
{
    proof {
        lemma_n1_is_nearest(x as nat);
    }
    if x == 0 {
        0
    } else {
        0x3F80_0000
    }
}

} // verus!
