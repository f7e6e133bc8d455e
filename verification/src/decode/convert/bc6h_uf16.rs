//! Conversions from the half-precision numbers of unsigned BC6H blocks:
//! never negative, never infinite, never a NaN.

use vstd::prelude::*;
use crate::decode::convert::fp16;

verus! {

/// The patterns that an unsigned BC6H block can hold: no sign bit, and an
/// exponent below 31.
pub open spec fn valid(x: u16) -> bool {
    x < 0x7C00
}

pub fn n8(x: u16) -> (r: u8)
    requires
        valid(x),
    ensures
        r as nat == fp16::unorm_spec(x, 255),
{
    fp16::n8(x)
}

pub fn n16(x: u16) -> (r: u16)
    requires
        valid(x),
    ensures
        r as nat == fp16::unorm_spec(x, 65535),
{
    fp16::n16(x)
}

/// The single-precision number with the same value, as its bit pattern.
pub fn f32_bits(x: u16) -> (bits: u32)
    requires
        valid(x),
    ensures
        bits == fp16::single_spec(x),
        fp16::is_single_of(bits, x),
{
    fp16::f32_bits(x)
}

} // verus!
