//! Conversions from 10-bit luma and chroma to red, green and blue. Black
//! is at a luma of 64 and the chroma is neutral at 512.

use vstd::prelude::*;
use crate::decode::convert::fp;
use crate::decode::convert::yuv::{rgb, to_unit_bits, unit_channel};

verus! {

/// Channel `i` of the colour as a single-precision bit pattern in the unit
/// interval: the colour in the scale of the input times the
/// single-precision number nearest to `1/1023`.
pub open spec fn single_spec(y: int, u: int, v: int, i: int) -> u32 {
    unit_channel(rgb(y - 64, u - 512, v - 512, i), 0x80_2008, 116)
}

/// Channel `i` of the colour at 8 bits: the single-precision colour in the
/// unit interval, brought to 8 bits.
pub open spec fn n8_spec(y: int, u: int, v: int, i: int) -> nat {
    fp::unorm_spec(single_spec(y, u, v, i), 255)
}

/// Channel `i` of the colour at 16 bits: the single-precision colour in the
/// unit interval, brought to 16 bits.
pub open spec fn n16_spec(y: int, u: int, v: int, i: int) -> nat {
    fp::unorm_spec(single_spec(y, u, v, i), 65535)
}

pub fn n8(yuv: [u16; 3]) -> (r: [u8; 3])
    ensures
        forall|i: int|
            0 <= i < 3 ==> (#[trigger] r[i]) as nat == n8_spec(
                yuv[0] as int,
                yuv[1] as int,
                yuv[2] as int,
                i,
            ),
{
    let bits = f32_bits(yuv);
    [fp::n8(bits[0]), fp::n8(bits[1]), fp::n8(bits[2])]
}

pub fn n16(yuv: [u16; 3]) -> (r: [u16; 3])
    ensures
        forall|i: int|
            0 <= i < 3 ==> (#[trigger] r[i]) as nat == n16_spec(
                yuv[0] as int,
                yuv[1] as int,
                yuv[2] as int,
                i,
            ),
{
    let bits = f32_bits(yuv);
    [fp::n16(bits[0]), fp::n16(bits[1]), fp::n16(bits[2])]
}

/// Red, green and blue as single-precision bit patterns in the unit
/// interval.
pub fn f32_bits(yuv: [u16; 3]) -> (r: [u32; 3])
    ensures
        forall|i: int|
            0 <= i < 3 ==> #[trigger] r[i] == single_spec(
                yuv[0] as int,
                yuv[1] as int,
                yuv[2] as int,
                i,
            ),
{
    to_unit_bits(
        yuv[0] as i32 - 64,
        yuv[1] as i32 - 512,
        yuv[2] as i32 - 512,
        0x80_2008,
        116,
    )
}

} // verus!
