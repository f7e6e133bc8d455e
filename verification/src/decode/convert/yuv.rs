//! The conversion from luma and chroma to red, green and blue that the
//! YUV formats share: BT.601 with limited range.
//!
//! With `c` the luma above black and `d`, `e` the chroma around neutral,
//! red is `1.164383 * c + 1.596027 * e`, green is
//! `1.164383 * c - 0.391762 * d - 0.812968 * e`, and blue is
//! `1.164383 * c + 2.017232 * d`, every factor the nearest single-precision
//! number and every operation rounded to single precision, from left to
//! right.

use vstd::prelude::*;
use crate::decode::convert::soft::{negated, sum, times, times_int, unit_bits, Number, Soft};

verus! {

/// The significand of the factor of luma, `1.164383`.
pub const LUMA: u64 = 0x95_0A81;

/// The significand of the factor of red chroma in red, `1.596027`.
pub const RED_CHROMA: u64 = 0xCC_4A9D;

/// The significand of the factor of blue chroma in green, `0.391762`.
pub const GREEN_BLUE_CHROMA: u64 = 0xC8_9507;

/// The significand of the factor of red chroma in green, `0.812968`.
pub const GREEN_RED_CHROMA: u64 = 0xD0_1EAC;

/// The significand of the factor of blue chroma in blue, `2.017232`.
pub const BLUE_CHROMA: u64 = 0x81_1A54;

/// Red, green (1) or blue (2) from luma `c` above black and chroma `d` and
/// `e` around neutral, in the scale of the input.
pub open spec fn rgb(c: int, d: int, e: int, channel: int) -> Number {
    let luma = times_int(0x95_0A81, 126, c);
    if channel == 0 {
        sum(luma, times_int(0xCC_4A9D, 126, e))
    } else if channel == 1 {
        sum(
            sum(luma, negated(times_int(0xC8_9507, 124, d))),
            negated(times_int(0xD0_1EAC, 125, e)),
        )
    } else {
        sum(luma, times_int(0x81_1A54, 127, d))
    }
}

/// A colour channel scaled by the constant `significand * 2^(weight - 149)`
/// and limited to the unit interval, as a single-precision bit pattern.
pub open spec fn unit_channel(value: Number, significand: nat, weight: nat) -> u32 {
    if value.significand == 0 {
        0
    } else {
        unit_bits(times(value, significand, weight))
    }
}

/// Red, green and blue from luma `c` above black and chroma `d` and `e`
/// around neutral.
pub fn to_rgb(c: i32, d: i32, e: i32) -> (r: [Soft; 3])
    requires
        -0x1_0000 <= c <= 0x1_0000,
        -0x1_0000 <= d <= 0x1_0000,
        -0x1_0000 <= e <= 0x1_0000,
    ensures
        forall|i: int| 0 <= i < 3 ==> (#[trigger] r[i])@ == rgb(c as int, d as int, e as int, i),
        forall|i: int| 0 <= i < 3 ==> (#[trigger] r[i]).within(124, 148),
{
    let luma = Soft::times_int(LUMA, 126, c);
    let red = luma.plus(Soft::times_int(RED_CHROMA, 126, e), Ghost(124), Ghost(144));
    let green = luma.plus(
        Soft::times_int(GREEN_BLUE_CHROMA, 124, d).negated(),
        Ghost(124),
        Ghost(144),
    ).plus(Soft::times_int(GREEN_RED_CHROMA, 125, e).negated(), Ghost(124), Ghost(146));
    let blue = luma.plus(Soft::times_int(BLUE_CHROMA, 127, d), Ghost(124), Ghost(144));
    [red, green, blue]
}

/// Red, green and blue scaled by the constant
/// `significand * 2^(weight - 149)` and limited to the unit interval, as
/// single-precision bit patterns.
pub fn to_unit_bits(c: i32, d: i32, e: i32, significand: u64, weight: u32) -> (r: [u32; 3])
    requires
        -0x1_0000 <= c <= 0x1_0000,
        -0x1_0000 <= d <= 0x1_0000,
        -0x1_0000 <= e <= 0x1_0000,
        0 < significand < 0x100_0000,
        100 <= weight <= 125,
    ensures
        forall|i: int|
            0 <= i < 3 ==> #[trigger] r[i] == unit_channel(
                rgb(c as int, d as int, e as int, i),
                significand as nat,
                weight as nat,
            ),
{
    let rgb = to_rgb(c, d, e);
    [
        rgb[0].times(significand, weight, Ghost(124), Ghost(148)).unit_bits(),
        rgb[1].times(significand, weight, Ghost(124), Ghost(148)).unit_bits(),
        rgb[2].times(significand, weight, Ghost(124), Ghost(148)).unit_bits(),
    ]
}

} // verus!
