//! Conversions between the number formats of encoded channels and the three
//! decoded precisions.
//!
//! Every function here is total on the bit patterns of its input width and
//! has no state. Single-precision results are handed out as their IEEE-754
//! bit patterns.

pub mod bc6h_uf16;
pub mod exact;
pub mod exact_n16;
pub mod fp;
pub mod fp10;
pub mod fp11;
pub mod fp16;
pub mod fused;
pub mod lossless;
pub mod minifloat;
pub mod n1;
pub mod n10;
pub mod n16;
pub mod n2;
pub mod n4;
pub mod n5;
pub mod n6;
pub mod n8;
pub mod rgb9995f;
pub mod rounding;
pub mod s16;
pub mod s8;
pub mod single;
pub mod soft;
pub mod xr10;
pub mod yuv;
pub mod yuv10;
pub mod yuv16;
pub mod yuv8;

use vstd::prelude::*;
use crate::bits::{lemma_mask_u16, lemma_shr_u16, lemma_shr_u32};
use crate::decode::convert::single::rounded_bits;

verus! {

/// `x / from_max` rescaled to `to_max` and rounded to the nearest whole
/// number, halves upwards: `floor(x * to_max / from_max + 1/2)`.
pub open spec fn unorm_round(x: nat, from_max: nat, to_max: nat) -> nat
    recommends
        from_max > 0,
{
    (2 * x * to_max + from_max) / (2 * from_max)
}

/// The unsigned form of an `n`-bit signed normalised value, where `max` is
/// `2^(n-1) - 1`: the two's complement pattern `x` read as a signed number,
/// the lowest number raised to `-max`, then shifted by `max` into
/// `0..=2*max`.
pub open spec fn snorm_norm(x: nat, max: nat) -> nat {
    let signed: int = if x > max { x - 2 * (max + 1) } else { x as int };
    if signed < -(max as int) {
        0
    } else {
        (signed + max) as nat
    }
}

/// A pixel of three channels packed into 16 bits: blue in the low 5 bits,
/// green in the next 6, red in the high 5.
#[derive(Debug, Clone, Copy)]
pub struct B5G6R5 {
    pub r5: u16,
    pub g6: u16,
    pub b5: u16,
}

impl B5G6R5 {
    /// Every channel lies within its bit width.
    pub open spec fn wf(self) -> bool {
        self.r5 <= 31 && self.g6 <= 63 && self.b5 <= 31
    }

    /// Reads the pixel from its two bytes, low byte first.
    pub fn from_le_bytes(bytes: [u8; 2]) -> (p: Self)
        ensures
            p == Self::unpack(bytes[0] as nat + 256 * (bytes[1] as nat)),
            p.wf(),
    {
        Self::from_u16(bytes[0] as u16 + 256 * (bytes[1] as u16))
    }

    /// The three fields of the 16-bit word `u`.
    pub open spec fn unpack(u: nat) -> Self {
        B5G6R5 { b5: (u % 32) as u16, g6: ((u / 32) % 64) as u16, r5: ((u / 2048) % 32) as u16 }
    }

    pub fn from_u16(u: u16) -> (p: Self)
        ensures
            p == Self::unpack(u as nat),
            p.wf(),
    {
        proof {
            lemma_shr_u16(u);
            lemma_mask_u16(u);
            lemma_mask_u16(u >> 5);
            lemma_mask_u16(u >> 11);
        }
        B5G6R5 { b5: u & 0x1F, g6: (u >> 5) & 0x3F, r5: (u >> 11) & 0x1F }
    }

    /// Red, green, blue at 8 bits each.
    pub fn to_n8(self) -> (c: [u8; 3])
        requires
            self.wf(),
        ensures
            c[0] as nat == unorm_round(self.r5 as nat, 31, 255),
            c[1] as nat == unorm_round(self.g6 as nat, 63, 255),
            c[2] as nat == unorm_round(self.b5 as nat, 31, 255),
    {
        [n5::n8(self.r5 as u8), n6::n8(self.g6 as u8), n5::n8(self.b5 as u8)]
    }

    /// Red, green, blue at 16 bits each.
    pub fn to_n16(self) -> (c: [u16; 3])
        requires
            self.wf(),
        ensures
            c[0] as nat == unorm_round(self.r5 as nat, 31, 65535),
            c[1] as nat == unorm_round(self.g6 as nat, 63, 65535),
            c[2] as nat == unorm_round(self.b5 as nat, 31, 65535),
    {
        [n5::n16(self.r5 as u8), n6::n16(self.g6 as u8), n5::n16(self.b5 as u8)]
    }

    /// Red, green, blue as single-precision bit patterns.
    pub fn to_f32_bits(self) -> (c: [u32; 3])
        requires
            self.wf(),
        ensures
            c[0] == rounded_bits(self.r5 as nat * 0x84_2108, 121),
            c[1] == rounded_bits(self.g6 as nat * 0x82_0821, 120),
            c[2] == rounded_bits(self.b5 as nat * 0x84_2108, 121),
    {
        [
            n5::f32_bits(self.r5 as u8),
            n6::f32_bits(self.g6 as u8),
            n5::f32_bits(self.b5 as u8),
        ]
    }

    /// The 8-bit colour nearest to `self * 2/3 + color * 1/3`, channel by
    /// channel, halves rounded upwards.
    pub fn one_third_color_rgb8(self, color: Self) -> (c: [u8; 3])
        requires
            self.wf(),
            color.wf(),
        ensures
            c[0] as nat == unorm_round((2 * self.r5 + color.r5) as nat, 93, 255),
            c[1] as nat == unorm_round((2 * self.g6 + color.g6) as nat, 189, 255),
            c[2] as nat == unorm_round((2 * self.b5 + color.b5) as nat, 93, 255),
    {
        [
            third_5(self.r5 * 2 + color.r5),
            third_6(self.g6 * 2 + color.g6),
            third_5(self.b5 * 2 + color.b5),
        ]
    }

    /// The 8-bit colour nearest to `self * 1/2 + color * 1/2`, channel by
    /// channel, halves rounded upwards.
    pub fn mid_color_rgb8(self, color: Self) -> (c: [u8; 3])
        requires
            self.wf(),
            color.wf(),
        ensures
            c[0] as nat == unorm_round((self.r5 + color.r5) as nat, 62, 255),
            c[1] as nat == unorm_round((self.g6 + color.g6) as nat, 126, 255),
            c[2] as nat == unorm_round((self.b5 + color.b5) as nat, 62, 255),
    {
        [
            half_5(self.r5 + color.r5),
            half_6(self.g6 + color.g6),
            half_5(self.b5 + color.b5),
        ]
    }
}

/// A third of a sum of three 5-bit values, at 8 bits.
fn third_5(sum: u16) -> (r: u8)
    requires
        sum <= 93,
    ensures
        r as nat == unorm_round(sum as nat, 93, 255),
{
    let t: u16 = sum * 351 + 61;
    proof {
        lemma_shr_u16(t);
        assert(unorm_round(sum as nat, 93, 255) == (510 * sum + 93) / 186);
    }
    (t >> 7) as u8
}

/// A third of a sum of three 6-bit values, at 8 bits.
fn third_6(sum: u16) -> (r: u8)
    requires
        sum <= 189,
    ensures
        r as nat == unorm_round(sum as nat, 189, 255),
{
    let t: u32 = sum as u32 * 2763 + 1039;
    proof {
        lemma_shr_u32(t);
        assert(unorm_round(sum as nat, 189, 255) == (510 * sum + 189) / 378);
    }
    (t >> 11) as u8
}

/// Half of a sum of two 5-bit values, at 8 bits.
fn half_5(sum: u16) -> (r: u8)
    requires
        sum <= 62,
    ensures
        r as nat == unorm_round(sum as nat, 62, 255),
{
    let t: u16 = sum * 1053 + 125;
    proof {
        lemma_shr_u16(t);
        assert(unorm_round(sum as nat, 62, 255) == (510 * sum + 62) / 124);
    }
    (t >> 8) as u8
}

/// Half of a sum of two 6-bit values, at 8 bits.
fn half_6(sum: u16) -> (r: u8)
    requires
        sum <= 126,
    ensures
        r as nat == unorm_round(sum as nat, 126, 255),
{
    let t: u32 = sum as u32 * 4145 + 1019;
    proof {
        lemma_shr_u32(t);
        assert(unorm_round(sum as nat, 126, 255) == (510 * sum + 126) / 252);
    }
    (t >> 11) as u8
}

/// A pixel of four channels packed into 16 bits: blue in the low 5 bits,
/// then green and red at 5 bits each, alpha in the top bit.
#[derive(Debug, Clone, Copy)]
pub struct B5G5R5A1 {
    pub r5: u16,
    pub g5: u16,
    pub b5: u16,
    pub a1: u16,
}

impl B5G5R5A1 {
    /// Every channel lies within its bit width.
    pub open spec fn wf(self) -> bool {
        self.r5 <= 31 && self.g5 <= 31 && self.b5 <= 31 && self.a1 <= 1
    }

    /// The four fields of the 16-bit word `u`.
    pub open spec fn unpack(u: nat) -> Self {
        B5G5R5A1 {
            b5: (u % 32) as u16,
            g5: ((u / 32) % 32) as u16,
            r5: ((u / 1024) % 32) as u16,
            a1: ((u / 32768) % 2) as u16,
        }
    }

    pub fn from_u16(u: u16) -> (p: Self)
        ensures
            p == Self::unpack(u as nat),
            p.wf(),
    {
        proof {
            lemma_shr_u16(u);
            lemma_mask_u16(u);
            lemma_mask_u16(u >> 5);
            lemma_mask_u16(u >> 10);
            lemma_mask_u16(u >> 15);
        }
        B5G5R5A1 {
            b5: u & 0x1F,
            g5: (u >> 5) & 0x1F,
            r5: (u >> 10) & 0x1F,
            a1: (u >> 15) & 0x1,
        }
    }

    /// Red, green, blue, alpha at 8 bits each.
    pub fn to_n8(self) -> (c: [u8; 4])
        requires
            self.wf(),
        ensures
            c[0] as nat == unorm_round(self.r5 as nat, 31, 255),
            c[1] as nat == unorm_round(self.g5 as nat, 31, 255),
            c[2] as nat == unorm_round(self.b5 as nat, 31, 255),
            c[3] as nat == unorm_round(self.a1 as nat, 1, 255),
    {
        [
            n5::n8(self.r5 as u8),
            n5::n8(self.g5 as u8),
            n5::n8(self.b5 as u8),
            n1::n8(self.a1 as u8),
        ]
    }

    /// Red, green, blue, alpha at 16 bits each.
    pub fn to_n16(self) -> (c: [u16; 4])
        requires
            self.wf(),
        ensures
            c[0] as nat == unorm_round(self.r5 as nat, 31, 65535),
            c[1] as nat == unorm_round(self.g5 as nat, 31, 65535),
            c[2] as nat == unorm_round(self.b5 as nat, 31, 65535),
            c[3] as nat == unorm_round(self.a1 as nat, 1, 65535),
    {
        [
            n5::n16(self.r5 as u8),
            n5::n16(self.g5 as u8),
            n5::n16(self.b5 as u8),
            n1::n16(self.a1 as u8),
        ]
    }

    /// Red, green, blue, alpha as single-precision bit patterns.
    pub fn to_f32_bits(self) -> (c: [u32; 4])
        requires
            self.wf(),
        ensures
            c[0] == rounded_bits(self.r5 as nat * 0x84_2108, 121),
            c[1] == rounded_bits(self.g5 as nat * 0x84_2108, 121),
            c[2] == rounded_bits(self.b5 as nat * 0x84_2108, 121),
            c[3] == if self.a1 == 0 { 0u32 } else { 0x3F80_0000u32 },
    {
        [
            n5::f32_bits(self.r5 as u8),
            n5::f32_bits(self.g5 as u8),
            n5::f32_bits(self.b5 as u8),
            n1::f32_bits(self.a1 as u8),
        ]
    }
}

} // verus!
