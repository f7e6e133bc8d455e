//! The number formats that an encoded channel can have, and what a raw
//! channel value becomes in each decoded precision.

use vstd::prelude::*;
use crate::decode::convert::{fp, fp10, fp11, fp16, n1, n10, n16, n2, n4, n5, n6, n8, s16, s8, xr10};
use crate::decode::convert::{snorm_norm, unorm_round};
use crate::pixel::Precision;

verus! {

/// The number format of one encoded channel.
#[derive(Debug, Clone, Copy, PartialEq, Eq, Structural)]
pub enum Num {
    /// Unsigned normalised, 1 bit.
    N1,
    /// Unsigned normalised, 2 bits.
    N2,
    /// Unsigned normalised, 4 bits.
    N4,
    /// Unsigned normalised, 5 bits.
    N5,
    /// Unsigned normalised, 6 bits.
    N6,
    /// Unsigned normalised, 8 bits.
    N8,
    /// Unsigned normalised, 10 bits.
    N10,
    /// Unsigned normalised, 16 bits.
    N16,
    /// Signed normalised, 8 bits.
    S8,
    /// Signed normalised, 16 bits.
    S16,
    /// Extended range with bias, 10 bits.
    Xr10,
    /// Floating point, 10 bits.
    Fp10,
    /// Floating point, 11 bits.
    Fp11,
    /// Floating point, 16 bits.
    Fp16,
    /// Floating point, 32 bits.
    Fp32,
    /// The channel is not stored: it is 0.
    Zero,
    /// The channel is not stored: it is one half.
    Half,
    /// The channel is not stored: it is 1.
    One,
}

impl Num {
    /// Number of raw values of the format: two to the number of its bits.
    /// A channel that is not stored has one raw value, 0.
    pub open spec fn raw_count(self) -> nat {
        match self {
            Num::N1 => 2,
            Num::N2 => 4,
            Num::N4 => 16,
            Num::N5 => 32,
            Num::N6 => 64,
            Num::N8 => 256,
            Num::N10 => 1024,
            Num::N16 => 65536,
            Num::S8 => 256,
            Num::S16 => 65536,
            Num::Xr10 => 1024,
            Num::Fp10 => 1024,
            Num::Fp11 => 2048,
            Num::Fp16 => 65536,
            Num::Fp32 => 0x1_0000_0000,
            Num::Zero => 1,
            Num::Half => 1,
            Num::One => 1,
        }
    }
}

/// 1 in a precision.
pub open spec fn one_value(precision: Precision) -> u32 {
    match precision {
        Precision::U8 => 255,
        Precision::U16 => 65535,
        Precision::F32 => 0x3F80_0000,
    }
}

/// What the raw value `raw` of number format `num` is as an 8-bit
/// normalised value.
pub open spec fn to_u8_spec(num: Num, raw: nat) -> nat {
    match num {
        Num::N1 => unorm_round(raw, 1, 255),
        Num::N2 => unorm_round(raw, 3, 255),
        Num::N4 => unorm_round(raw, 15, 255),
        Num::N5 => unorm_round(raw, 31, 255),
        Num::N6 => unorm_round(raw, 63, 255),
        Num::N8 => raw,
        Num::N10 => unorm_round(raw, 1023, 255),
        Num::N16 => unorm_round(raw, 65535, 255),
        Num::S8 => unorm_round(snorm_norm(raw, 127), 254, 255),
        Num::S16 => unorm_round(snorm_norm(raw, 32767), 65534, 255),
        Num::Xr10 => unorm_round(xr10::xr10_clamped(raw), 510, 255),
        Num::Fp10 => fp10::unorm_spec(raw as u16, 255),
        Num::Fp11 => fp11::unorm_spec(raw as u16, 255),
        Num::Fp16 => fp16::unorm_spec(raw as u16, 255),
        Num::Fp32 => fp::unorm_spec(raw as u32, 255),
        Num::Zero => 0,
        Num::Half => 128,
        Num::One => 255,
    }
}

/// What the raw value `raw` of number format `num` is as a 16-bit
/// normalised value.
pub open spec fn to_u16_spec(num: Num, raw: nat) -> nat {
    match num {
        Num::N1 => unorm_round(raw, 1, 65535),
        Num::N2 => unorm_round(raw, 3, 65535),
        Num::N4 => unorm_round(raw, 15, 65535),
        Num::N5 => unorm_round(raw, 31, 65535),
        Num::N6 => unorm_round(raw, 63, 65535),
        Num::N8 => unorm_round(raw, 255, 65535),
        Num::N10 => unorm_round(raw, 1023, 65535),
        Num::N16 => raw,
        Num::S8 => unorm_round(snorm_norm(raw, 127), 254, 65535),
        Num::S16 => unorm_round(snorm_norm(raw, 32767), 65534, 65535),
        Num::Xr10 => unorm_round(xr10::xr10_clamped(raw), 510, 65535),
        Num::Fp10 => fp10::unorm_spec(raw as u16, 65535),
        Num::Fp11 => fp11::unorm_spec(raw as u16, 65535),
        Num::Fp16 => fp16::unorm_spec(raw as u16, 65535),
        Num::Fp32 => fp::unorm_spec(raw as u32, 65535),
        Num::Zero => 0,
        Num::Half => 32768,
        Num::One => 65535,
    }
}

/// What the raw value `raw` of number format `num` is as a single-precision
/// bit pattern. Normalised values lie in `0..=1`, signed ones too.
pub open spec fn to_single_spec(num: Num, raw: nat) -> u32 {
    match num {
        Num::N1 => n1::single_spec(raw),
        Num::N2 => n2::single_spec(raw),
        Num::N4 => n4::single_spec(raw),
        Num::N5 => n5::single_spec(raw),
        Num::N6 => n6::single_spec(raw),
        Num::N8 => n8::single_spec(raw),
        Num::N10 => n10::single_spec(raw),
        Num::N16 => n16::single_spec(raw),
        Num::S8 => s8::single_spec(raw),
        Num::S16 => s16::single_spec(raw),
        Num::Xr10 => xr10::single_spec(raw as u16),
        Num::Fp10 => fp10::single_spec(raw as u16),
        Num::Fp11 => fp11::single_spec(raw as u16),
        Num::Fp16 => fp16::single_spec(raw as u16),
        Num::Fp32 => raw as u32,
        Num::Zero => 0,
        Num::Half => 0x3F00_0000,
        Num::One => 0x3F80_0000,
    }
}

/// What the raw value `raw` of number format `num` is in a precision: a
/// normalised integer, or a single-precision bit pattern.
pub open spec fn channel_value(num: Num, raw: nat, precision: Precision) -> u32 {
    match precision {
        Precision::U8 => to_u8_spec(num, raw) as u32,
        Precision::U16 => to_u16_spec(num, raw) as u32,
        Precision::F32 => to_single_spec(num, raw),
    }
}

fn to_u8(num: Num, raw: u32) -> (r: u8)
    requires
        raw < num.raw_count(),
    ensures
        r as nat == to_u8_spec(num, raw as nat),
{
    match num {
        Num::N1 => n1::n8(raw as u8),
        Num::N2 => n2::n8(raw as u8),
        Num::N4 => n4::n8(raw as u8),
        Num::N5 => n5::n8(raw as u8),
        Num::N6 => n6::n8(raw as u8),
        Num::N8 => raw as u8,
        Num::N10 => n10::n8(raw as u16),
        Num::N16 => n16::n8(raw as u16),
        Num::S8 => s8::n8(raw as u8),
        Num::S16 => s16::n8(raw as u16),
        Num::Xr10 => xr10::n8(raw as u16),
        Num::Fp10 => fp10::n8(raw as u16),
        Num::Fp11 => fp11::n8(raw as u16),
        Num::Fp16 => fp16::n8(raw as u16),
        Num::Fp32 => fp::n8(raw),
        Num::Zero => 0,
        Num::Half => 128,
        Num::One => 255,
    }
}

fn to_u16(num: Num, raw: u32) -> (r: u16)
    requires
        raw < num.raw_count(),
    ensures
        r as nat == to_u16_spec(num, raw as nat),
{
    match num {
        Num::N1 => n1::n16(raw as u8),
        Num::N2 => n2::n16(raw as u8),
        Num::N4 => n4::n16(raw as u8),
        Num::N5 => n5::n16(raw as u8),
        Num::N6 => n6::n16(raw as u8),
        Num::N8 => n8::n16(raw as u8),
        Num::N10 => n10::n16(raw as u16),
        Num::N16 => raw as u16,
        Num::S8 => s8::n16(raw as u8),
        Num::S16 => s16::n16(raw as u16),
        Num::Xr10 => xr10::n16(raw as u16),
        Num::Fp10 => fp10::n16(raw as u16),
        Num::Fp11 => fp11::n16(raw as u16),
        Num::Fp16 => fp16::n16(raw as u16),
        Num::Fp32 => fp::n16(raw),
        Num::Zero => 0,
        Num::Half => 32768,
        Num::One => 65535,
    }
}

fn to_single(num: Num, raw: u32) -> (r: u32)
    requires
        raw < num.raw_count(),
    ensures
        r == to_single_spec(num, raw as nat),
{
    match num {
        Num::N1 => n1::f32_bits(raw as u8),
        Num::N2 => n2::f32_bits(raw as u8),
        Num::N4 => n4::f32_bits(raw as u8),
        Num::N5 => n5::f32_bits(raw as u8),
        Num::N6 => n6::f32_bits(raw as u8),
        Num::N8 => n8::f32_bits(raw as u8),
        Num::N10 => n10::f32_bits(raw as u16),
        Num::N16 => n16::f32_bits(raw as u16),
        Num::S8 => s8::uf32_bits(raw as u8),
        Num::S16 => s16::uf32_bits(raw as u16),
        Num::Xr10 => xr10::f32_bits(raw as u16),
        Num::Fp10 => fp10::f32_bits(raw as u16),
        Num::Fp11 => fp11::f32_bits(raw as u16),
        Num::Fp16 => fp16::f32_bits(raw as u16),
        Num::Fp32 => raw,
        Num::Zero => 0,
        Num::Half => 0x3F00_0000,
        Num::One => 0x3F80_0000,
    }
}

/// Converts the raw value `raw` of number format `num` to a precision.
pub fn convert_channel(num: Num, raw: u32, precision: Precision) -> (r: u32)
    requires
        raw < num.raw_count(),
    ensures
        r == channel_value(num, raw as nat, precision),
{
    match precision {
        Precision::U8 => to_u8(num, raw) as u32,
        Precision::U16 => to_u16(num, raw) as u32,
        Precision::F32 => to_single(num, raw),
    }
}

} // verus!
