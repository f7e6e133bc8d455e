//! Detection of the surface format from what a header gives: a DXGI
//! format, a four-character code, or a description by bit masks.

use vstd::prelude::*;
use crate::format::Format;
use crate::header::{AlphaMode, Dx10Header, DxgiFormat, FourCC, MaskPixelFormat, PixelFormatFlags};

verus! {

/// The format that a DXGI format stands for. Typeless and sRGB variants
/// stand for the format of their plain variant.
pub open spec fn dxgi_format(dxgi: DxgiFormat) -> Option<Format> {
    match dxgi {
        DxgiFormat::R8G8B8A8_TYPELESS
        | DxgiFormat::R8G8B8A8_UNORM
        | DxgiFormat::R8G8B8A8_UNORM_SRGB => Some(Format::R8G8B8A8_UNORM),
        DxgiFormat::R8G8B8A8_SNORM => Some(Format::R8G8B8A8_SNORM),
        DxgiFormat::B8G8R8A8_TYPELESS
        | DxgiFormat::B8G8R8A8_UNORM
        | DxgiFormat::B8G8R8A8_UNORM_SRGB => Some(Format::B8G8R8A8_UNORM),
        DxgiFormat::B8G8R8X8_TYPELESS
        | DxgiFormat::B8G8R8X8_UNORM
        | DxgiFormat::B8G8R8X8_UNORM_SRGB => Some(Format::B8G8R8X8_UNORM),
        DxgiFormat::B5G6R5_UNORM => Some(Format::B5G6R5_UNORM),
        DxgiFormat::B5G5R5A1_UNORM => Some(Format::B5G5R5A1_UNORM),
        DxgiFormat::B4G4R4A4_UNORM => Some(Format::B4G4R4A4_UNORM),
        DxgiFormat::A4B4G4R4_UNORM => Some(Format::A4B4G4R4_UNORM),
        DxgiFormat::R8_TYPELESS
        | DxgiFormat::R8_UNORM => Some(Format::R8_UNORM),
        DxgiFormat::R8_SNORM => Some(Format::R8_SNORM),
        DxgiFormat::R8G8_UNORM => Some(Format::R8G8_UNORM),
        DxgiFormat::R8G8_SNORM => Some(Format::R8G8_SNORM),
        DxgiFormat::A8_UNORM => Some(Format::A8_UNORM),
        DxgiFormat::R16_TYPELESS
        | DxgiFormat::R16_UNORM => Some(Format::R16_UNORM),
        DxgiFormat::R16_SNORM => Some(Format::R16_SNORM),
        DxgiFormat::R16_FLOAT => Some(Format::R16_FLOAT),
        DxgiFormat::R16G16_TYPELESS
        | DxgiFormat::R16G16_UNORM => Some(Format::R16G16_UNORM),
        DxgiFormat::R16G16_SNORM => Some(Format::R16G16_SNORM),
        DxgiFormat::R16G16_FLOAT => Some(Format::R16G16_FLOAT),
        DxgiFormat::R16G16B16A16_TYPELESS
        | DxgiFormat::R16G16B16A16_UNORM => Some(Format::R16G16B16A16_UNORM),
        DxgiFormat::R16G16B16A16_SNORM => Some(Format::R16G16B16A16_SNORM),
        DxgiFormat::R16G16B16A16_FLOAT => Some(Format::R16G16B16A16_FLOAT),
        DxgiFormat::R10G10B10A2_TYPELESS
        | DxgiFormat::R10G10B10A2_UNORM => Some(Format::R10G10B10A2_UNORM),
        DxgiFormat::R11G11B10_FLOAT => Some(Format::R11G11B10_FLOAT),
        DxgiFormat::R9G9B9E5_SHAREDEXP => Some(Format::R9G9B9E5_SHAREDEXP),
        DxgiFormat::R32_TYPELESS
        | DxgiFormat::R32_FLOAT => Some(Format::R32_FLOAT),
        DxgiFormat::R32G32_TYPELESS
        | DxgiFormat::R32G32_FLOAT => Some(Format::R32G32_FLOAT),
        DxgiFormat::R32G32B32_TYPELESS
        | DxgiFormat::R32G32B32_FLOAT => Some(Format::R32G32B32_FLOAT),
        DxgiFormat::R32G32B32A32_TYPELESS
        | DxgiFormat::R32G32B32A32_FLOAT => Some(Format::R32G32B32A32_FLOAT),
        DxgiFormat::R10G10B10_XR_BIAS_A2_UNORM => Some(Format::R10G10B10_XR_BIAS_A2_UNORM),
        DxgiFormat::AYUV => Some(Format::AYUV),
        DxgiFormat::Y410 => Some(Format::Y410),
        DxgiFormat::Y416 => Some(Format::Y416),
        DxgiFormat::R8G8_B8G8_UNORM => Some(Format::R8G8_B8G8_UNORM),
        DxgiFormat::G8R8_G8B8_UNORM => Some(Format::G8R8_G8B8_UNORM),
        DxgiFormat::YUY2 => Some(Format::YUY2),
        DxgiFormat::Y210 => Some(Format::Y210),
        DxgiFormat::Y216 => Some(Format::Y216),
        DxgiFormat::R1_UNORM => Some(Format::R1_UNORM),
        DxgiFormat::NV12 => Some(Format::NV12),
        DxgiFormat::P010 => Some(Format::P010),
        DxgiFormat::P016 => Some(Format::P016),
        DxgiFormat::BC1_TYPELESS
        | DxgiFormat::BC1_UNORM
        | DxgiFormat::BC1_UNORM_SRGB => Some(Format::BC1_UNORM),
        DxgiFormat::BC2_TYPELESS
        | DxgiFormat::BC2_UNORM
        | DxgiFormat::BC2_UNORM_SRGB => Some(Format::BC2_UNORM),
        DxgiFormat::BC3_TYPELESS
        | DxgiFormat::BC3_UNORM
        | DxgiFormat::BC3_UNORM_SRGB => Some(Format::BC3_UNORM),
        DxgiFormat::BC4_TYPELESS
        | DxgiFormat::BC4_UNORM => Some(Format::BC4_UNORM),
        DxgiFormat::BC4_SNORM => Some(Format::BC4_SNORM),
        DxgiFormat::BC5_TYPELESS
        | DxgiFormat::BC5_UNORM => Some(Format::BC5_UNORM),
        DxgiFormat::BC5_SNORM => Some(Format::BC5_SNORM),
        DxgiFormat::BC6H_TYPELESS
        | DxgiFormat::BC6H_UF16 => Some(Format::BC6H_UF16),
        DxgiFormat::BC6H_SF16 => Some(Format::BC6H_SF16),
        DxgiFormat::BC7_TYPELESS
        | DxgiFormat::BC7_UNORM
        | DxgiFormat::BC7_UNORM_SRGB => Some(Format::BC7_UNORM),
        _ => None,
    }
}

/// The format that a DXGI format stands for.
pub fn dxgi_format_to_supported(dxgi: DxgiFormat) -> (r: Option<Format>)
    ensures
        r == dxgi_format(dxgi),
{
    match dxgi {
        DxgiFormat::R8G8B8A8_TYPELESS
        | DxgiFormat::R8G8B8A8_UNORM
        | DxgiFormat::R8G8B8A8_UNORM_SRGB => Some(Format::R8G8B8A8_UNORM),
        DxgiFormat::R8G8B8A8_SNORM => Some(Format::R8G8B8A8_SNORM),
        DxgiFormat::B8G8R8A8_TYPELESS
        | DxgiFormat::B8G8R8A8_UNORM
        | DxgiFormat::B8G8R8A8_UNORM_SRGB => Some(Format::B8G8R8A8_UNORM),
        DxgiFormat::B8G8R8X8_TYPELESS
        | DxgiFormat::B8G8R8X8_UNORM
        | DxgiFormat::B8G8R8X8_UNORM_SRGB => Some(Format::B8G8R8X8_UNORM),
        DxgiFormat::B5G6R5_UNORM => Some(Format::B5G6R5_UNORM),
        DxgiFormat::B5G5R5A1_UNORM => Some(Format::B5G5R5A1_UNORM),
        DxgiFormat::B4G4R4A4_UNORM => Some(Format::B4G4R4A4_UNORM),
        DxgiFormat::A4B4G4R4_UNORM => Some(Format::A4B4G4R4_UNORM),
        DxgiFormat::R8_TYPELESS
        | DxgiFormat::R8_UNORM => Some(Format::R8_UNORM),
        DxgiFormat::R8_SNORM => Some(Format::R8_SNORM),
        DxgiFormat::R8G8_UNORM => Some(Format::R8G8_UNORM),
        DxgiFormat::R8G8_SNORM => Some(Format::R8G8_SNORM),
        DxgiFormat::A8_UNORM => Some(Format::A8_UNORM),
        DxgiFormat::R16_TYPELESS
        | DxgiFormat::R16_UNORM => Some(Format::R16_UNORM),
        DxgiFormat::R16_SNORM => Some(Format::R16_SNORM),
        DxgiFormat::R16_FLOAT => Some(Format::R16_FLOAT),
        DxgiFormat::R16G16_TYPELESS
        | DxgiFormat::R16G16_UNORM => Some(Format::R16G16_UNORM),
        DxgiFormat::R16G16_SNORM => Some(Format::R16G16_SNORM),
        DxgiFormat::R16G16_FLOAT => Some(Format::R16G16_FLOAT),
        DxgiFormat::R16G16B16A16_TYPELESS
        | DxgiFormat::R16G16B16A16_UNORM => Some(Format::R16G16B16A16_UNORM),
        DxgiFormat::R16G16B16A16_SNORM => Some(Format::R16G16B16A16_SNORM),
        DxgiFormat::R16G16B16A16_FLOAT => Some(Format::R16G16B16A16_FLOAT),
        DxgiFormat::R10G10B10A2_TYPELESS
        | DxgiFormat::R10G10B10A2_UNORM => Some(Format::R10G10B10A2_UNORM),
        DxgiFormat::R11G11B10_FLOAT => Some(Format::R11G11B10_FLOAT),
        DxgiFormat::R9G9B9E5_SHAREDEXP => Some(Format::R9G9B9E5_SHAREDEXP),
        DxgiFormat::R32_TYPELESS
        | DxgiFormat::R32_FLOAT => Some(Format::R32_FLOAT),
        DxgiFormat::R32G32_TYPELESS
        | DxgiFormat::R32G32_FLOAT => Some(Format::R32G32_FLOAT),
        DxgiFormat::R32G32B32_TYPELESS
        | DxgiFormat::R32G32B32_FLOAT => Some(Format::R32G32B32_FLOAT),
        DxgiFormat::R32G32B32A32_TYPELESS
        | DxgiFormat::R32G32B32A32_FLOAT => Some(Format::R32G32B32A32_FLOAT),
        DxgiFormat::R10G10B10_XR_BIAS_A2_UNORM => Some(Format::R10G10B10_XR_BIAS_A2_UNORM),
        DxgiFormat::AYUV => Some(Format::AYUV),
        DxgiFormat::Y410 => Some(Format::Y410),
        DxgiFormat::Y416 => Some(Format::Y416),
        DxgiFormat::R8G8_B8G8_UNORM => Some(Format::R8G8_B8G8_UNORM),
        DxgiFormat::G8R8_G8B8_UNORM => Some(Format::G8R8_G8B8_UNORM),
        DxgiFormat::YUY2 => Some(Format::YUY2),
        DxgiFormat::Y210 => Some(Format::Y210),
        DxgiFormat::Y216 => Some(Format::Y216),
        DxgiFormat::R1_UNORM => Some(Format::R1_UNORM),
        DxgiFormat::NV12 => Some(Format::NV12),
        DxgiFormat::P010 => Some(Format::P010),
        DxgiFormat::P016 => Some(Format::P016),
        DxgiFormat::BC1_TYPELESS
        | DxgiFormat::BC1_UNORM
        | DxgiFormat::BC1_UNORM_SRGB => Some(Format::BC1_UNORM),
        DxgiFormat::BC2_TYPELESS
        | DxgiFormat::BC2_UNORM
        | DxgiFormat::BC2_UNORM_SRGB => Some(Format::BC2_UNORM),
        DxgiFormat::BC3_TYPELESS
        | DxgiFormat::BC3_UNORM
        | DxgiFormat::BC3_UNORM_SRGB => Some(Format::BC3_UNORM),
        DxgiFormat::BC4_TYPELESS
        | DxgiFormat::BC4_UNORM => Some(Format::BC4_UNORM),
        DxgiFormat::BC4_SNORM => Some(Format::BC4_SNORM),
        DxgiFormat::BC5_TYPELESS
        | DxgiFormat::BC5_UNORM => Some(Format::BC5_UNORM),
        DxgiFormat::BC5_SNORM => Some(Format::BC5_SNORM),
        DxgiFormat::BC6H_TYPELESS
        | DxgiFormat::BC6H_UF16 => Some(Format::BC6H_UF16),
        DxgiFormat::BC6H_SF16 => Some(Format::BC6H_SF16),
        DxgiFormat::BC7_TYPELESS
        | DxgiFormat::BC7_UNORM
        | DxgiFormat::BC7_UNORM_SRGB => Some(Format::BC7_UNORM),
        _ => None,
    }
}

/// The DXGI format that a four-character code stands for. Besides the tags
/// of four letters, some writers store one of a few small numbers.
pub open spec fn four_cc_dxgi(four_cc: FourCC) -> Option<DxgiFormat> {
    let c = four_cc.0;
    if c == FourCC::DXT1 {
        Some(DxgiFormat::BC1_UNORM)
    } else if c == FourCC::DXT3 {
        Some(DxgiFormat::BC2_UNORM)
    } else if c == FourCC::DXT5 {
        Some(DxgiFormat::BC3_UNORM)
    } else if c == FourCC::ATI1 {
        Some(DxgiFormat::BC4_UNORM)
    } else if c == FourCC::BC4U {
        Some(DxgiFormat::BC4_UNORM)
    } else if c == FourCC::BC4S {
        Some(DxgiFormat::BC4_SNORM)
    } else if c == FourCC::ATI2 {
        Some(DxgiFormat::BC5_UNORM)
    } else if c == FourCC::BC5U {
        Some(DxgiFormat::BC5_UNORM)
    } else if c == FourCC::BC5S {
        Some(DxgiFormat::BC5_SNORM)
    } else if c == FourCC::RGBG {
        Some(DxgiFormat::R8G8_B8G8_UNORM)
    } else if c == FourCC::GRGB {
        Some(DxgiFormat::G8R8_G8B8_UNORM)
    } else if c == FourCC::YUY2 {
        Some(DxgiFormat::YUY2)
    } else if c == 36 {
        Some(DxgiFormat::R16G16B16A16_UNORM)
    } else if c == 110 {
        Some(DxgiFormat::R16G16B16A16_SNORM)
    } else if c == 111 {
        Some(DxgiFormat::R16_FLOAT)
    } else if c == 112 {
        Some(DxgiFormat::R16G16_FLOAT)
    } else if c == 113 {
        Some(DxgiFormat::R16G16B16A16_FLOAT)
    } else if c == 114 {
        Some(DxgiFormat::R32_FLOAT)
    } else if c == 115 {
        Some(DxgiFormat::R32G32_FLOAT)
    } else if c == 116 {
        Some(DxgiFormat::R32G32B32A32_FLOAT)
    } else {
        None
    }
}

/// The DXGI format that a four-character code stands for.
pub fn four_cc_to_dxgi(four_cc: FourCC) -> (r: Option<DxgiFormat>)
    ensures
        r == four_cc_dxgi(four_cc),
{
    let c = four_cc.0;
    if c == FourCC::DXT1 {
        Some(DxgiFormat::BC1_UNORM)
    } else if c == FourCC::DXT3 {
        Some(DxgiFormat::BC2_UNORM)
    } else if c == FourCC::DXT5 {
        Some(DxgiFormat::BC3_UNORM)
    } else if c == FourCC::ATI1 {
        Some(DxgiFormat::BC4_UNORM)
    } else if c == FourCC::BC4U {
        Some(DxgiFormat::BC4_UNORM)
    } else if c == FourCC::BC4S {
        Some(DxgiFormat::BC4_SNORM)
    } else if c == FourCC::ATI2 {
        Some(DxgiFormat::BC5_UNORM)
    } else if c == FourCC::BC5U {
        Some(DxgiFormat::BC5_UNORM)
    } else if c == FourCC::BC5S {
        Some(DxgiFormat::BC5_SNORM)
    } else if c == FourCC::RGBG {
        Some(DxgiFormat::R8G8_B8G8_UNORM)
    } else if c == FourCC::GRGB {
        Some(DxgiFormat::G8R8_G8B8_UNORM)
    } else if c == FourCC::YUY2 {
        Some(DxgiFormat::YUY2)
    } else if c == 36 {
        Some(DxgiFormat::R16G16B16A16_UNORM)
    } else if c == 110 {
        Some(DxgiFormat::R16G16B16A16_SNORM)
    } else if c == 111 {
        Some(DxgiFormat::R16_FLOAT)
    } else if c == 112 {
        Some(DxgiFormat::R16G16_FLOAT)
    } else if c == 113 {
        Some(DxgiFormat::R16G16B16A16_FLOAT)
    } else if c == 114 {
        Some(DxgiFormat::R32_FLOAT)
    } else if c == 115 {
        Some(DxgiFormat::R32G32_FLOAT)
    } else if c == 116 {
        Some(DxgiFormat::R32G32B32A32_FLOAT)
    } else {
        None
    }
}

/// The four-character code under which DX9 files store a DXGI format.
pub open spec fn dxgi_four_cc(dxgi: DxgiFormat) -> Option<FourCC> {
    match dxgi {
        DxgiFormat::BC1_UNORM => Some(FourCC(FourCC::DXT1)),
        DxgiFormat::BC2_UNORM => Some(FourCC(FourCC::DXT3)),
        DxgiFormat::BC3_UNORM => Some(FourCC(FourCC::DXT5)),
        DxgiFormat::BC4_UNORM => Some(FourCC(FourCC::BC4U)),
        DxgiFormat::BC4_SNORM => Some(FourCC(FourCC::BC4S)),
        DxgiFormat::BC5_UNORM => Some(FourCC(FourCC::BC5U)),
        DxgiFormat::BC5_SNORM => Some(FourCC(FourCC::BC5S)),
        DxgiFormat::R8G8_B8G8_UNORM => Some(FourCC(FourCC::RGBG)),
        DxgiFormat::G8R8_G8B8_UNORM => Some(FourCC(FourCC::GRGB)),
        DxgiFormat::YUY2 => Some(FourCC(FourCC::YUY2)),
        DxgiFormat::R16G16B16A16_UNORM => Some(FourCC(36)),
        DxgiFormat::R16G16B16A16_SNORM => Some(FourCC(110)),
        DxgiFormat::R16_FLOAT => Some(FourCC(111)),
        DxgiFormat::R16G16_FLOAT => Some(FourCC(112)),
        DxgiFormat::R16G16B16A16_FLOAT => Some(FourCC(113)),
        DxgiFormat::R32_FLOAT => Some(FourCC(114)),
        DxgiFormat::R32G32_FLOAT => Some(FourCC(115)),
        DxgiFormat::R32G32B32A32_FLOAT => Some(FourCC(116)),
        _ => None,
    }
}

/// The four-character code under which DX9 files store a DXGI format.
pub fn dxgi_to_four_cc(dxgi: DxgiFormat) -> (r: Option<FourCC>)
    ensures
        r == dxgi_four_cc(dxgi),
{
    match dxgi {
        DxgiFormat::BC1_UNORM => Some(FourCC(FourCC::DXT1)),
        DxgiFormat::BC2_UNORM => Some(FourCC(FourCC::DXT3)),
        DxgiFormat::BC3_UNORM => Some(FourCC(FourCC::DXT5)),
        DxgiFormat::BC4_UNORM => Some(FourCC(FourCC::BC4U)),
        DxgiFormat::BC4_SNORM => Some(FourCC(FourCC::BC4S)),
        DxgiFormat::BC5_UNORM => Some(FourCC(FourCC::BC5U)),
        DxgiFormat::BC5_SNORM => Some(FourCC(FourCC::BC5S)),
        DxgiFormat::R8G8_B8G8_UNORM => Some(FourCC(FourCC::RGBG)),
        DxgiFormat::G8R8_G8B8_UNORM => Some(FourCC(FourCC::GRGB)),
        DxgiFormat::YUY2 => Some(FourCC(FourCC::YUY2)),
        DxgiFormat::R16G16B16A16_UNORM => Some(FourCC(36)),
        DxgiFormat::R16G16B16A16_SNORM => Some(FourCC(110)),
        DxgiFormat::R16_FLOAT => Some(FourCC(111)),
        DxgiFormat::R16G16_FLOAT => Some(FourCC(112)),
        DxgiFormat::R16G16B16A16_FLOAT => Some(FourCC(113)),
        DxgiFormat::R32_FLOAT => Some(FourCC(114)),
        DxgiFormat::R32G32_FLOAT => Some(FourCC(115)),
        DxgiFormat::R32G32B32A32_FLOAT => Some(FourCC(116)),
        _ => None,
    }
}

/// The format that a four-character code stands for: that of its DXGI
/// format where it has one, else one of the formats that only DX9 knows.
pub open spec fn four_cc_format(four_cc: FourCC) -> Option<Format> {
    match four_cc_dxgi(four_cc) {
        Some(dxgi) => dxgi_format(dxgi),
        None => {
            let c = four_cc.0;
            if c == FourCC::DXT2 {
                Some(Format::BC2_UNORM_PREMULTIPLIED_ALPHA)
            } else if c == FourCC::DXT4 {
                Some(Format::BC3_UNORM_PREMULTIPLIED_ALPHA)
            } else if c == FourCC::RXGB {
                Some(Format::BC3_UNORM_RXGB)
            } else if c == FourCC::UYVY {
                Some(Format::UYVY)
            } else {
                None
            }
        },
    }
}

/// The format that a four-character code stands for.
pub fn four_cc_to_supported(four_cc: FourCC) -> (r: Option<Format>)
    ensures
        r == four_cc_format(four_cc),
{
    // quick and easy, convert to DXGI first
    if let Some(dxgi) = four_cc_to_dxgi(four_cc) {
        return dxgi_format_to_supported(dxgi);
    }
    // now everything that has no DXGI equivalent
    let c = four_cc.0;
    if c == FourCC::DXT2 {
        Some(Format::BC2_UNORM_PREMULTIPLIED_ALPHA)
    } else if c == FourCC::DXT4 {
        Some(Format::BC3_UNORM_PREMULTIPLIED_ALPHA)
    } else if c == FourCC::RXGB {
        Some(Format::BC3_UNORM_RXGB)
    } else if c == FourCC::UYVY {
        Some(Format::UYVY)
    } else {
        None
    }
}

/// The premultiplied variant that a DX10 header asks for: BC2 and BC3 under
/// an alpha mode of premultiplied.
pub open spec fn special_format(dx10: Dx10Header) -> Option<Format> {
    if dx10.alpha_mode == AlphaMode::Premultiplied {
        match dx10.dxgi_format {
            DxgiFormat::BC2_TYPELESS | DxgiFormat::BC2_UNORM | DxgiFormat::BC2_UNORM_SRGB => Some(
                Format::BC2_UNORM_PREMULTIPLIED_ALPHA,
            ),
            DxgiFormat::BC3_TYPELESS | DxgiFormat::BC3_UNORM | DxgiFormat::BC3_UNORM_SRGB => Some(
                Format::BC3_UNORM_PREMULTIPLIED_ALPHA,
            ),
            _ => None,
        }
    } else {
        None
    }
}

/// The premultiplied variant that a DX10 header asks for, if it asks for one.
pub fn special_cases(dx10: &Dx10Header) -> (r: Option<Format>)
    ensures
        r == special_format(*dx10),
{
    if dx10.alpha_mode == AlphaMode::Premultiplied {
        match dx10.dxgi_format {
            DxgiFormat::BC2_TYPELESS | DxgiFormat::BC2_UNORM | DxgiFormat::BC2_UNORM_SRGB => Some(
                Format::BC2_UNORM_PREMULTIPLIED_ALPHA,
            ),
            DxgiFormat::BC3_TYPELESS | DxgiFormat::BC3_UNORM | DxgiFormat::BC3_UNORM_SRGB => Some(
                Format::BC3_UNORM_PREMULTIPLIED_ALPHA,
            ),
            _ => None,
        }
    } else {
        None
    }
}

/// One known description by bit masks.
#[derive(Debug, Clone, Copy, PartialEq, Eq, Structural)]
pub struct PFPattern {
    pub flags: PixelFormatFlags,
    pub rgb_bit_count: u32,
    pub r_bit_mask: u32,
    pub g_bit_mask: u32,
    pub b_bit_mask: u32,
    pub a_bit_mask: u32,
}

impl PFPattern {
    /// A description matches where every field is equal.
    pub open spec fn matches_spec(self, pf: MaskPixelFormat) -> bool {
        &&& pf.flags == self.flags
        &&& pf.rgb_bit_count == self.rgb_bit_count
        &&& pf.r_bit_mask == self.r_bit_mask
        &&& pf.g_bit_mask == self.g_bit_mask
        &&& pf.b_bit_mask == self.b_bit_mask
        &&& pf.a_bit_mask == self.a_bit_mask
    }

    /// The description that this pattern matches.
    pub open spec fn as_mask(self) -> MaskPixelFormat {
        MaskPixelFormat {
            flags: self.flags,
            rgb_bit_count: self.rgb_bit_count,
            r_bit_mask: self.r_bit_mask,
            g_bit_mask: self.g_bit_mask,
            b_bit_mask: self.b_bit_mask,
            a_bit_mask: self.a_bit_mask,
        }
    }

    pub fn matches(&self, pf: &MaskPixelFormat) -> (b: bool)
        ensures
            b == self.matches_spec(*pf),
    {
        pf.flags.0 == self.flags.0 && pf.rgb_bit_count == self.rgb_bit_count && pf.r_bit_mask
            == self.r_bit_mask && pf.g_bit_mask == self.g_bit_mask && pf.b_bit_mask
            == self.b_bit_mask && pf.a_bit_mask == self.a_bit_mask
    }

    /// A description of alpha alone.
    pub fn alpha_only(bit_count: u32, a_mask: u32) -> (p: PFPattern)
        ensures
            p == (PFPattern {
                flags: PixelFormatFlags(PixelFormatFlags::ALPHA),
                rgb_bit_count: bit_count,
                r_bit_mask: 0,
                g_bit_mask: 0,
                b_bit_mask: 0,
                a_bit_mask: a_mask,
            }),
    {
        PFPattern {
            flags: PixelFormatFlags(PixelFormatFlags::ALPHA),
            rgb_bit_count: bit_count,
            r_bit_mask: 0,
            g_bit_mask: 0,
            b_bit_mask: 0,
            a_bit_mask: a_mask,
        }
    }

    /// A description of one gray channel.
    pub fn grayscale(bit_count: u32, r_mask: u32) -> (p: PFPattern)
        ensures
            p == (PFPattern {
                flags: PixelFormatFlags(PixelFormatFlags::LUMINANCE),
                rgb_bit_count: bit_count,
                r_bit_mask: r_mask,
                g_bit_mask: 0,
                b_bit_mask: 0,
                a_bit_mask: 0,
            }),
    {
        PFPattern {
            flags: PixelFormatFlags(PixelFormatFlags::LUMINANCE),
            rgb_bit_count: bit_count,
            r_bit_mask: r_mask,
            g_bit_mask: 0,
            b_bit_mask: 0,
            a_bit_mask: 0,
        }
    }

    /// A description of red, green and blue.
    pub fn rgb(bit_count: u32, r_mask: u32, g_mask: u32, b_mask: u32) -> (p: PFPattern)
        ensures
            p == (PFPattern {
                flags: PixelFormatFlags(PixelFormatFlags::RGB),
                rgb_bit_count: bit_count,
                r_bit_mask: r_mask,
                g_bit_mask: g_mask,
                b_bit_mask: b_mask,
                a_bit_mask: 0,
            }),
    {
        PFPattern {
            flags: PixelFormatFlags(PixelFormatFlags::RGB),
            rgb_bit_count: bit_count,
            r_bit_mask: r_mask,
            g_bit_mask: g_mask,
            b_bit_mask: b_mask,
            a_bit_mask: 0,
        }
    }

    /// A description of red, green, blue and alpha.
    pub fn rgba(bit_count: u32, r_mask: u32, g_mask: u32, b_mask: u32, a_mask: u32) -> (p:
        PFPattern)
        ensures
            p == (PFPattern {
                flags: PixelFormatFlags(PixelFormatFlags::RGBA),
                rgb_bit_count: bit_count,
                r_bit_mask: r_mask,
                g_bit_mask: g_mask,
                b_bit_mask: b_mask,
                a_bit_mask: a_mask,
            }),
    {
        PFPattern {
            flags: PixelFormatFlags(PixelFormatFlags::RGBA),
            rgb_bit_count: bit_count,
            r_bit_mask: r_mask,
            g_bit_mask: g_mask,
            b_bit_mask: b_mask,
            a_bit_mask: a_mask,
        }
    }

    /// A description of signed channels.
    pub fn snorm(bit_count: u32, r_mask: u32, g_mask: u32, b_mask: u32, a_mask: u32) -> (p:
        PFPattern)
        ensures
            p == (PFPattern {
                flags: PixelFormatFlags(PixelFormatFlags::BUMP_DUDV),
                rgb_bit_count: bit_count,
                r_bit_mask: r_mask,
                g_bit_mask: g_mask,
                b_bit_mask: b_mask,
                a_bit_mask: a_mask,
            }),
    {
        PFPattern {
            flags: PixelFormatFlags(PixelFormatFlags::BUMP_DUDV),
            rgb_bit_count: bit_count,
            r_bit_mask: r_mask,
            g_bit_mask: g_mask,
            b_bit_mask: b_mask,
            a_bit_mask: a_mask,
        }
    }

    /// The same pattern with an alpha channel beside the gray channel.
    pub fn with_alpha(self, a_mask: u32) -> (p: PFPattern)
        ensures
            p == (PFPattern {
                flags: PixelFormatFlags(PixelFormatFlags::LUMINANCE_ALPHA),
                a_bit_mask: a_mask,
                ..self
            }),
    {
        PFPattern {
            flags: PixelFormatFlags(PixelFormatFlags::LUMINANCE_ALPHA),
            a_bit_mask: a_mask,
            ..self
        }
    }

    /// The same pattern under other flags.
    pub fn with_flags(self, flags: PixelFormatFlags) -> (p: PFPattern)
        ensures
            p == (PFPattern { flags, ..self }),
    {
        PFPattern { flags, ..self }
    }
}

/// Number of known descriptions by bit masks.
pub const KNOWN_PIXEL_FORMATS: usize = 19;

/// The known descriptions by bit masks, in the order in which they are
/// tried, each with its format. Luminance with alpha pixels is what writers
/// use for two channels of 8 bits.
pub open spec fn known_pixel_format(i: int) -> (PFPattern, Format) {
    if i == 0 {
        (
            PFPattern {
                flags: PixelFormatFlags(PixelFormatFlags::ALPHA),
                rgb_bit_count: 8,
                r_bit_mask: 0x0,
                g_bit_mask: 0x0,
                b_bit_mask: 0x0,
                a_bit_mask: 0xFF,
            },
            Format::A8_UNORM,
        )
    } else if i == 1 {
        (
            PFPattern {
                flags: PixelFormatFlags(PixelFormatFlags::LUMINANCE),
                rgb_bit_count: 8,
                r_bit_mask: 0xFF,
                g_bit_mask: 0x0,
                b_bit_mask: 0x0,
                a_bit_mask: 0x0,
            },
            Format::R8_UNORM,
        )
    } else if i == 2 {
        (
            PFPattern {
                flags: PixelFormatFlags(PixelFormatFlags::RGB_LUMINANCE),
                rgb_bit_count: 8,
                r_bit_mask: 0xFF,
                g_bit_mask: 0x0,
                b_bit_mask: 0x0,
                a_bit_mask: 0x0,
            },
            Format::R8_UNORM,
        )
    } else if i == 3 {
        (
            PFPattern {
                flags: PixelFormatFlags(PixelFormatFlags::LUMINANCE),
                rgb_bit_count: 16,
                r_bit_mask: 0xFFFF,
                g_bit_mask: 0x0,
                b_bit_mask: 0x0,
                a_bit_mask: 0x0,
            },
            Format::R16_UNORM,
        )
    } else if i == 4 {
        (
            PFPattern {
                flags: PixelFormatFlags(PixelFormatFlags::RGB),
                rgb_bit_count: 16,
                r_bit_mask: 0xF800,
                g_bit_mask: 0x7E0,
                b_bit_mask: 0x1F,
                a_bit_mask: 0x0,
            },
            Format::B5G6R5_UNORM,
        )
    } else if i == 5 {
        (
            PFPattern {
                flags: PixelFormatFlags(PixelFormatFlags::RGB),
                rgb_bit_count: 32,
                r_bit_mask: 0xFF0000,
                g_bit_mask: 0xFF00,
                b_bit_mask: 0xFF,
                a_bit_mask: 0x0,
            },
            Format::B8G8R8X8_UNORM,
        )
    } else if i == 6 {
        (
            PFPattern {
                flags: PixelFormatFlags(PixelFormatFlags::RGB),
                rgb_bit_count: 32,
                r_bit_mask: 0xFFFF,
                g_bit_mask: 0xFFFF0000,
                b_bit_mask: 0x0,
                a_bit_mask: 0x0,
            },
            Format::R16G16_UNORM,
        )
    } else if i == 7 {
        (
            PFPattern {
                flags: PixelFormatFlags(PixelFormatFlags::RGB),
                rgb_bit_count: 16,
                r_bit_mask: 0xFF,
                g_bit_mask: 0xFF00,
                b_bit_mask: 0x0,
                a_bit_mask: 0x0,
            },
            Format::R8G8_UNORM,
        )
    } else if i == 8 {
        (
            PFPattern {
                flags: PixelFormatFlags(PixelFormatFlags::RGB),
                rgb_bit_count: 24,
                r_bit_mask: 0xFF0000,
                g_bit_mask: 0xFF00,
                b_bit_mask: 0xFF,
                a_bit_mask: 0x0,
            },
            Format::B8G8R8_UNORM,
        )
    } else if i == 9 {
        (
            PFPattern {
                flags: PixelFormatFlags(PixelFormatFlags::RGB),
                rgb_bit_count: 24,
                r_bit_mask: 0xFF,
                g_bit_mask: 0xFF00,
                b_bit_mask: 0xFF0000,
                a_bit_mask: 0x0,
            },
            Format::R8G8B8_UNORM,
        )
    } else if i == 10 {
        (
            PFPattern {
                flags: PixelFormatFlags(PixelFormatFlags::RGBA),
                rgb_bit_count: 16,
                r_bit_mask: 0xF00,
                g_bit_mask: 0xF0,
                b_bit_mask: 0xF,
                a_bit_mask: 0xF000,
            },
            Format::B4G4R4A4_UNORM,
        )
    } else if i == 11 {
        (
            PFPattern {
                flags: PixelFormatFlags(PixelFormatFlags::RGBA),
                rgb_bit_count: 16,
                r_bit_mask: 0x7C00,
                g_bit_mask: 0x3E0,
                b_bit_mask: 0x1F,
                a_bit_mask: 0x8000,
            },
            Format::B5G5R5A1_UNORM,
        )
    } else if i == 12 {
        (
            PFPattern {
                flags: PixelFormatFlags(PixelFormatFlags::RGBA),
                rgb_bit_count: 32,
                r_bit_mask: 0xFF0000,
                g_bit_mask: 0xFF00,
                b_bit_mask: 0xFF,
                a_bit_mask: 0xFF000000,
            },
            Format::B8G8R8A8_UNORM,
        )
    } else if i == 13 {
        (
            PFPattern {
                flags: PixelFormatFlags(PixelFormatFlags::RGBA),
                rgb_bit_count: 32,
                r_bit_mask: 0xFF,
                g_bit_mask: 0xFF00,
                b_bit_mask: 0xFF0000,
                a_bit_mask: 0xFF000000,
            },
            Format::R8G8B8A8_UNORM,
        )
    } else if i == 14 {
        (
            PFPattern {
                flags: PixelFormatFlags(PixelFormatFlags::RGBA),
                rgb_bit_count: 32,
                r_bit_mask: 0x3FF00000,
                g_bit_mask: 0xFFC00,
                b_bit_mask: 0x3FF,
                a_bit_mask: 0xC0000000,
            },
            Format::R10G10B10A2_UNORM,
        )
    } else if i == 15 {
        (
            PFPattern {
                flags: PixelFormatFlags(PixelFormatFlags::BUMP_DUDV),
                rgb_bit_count: 32,
                r_bit_mask: 0xFF,
                g_bit_mask: 0xFF00,
                b_bit_mask: 0xFF0000,
                a_bit_mask: 0xFF000000,
            },
            Format::R8G8B8A8_SNORM,
        )
    } else if i == 16 {
        (
            PFPattern {
                flags: PixelFormatFlags(PixelFormatFlags::BUMP_DUDV),
                rgb_bit_count: 16,
                r_bit_mask: 0xFF,
                g_bit_mask: 0xFF00,
                b_bit_mask: 0x0,
                a_bit_mask: 0x0,
            },
            Format::R8G8_SNORM,
        )
    } else if i == 17 {
        (
            PFPattern {
                flags: PixelFormatFlags(PixelFormatFlags::BUMP_DUDV),
                rgb_bit_count: 32,
                r_bit_mask: 0xFFFF,
                g_bit_mask: 0xFFFF0000,
                b_bit_mask: 0x0,
                a_bit_mask: 0x0,
            },
            Format::R16G16_SNORM,
        )
    } else {
        (
            PFPattern {
                flags: PixelFormatFlags(PixelFormatFlags::LUMINANCE_ALPHA),
                rgb_bit_count: 16,
                r_bit_mask: 0xFF,
                g_bit_mask: 0x0,
                b_bit_mask: 0x0,
                a_bit_mask: 0xFF00,
            },
            Format::R8G8_UNORM,
        )
    }
}

/// The known description at position `i`, with its format.
pub fn known_pixel_format_at(i: usize) -> (r: (PFPattern, Format))
    requires
        i < KNOWN_PIXEL_FORMATS,
    ensures
        r == known_pixel_format(i as int),
{
    if i == 0 {
        (PFPattern::alpha_only(8, 0xFF), Format::A8_UNORM)
    } else if i == 1 {
        (PFPattern::grayscale(8, 0xFF), Format::R8_UNORM)
    } else if i == 2 {
        (
            PFPattern::grayscale(8, 0xFF).with_flags(PixelFormatFlags(PixelFormatFlags::RGB_LUMINANCE)),
            Format::R8_UNORM,
        )
    } else if i == 3 {
        (PFPattern::grayscale(16, 0xFFFF), Format::R16_UNORM)
    } else if i == 4 {
        (PFPattern::rgb(16, 0xF800, 0x07E0, 0x001F), Format::B5G6R5_UNORM)
    } else if i == 5 {
        (PFPattern::rgb(32, 0xFF0000, 0xFF00, 0xFF), Format::B8G8R8X8_UNORM)
    } else if i == 6 {
        (PFPattern::rgb(32, 0xFFFF, 0xFFFF0000, 0), Format::R16G16_UNORM)
    } else if i == 7 {
        (PFPattern::rgb(16, 0xFF, 0xFF00, 0), Format::R8G8_UNORM)
    } else if i == 8 {
        (PFPattern::rgb(24, 0xFF0000, 0xFF00, 0xFF), Format::B8G8R8_UNORM)
    } else if i == 9 {
        (PFPattern::rgb(24, 0xFF, 0xFF00, 0xFF0000), Format::R8G8B8_UNORM)
    } else if i == 10 {
        (PFPattern::rgba(16, 0xF00, 0xF0, 0xF, 0xF000), Format::B4G4R4A4_UNORM)
    } else if i == 11 {
        (PFPattern::rgba(16, 0x7C00, 0x3E0, 0x1F, 0x8000), Format::B5G5R5A1_UNORM)
    } else if i == 12 {
        (PFPattern::rgba(32, 0xFF0000, 0xFF00, 0xFF, 0xFF000000), Format::B8G8R8A8_UNORM)
    } else if i == 13 {
        (PFPattern::rgba(32, 0xFF, 0xFF00, 0xFF0000, 0xFF000000), Format::R8G8B8A8_UNORM)
    } else if i == 14 {
        (PFPattern::rgba(32, 0x3FF00000, 0xFFC00, 0x3FF, 0xC0000000), Format::R10G10B10A2_UNORM)
    } else if i == 15 {
        (PFPattern::snorm(32, 0xFF, 0xFF00, 0xFF0000, 0xFF000000), Format::R8G8B8A8_SNORM)
    } else if i == 16 {
        (PFPattern::snorm(16, 0xFF, 0xFF00, 0, 0), Format::R8G8_SNORM)
    } else if i == 17 {
        (PFPattern::snorm(32, 0xFFFF, 0xFFFF0000, 0, 0), Format::R16G16_SNORM)
    } else {
        // luminance with alpha is seen for two 8-bit channels
        (PFPattern::grayscale(16, 0xFF).with_alpha(0xFF00), Format::R8G8_UNORM)
    }
}

/// The format of the first known description from position `from` on that
/// matches `pf`.
pub open spec fn first_match(pf: MaskPixelFormat, from: int) -> Option<Format>
    decreases KNOWN_PIXEL_FORMATS - from,
{
    if from < 0 || from >= KNOWN_PIXEL_FORMATS {
        None
    } else if known_pixel_format(from).0.matches_spec(pf) {
        Some(known_pixel_format(from).1)
    } else {
        first_match(pf, from + 1)
    }
}

/// The format that a description by bit masks stands for.
pub open spec fn masked_format(pf: MaskPixelFormat) -> Option<Format> {
    first_match(pf, 0)
}

/// The format that a description by bit masks stands for: that of the first
/// known description that equals it.
pub fn pixel_format_to_supported(pf: &MaskPixelFormat) -> (r: Option<Format>)
    ensures
        r == masked_format(*pf),
{
    let mut i: usize = 0;
    while i < KNOWN_PIXEL_FORMATS
        invariant
            i <= KNOWN_PIXEL_FORMATS,
            first_match(*pf, 0) == first_match(*pf, i as int),
        decreases KNOWN_PIXEL_FORMATS - i,
    {
        let (pattern, format) = known_pixel_format_at(i);
        if pattern.matches(pf) {
            return Some(format);
        }
        i = i + 1;
    }
    None
}

/// The format that a description by bit masks stands for.
pub fn masked_to_supported(pf: &MaskPixelFormat) -> (r: Option<Format>)
    ensures
        r == masked_format(*pf),
{
    pixel_format_to_supported(pf)
}

/// The first known description from position `from` on that stands for
/// `format`.
pub open spec fn first_mask(format: Format, from: int) -> Option<MaskPixelFormat>
    decreases KNOWN_PIXEL_FORMATS - from,
{
    if from < 0 || from >= KNOWN_PIXEL_FORMATS {
        None
    } else if known_pixel_format(from).1 == format {
        Some(known_pixel_format(from).0.as_mask())
    } else {
        first_mask(format, from + 1)
    }
}

/// The description by bit masks under which a format is written.
pub open spec fn format_mask(format: Format) -> Option<MaskPixelFormat> {
    first_mask(format, 0)
}

/// The description by bit masks under which a format is written: the first
/// known description that stands for it.
pub fn supported_to_masked(format: Format) -> (r: Option<MaskPixelFormat>)
    ensures
        r == format_mask(format),
{
    let mut i: usize = 0;
    while i < KNOWN_PIXEL_FORMATS
        invariant
            i <= KNOWN_PIXEL_FORMATS,
            first_mask(format, 0) == first_mask(format, i as int),
        decreases KNOWN_PIXEL_FORMATS - i,
    {
        let (pattern, f) = known_pixel_format_at(i);
        if f == format {
            return Some(
                MaskPixelFormat {
                    flags: pattern.flags,
                    rgb_bit_count: pattern.rgb_bit_count,
                    r_bit_mask: pattern.r_bit_mask,
                    g_bit_mask: pattern.g_bit_mask,
                    b_bit_mask: pattern.b_bit_mask,
                    a_bit_mask: pattern.a_bit_mask,
                },
            );
        }
        i = i + 1;
    }
    None
}

/// A DXGI format that DX9 files store under a four-character code is read
/// back from that code.
pub proof fn lemma_dxgi_four_cc_round_trip(dxgi: DxgiFormat)
    requires
        dxgi_four_cc(dxgi).is_some(),
    ensures
        four_cc_dxgi(dxgi_four_cc(dxgi).unwrap()) == Some(dxgi),
{
}

/// A format that a DXGI format names is detected from that DXGI format.
pub proof fn lemma_format_dxgi_round_trip(format: Format)
    requires
        format.dxgi_spec().is_some(),
    ensures
        dxgi_format(format.dxgi_spec().unwrap()) == Some(format),
{
}

/// A format that a four-character code names is detected from that code.
pub proof fn lemma_format_four_cc_round_trip(format: Format)
    requires
        format.four_cc_spec().is_some(),
    ensures
        four_cc_format(format.four_cc_spec().unwrap()) == Some(format),
{
}

/// A format that bit masks describe is detected from those bit masks.
pub proof fn lemma_format_mask_round_trip(format: Format)
    requires
        format_mask(format).is_some(),
    ensures
        masked_format(format_mask(format).unwrap()) == Some(format),
{
    reveal_with_fuel(first_mask, 20);
    reveal_with_fuel(first_match, 20);
}

} // verus!
