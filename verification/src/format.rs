//! The closed set of surface formats that the library knows, with the
//! colour layout each one decodes to most faithfully.

use vstd::prelude::*;
use crate::detect;
use crate::error::FormatError;
use crate::header::{Dx9PixelFormat, DxgiFormat, FourCC, Header, MaskPixelFormat};
use crate::pixel::{Channels, ColorFormat, Precision};

verus! {

/// The format of the surfaces in a DDS file.
#[derive(Debug, Clone, Copy, PartialEq, Eq, Structural, Hash)]
#[non_exhaustive]
#[allow(non_camel_case_types)]
pub enum Format {
    // uncompressed formats
    R8G8B8_UNORM,
    B8G8R8_UNORM,
    R8G8B8A8_UNORM,
    R8G8B8A8_SNORM,
    B8G8R8A8_UNORM,
    B8G8R8X8_UNORM,
    B5G6R5_UNORM,
    B5G5R5A1_UNORM,
    B4G4R4A4_UNORM,
    A4B4G4R4_UNORM,
    R8_SNORM,
    R8_UNORM,
    R8G8_UNORM,
    R8G8_SNORM,
    A8_UNORM,
    R16_UNORM,
    R16_SNORM,
    R16G16_UNORM,
    R16G16_SNORM,
    R16G16B16A16_UNORM,
    R16G16B16A16_SNORM,
    R10G10B10A2_UNORM,
    R11G11B10_FLOAT,
    R9G9B9E5_SHAREDEXP,
    R16_FLOAT,
    R16G16_FLOAT,
    R16G16B16A16_FLOAT,
    R32_FLOAT,
    R32G32_FLOAT,
    R32G32B32_FLOAT,
    R32G32B32A32_FLOAT,
    R10G10B10_XR_BIAS_A2_UNORM,
    AYUV,
    Y410,
    Y416,
    // sub-sampled formats
    R1_UNORM,
    R8G8_B8G8_UNORM,
    G8R8_G8B8_UNORM,
    UYVY,
    YUY2,
    Y210,
    Y216,
    // bi-planar formats
    NV12,
    P010,
    P016,
    // block compression formats
    BC1_UNORM,
    BC2_UNORM,
    BC2_UNORM_PREMULTIPLIED_ALPHA,
    BC3_UNORM,
    BC3_UNORM_PREMULTIPLIED_ALPHA,
    BC4_UNORM,
    BC4_SNORM,
    BC5_UNORM,
    BC5_SNORM,
    BC6H_UF16,
    BC6H_SF16,
    BC7_UNORM,
    // non-standard formats
    /// `BC3_UNORM` with the red channel stored in the alpha block. The format
    /// has no alpha: the red bits of the colour block are ignored.
    BC3_UNORM_RXGB,
}

/// What an encoder for a format can do.
#[derive(Debug, Clone, Copy, PartialEq, Eq, Structural)]
pub struct EncodingSupport {
    /// Which channels the encoder can dither.
    pub dithering: Dithering,
    /// How many rows must stay together when an image is cut into chunks
    /// that are encoded one by one: every chunk but the last has a height
    /// that is a multiple of this number. Never 0.
    pub split_height: u8,
    /// Whether dithering spreads its error within a small region only, so
    /// that cutting the image into chunks does not change the result.
    pub local_dithering: bool,
    /// What the width and height of an image must be multiples of.
    pub size_multiple: SizeMultiple,
}

/// The channels that an encoder can dither.
#[derive(Debug, Clone, Copy, PartialEq, Eq, Structural, Hash)]
pub enum Dithering {
    Off,
    ColorAndAlpha,
    Color,
    Alpha,
}

/// Numbers that the width and the height of an image must be multiples of.
#[derive(Debug, Clone, Copy, PartialEq, Eq, Structural, Hash)]
pub struct SizeMultiple {
    pub width_multiple: u8,
    pub height_multiple: u8,
}

impl Format {
    /// The channels nearest to what the format stores. A format with red and
    /// green only counts as RGB.
    pub open spec fn channels_spec(self) -> Channels {
        match self {
            Format::R8G8B8_UNORM
            | Format::B8G8R8_UNORM
            | Format::B8G8R8X8_UNORM
            | Format::B5G6R5_UNORM
            | Format::R8G8_UNORM
            | Format::R8G8_SNORM
            | Format::R16G16_UNORM
            | Format::R16G16_SNORM
            | Format::R11G11B10_FLOAT
            | Format::R9G9B9E5_SHAREDEXP
            | Format::R16G16_FLOAT
            | Format::R32G32_FLOAT
            | Format::R32G32B32_FLOAT
            | Format::R8G8_B8G8_UNORM
            | Format::G8R8_G8B8_UNORM
            | Format::UYVY
            | Format::YUY2
            | Format::Y210
            | Format::Y216
            | Format::NV12
            | Format::P010
            | Format::P016
            | Format::BC5_UNORM
            | Format::BC5_SNORM
            | Format::BC6H_UF16
            | Format::BC6H_SF16
            | Format::BC3_UNORM_RXGB => Channels::Rgb,
            Format::R8G8B8A8_UNORM
            | Format::R8G8B8A8_SNORM
            | Format::B8G8R8A8_UNORM
            | Format::B5G5R5A1_UNORM
            | Format::B4G4R4A4_UNORM
            | Format::A4B4G4R4_UNORM
            | Format::R16G16B16A16_UNORM
            | Format::R16G16B16A16_SNORM
            | Format::R10G10B10A2_UNORM
            | Format::R16G16B16A16_FLOAT
            | Format::R32G32B32A32_FLOAT
            | Format::R10G10B10_XR_BIAS_A2_UNORM
            | Format::AYUV
            | Format::Y410
            | Format::Y416
            | Format::BC1_UNORM
            | Format::BC2_UNORM
            | Format::BC2_UNORM_PREMULTIPLIED_ALPHA
            | Format::BC3_UNORM
            | Format::BC3_UNORM_PREMULTIPLIED_ALPHA
            | Format::BC7_UNORM => Channels::Rgba,
            Format::R8_SNORM
            | Format::R8_UNORM
            | Format::R16_UNORM
            | Format::R16_SNORM
            | Format::R16_FLOAT
            | Format::R32_FLOAT
            | Format::R1_UNORM
            | Format::BC4_UNORM
            | Format::BC4_SNORM => Channels::Grayscale,
            Format::A8_UNORM => Channels::Alpha,
        }
    }

    /// The precision nearest to what the format stores: the smallest one that
    /// holds every stored value closely.
    pub open spec fn precision_spec(self) -> Precision {
        match self {
            Format::R8G8B8_UNORM
            | Format::B8G8R8_UNORM
            | Format::R8G8B8A8_UNORM
            | Format::R8G8B8A8_SNORM
            | Format::B8G8R8A8_UNORM
            | Format::B8G8R8X8_UNORM
            | Format::B5G6R5_UNORM
            | Format::B5G5R5A1_UNORM
            | Format::B4G4R4A4_UNORM
            | Format::A4B4G4R4_UNORM
            | Format::R8_SNORM
            | Format::R8_UNORM
            | Format::R8G8_UNORM
            | Format::R8G8_SNORM
            | Format::A8_UNORM
            | Format::AYUV
            | Format::R1_UNORM
            | Format::R8G8_B8G8_UNORM
            | Format::G8R8_G8B8_UNORM
            | Format::UYVY
            | Format::YUY2
            | Format::NV12
            | Format::BC1_UNORM
            | Format::BC2_UNORM
            | Format::BC2_UNORM_PREMULTIPLIED_ALPHA
            | Format::BC3_UNORM
            | Format::BC3_UNORM_PREMULTIPLIED_ALPHA
            | Format::BC4_UNORM
            | Format::BC4_SNORM
            | Format::BC5_UNORM
            | Format::BC5_SNORM
            | Format::BC7_UNORM
            | Format::BC3_UNORM_RXGB => Precision::U8,
            Format::R16_UNORM
            | Format::R16_SNORM
            | Format::R16G16_UNORM
            | Format::R16G16_SNORM
            | Format::R16G16B16A16_UNORM
            | Format::R16G16B16A16_SNORM
            | Format::R10G10B10A2_UNORM
            | Format::Y410
            | Format::Y416
            | Format::Y210
            | Format::Y216
            | Format::P010
            | Format::P016 => Precision::U16,
            Format::R11G11B10_FLOAT
            | Format::R9G9B9E5_SHAREDEXP
            | Format::R16_FLOAT
            | Format::R16G16_FLOAT
            | Format::R16G16B16A16_FLOAT
            | Format::R32_FLOAT
            | Format::R32G32_FLOAT
            | Format::R32G32B32_FLOAT
            | Format::R32G32B32A32_FLOAT
            | Format::R10G10B10_XR_BIAS_A2_UNORM
            | Format::BC6H_UF16
            | Format::BC6H_SF16 => Precision::F32,
        }
    }

    /// The native colour format: `channels_spec` with `precision_spec`.
    pub open spec fn color_spec(self) -> ColorFormat {
        ColorFormat { channels: self.channels_spec(), precision: self.precision_spec() }
    }

    /// The DXGI format that names this format in a DX10 header, if any.
    pub open spec fn dxgi_spec(self) -> Option<DxgiFormat> {
        match self {
            Format::R8G8B8_UNORM
            | Format::B8G8R8_UNORM
            | Format::UYVY
            | Format::BC2_UNORM_PREMULTIPLIED_ALPHA
            | Format::BC3_UNORM_PREMULTIPLIED_ALPHA
            | Format::BC3_UNORM_RXGB => None,
            Format::R8G8B8A8_UNORM => Some(DxgiFormat::R8G8B8A8_UNORM),
            Format::R8G8B8A8_SNORM => Some(DxgiFormat::R8G8B8A8_SNORM),
            Format::B8G8R8A8_UNORM => Some(DxgiFormat::B8G8R8A8_UNORM),
            Format::B8G8R8X8_UNORM => Some(DxgiFormat::B8G8R8X8_UNORM),
            Format::B5G6R5_UNORM => Some(DxgiFormat::B5G6R5_UNORM),
            Format::B5G5R5A1_UNORM => Some(DxgiFormat::B5G5R5A1_UNORM),
            Format::B4G4R4A4_UNORM => Some(DxgiFormat::B4G4R4A4_UNORM),
            Format::A4B4G4R4_UNORM => Some(DxgiFormat::A4B4G4R4_UNORM),
            Format::R8_SNORM => Some(DxgiFormat::R8_SNORM),
            Format::R8_UNORM => Some(DxgiFormat::R8_UNORM),
            Format::R8G8_UNORM => Some(DxgiFormat::R8G8_UNORM),
            Format::R8G8_SNORM => Some(DxgiFormat::R8G8_SNORM),
            Format::A8_UNORM => Some(DxgiFormat::A8_UNORM),
            Format::R16_UNORM => Some(DxgiFormat::R16_UNORM),
            Format::R16_SNORM => Some(DxgiFormat::R16_SNORM),
            Format::R16G16_UNORM => Some(DxgiFormat::R16G16_UNORM),
            Format::R16G16_SNORM => Some(DxgiFormat::R16G16_SNORM),
            Format::R16G16B16A16_UNORM => Some(DxgiFormat::R16G16B16A16_UNORM),
            Format::R16G16B16A16_SNORM => Some(DxgiFormat::R16G16B16A16_SNORM),
            Format::R10G10B10A2_UNORM => Some(DxgiFormat::R10G10B10A2_UNORM),
            Format::R11G11B10_FLOAT => Some(DxgiFormat::R11G11B10_FLOAT),
            Format::R9G9B9E5_SHAREDEXP => Some(DxgiFormat::R9G9B9E5_SHAREDEXP),
            Format::R16_FLOAT => Some(DxgiFormat::R16_FLOAT),
            Format::R16G16_FLOAT => Some(DxgiFormat::R16G16_FLOAT),
            Format::R16G16B16A16_FLOAT => Some(DxgiFormat::R16G16B16A16_FLOAT),
            Format::R32_FLOAT => Some(DxgiFormat::R32_FLOAT),
            Format::R32G32_FLOAT => Some(DxgiFormat::R32G32_FLOAT),
            Format::R32G32B32_FLOAT => Some(DxgiFormat::R32G32B32_FLOAT),
            Format::R32G32B32A32_FLOAT => Some(DxgiFormat::R32G32B32A32_FLOAT),
            Format::R10G10B10_XR_BIAS_A2_UNORM => Some(DxgiFormat::R10G10B10_XR_BIAS_A2_UNORM),
            Format::AYUV => Some(DxgiFormat::AYUV),
            Format::Y410 => Some(DxgiFormat::Y410),
            Format::Y416 => Some(DxgiFormat::Y416),
            Format::R1_UNORM => Some(DxgiFormat::R1_UNORM),
            Format::R8G8_B8G8_UNORM => Some(DxgiFormat::R8G8_B8G8_UNORM),
            Format::G8R8_G8B8_UNORM => Some(DxgiFormat::G8R8_G8B8_UNORM),
            Format::YUY2 => Some(DxgiFormat::YUY2),
            Format::Y210 => Some(DxgiFormat::Y210),
            Format::Y216 => Some(DxgiFormat::Y216),
            Format::NV12 => Some(DxgiFormat::NV12),
            Format::P010 => Some(DxgiFormat::P010),
            Format::P016 => Some(DxgiFormat::P016),
            Format::BC1_UNORM => Some(DxgiFormat::BC1_UNORM),
            Format::BC2_UNORM => Some(DxgiFormat::BC2_UNORM),
            Format::BC3_UNORM => Some(DxgiFormat::BC3_UNORM),
            Format::BC4_UNORM => Some(DxgiFormat::BC4_UNORM),
            Format::BC4_SNORM => Some(DxgiFormat::BC4_SNORM),
            Format::BC5_UNORM => Some(DxgiFormat::BC5_UNORM),
            Format::BC5_SNORM => Some(DxgiFormat::BC5_SNORM),
            Format::BC6H_UF16 => Some(DxgiFormat::BC6H_UF16),
            Format::BC6H_SF16 => Some(DxgiFormat::BC6H_SF16),
            Format::BC7_UNORM => Some(DxgiFormat::BC7_UNORM),
        }
    }

    /// The four-character code that names this format in a DX9 header, if
    /// any.
    pub open spec fn four_cc_spec(self) -> Option<FourCC> {
        match self {
            Format::BC2_UNORM_PREMULTIPLIED_ALPHA => Some(FourCC(FourCC::DXT2)),
            Format::BC3_UNORM_PREMULTIPLIED_ALPHA => Some(FourCC(FourCC::DXT4)),
            Format::BC1_UNORM => Some(FourCC(FourCC::DXT1)),
            Format::BC2_UNORM => Some(FourCC(FourCC::DXT3)),
            Format::BC3_UNORM => Some(FourCC(FourCC::DXT5)),
            Format::BC4_UNORM => Some(FourCC(FourCC::BC4U)),
            Format::BC4_SNORM => Some(FourCC(FourCC::BC4S)),
            Format::BC5_UNORM => Some(FourCC(FourCC::BC5U)),
            Format::BC5_SNORM => Some(FourCC(FourCC::BC5S)),
            Format::R8G8_B8G8_UNORM => Some(FourCC(FourCC::RGBG)),
            Format::G8R8_G8B8_UNORM => Some(FourCC(FourCC::GRGB)),
            Format::UYVY => Some(FourCC(FourCC::UYVY)),
            Format::YUY2 => Some(FourCC(FourCC::YUY2)),
            Format::BC3_UNORM_RXGB => Some(FourCC(FourCC::RXGB)),
            _ => None,
        }
    }

    /// What the encoders of this format support, `None` where the library
    /// has no encoder for the format. The encoders of the library work
    /// pixel by pixel or block by block within a row: they do not dither,
    /// and a surface may be split between any two rows.
    pub open spec fn encoding_spec(self) -> Option<EncodingSupport> {
        if crate::encode::has_encoders(self) {
            Some(
                EncodingSupport {
                    dithering: Dithering::Off,
                    split_height: 1,
                    local_dithering: false,
                    size_multiple: SizeMultiple { width_multiple: 1, height_multiple: 1 },
                },
            )
        } else {
            None
        }
    }

    /// The format of the surfaces that a header describes.
    ///
    /// A DX9 header names it by a four-character code or by bit masks. A DX10
    /// header names it by a DXGI format; where the header says that alpha is
    /// premultiplied, BC2 and BC3 become their premultiplied variants.
    pub open spec fn from_header_spec(header: Header) -> Result<Format, FormatError> {
        match header {
            Header::Dx9(dx9) => match dx9.pixel_format {
                Dx9PixelFormat::FourCC(four_cc) => match detect::four_cc_format(four_cc) {
                    Some(f) => Ok(f),
                    None => Err(FormatError::UnsupportedFourCC(four_cc)),
                },
                Dx9PixelFormat::Mask(pf) => match detect::masked_format(pf) {
                    Some(f) => Ok(f),
                    None => Err(FormatError::UnsupportedPixelFormat),
                },
            },
            Header::Dx10(dx10) => match detect::special_format(dx10) {
                Some(f) => Ok(f),
                None => match detect::dxgi_format(dx10.dxgi_format) {
                    Some(f) => Ok(f),
                    None => Err(FormatError::UnsupportedDxgiFormat(dx10.dxgi_format)),
                },
            },
        }
    }

    /// The format of the surfaces that a header describes.
    pub fn from_header(header: &Header) -> (r: Result<Format, FormatError>)
        ensures
            r == Self::from_header_spec(*header),
    {
        match header {
            Header::Dx9(dx9) => match dx9.pixel_format {
                Dx9PixelFormat::FourCC(four_cc) => match detect::four_cc_to_supported(four_cc) {
                    Some(f) => Ok(f),
                    None => Err(FormatError::UnsupportedFourCC(four_cc)),
                },
                Dx9PixelFormat::Mask(pf) => match detect::masked_to_supported(&pf) {
                    Some(f) => Ok(f),
                    None => Err(FormatError::UnsupportedPixelFormat),
                },
            },
            Header::Dx10(dx10) => {
                if let Some(format) = detect::special_cases(dx10) {
                    return Ok(format);
                }
                match detect::dxgi_format_to_supported(dx10.dxgi_format) {
                    Some(f) => Ok(f),
                    None => Err(FormatError::UnsupportedDxgiFormat(dx10.dxgi_format)),
                }
            },
        }
    }

    /// The format that a DXGI format stands for, `None` where it cannot be
    /// decoded.
    pub fn from_dxgi(dxgi: DxgiFormat) -> (r: Option<Format>)
        ensures
            r == detect::dxgi_format(dxgi),
    {
        detect::dxgi_format_to_supported(dxgi)
    }

    /// The format that a four-character code stands for, `None` where it
    /// cannot be decoded.
    pub fn from_four_cc(four_cc: FourCC) -> (r: Option<Format>)
        ensures
            r == detect::four_cc_format(four_cc),
    {
        detect::four_cc_to_supported(four_cc)
    }

    /// The channels nearest to what the format stores.
    pub fn channels(&self) -> (c: Channels)
        ensures
            c == self.channels_spec(),
    {
        self.color().channels
    }

    /// The precision nearest to what the format stores.
    pub fn precision(&self) -> (p: Precision)
        ensures
            p == self.precision_spec(),
    {
        self.color().precision
    }

    /// The native colour format of the surfaces.
    pub fn color(&self) -> (c: ColorFormat)
        ensures
            c == self.color_spec(),
    {
        let channels = match self {
            Format::R8G8B8_UNORM
            | Format::B8G8R8_UNORM
            | Format::B8G8R8X8_UNORM
            | Format::B5G6R5_UNORM
            | Format::R8G8_UNORM
            | Format::R8G8_SNORM
            | Format::R16G16_UNORM
            | Format::R16G16_SNORM
            | Format::R11G11B10_FLOAT
            | Format::R9G9B9E5_SHAREDEXP
            | Format::R16G16_FLOAT
            | Format::R32G32_FLOAT
            | Format::R32G32B32_FLOAT
            | Format::R8G8_B8G8_UNORM
            | Format::G8R8_G8B8_UNORM
            | Format::UYVY
            | Format::YUY2
            | Format::Y210
            | Format::Y216
            | Format::NV12
            | Format::P010
            | Format::P016
            | Format::BC5_UNORM
            | Format::BC5_SNORM
            | Format::BC6H_UF16
            | Format::BC6H_SF16
            | Format::BC3_UNORM_RXGB => Channels::Rgb,
            Format::R8G8B8A8_UNORM
            | Format::R8G8B8A8_SNORM
            | Format::B8G8R8A8_UNORM
            | Format::B5G5R5A1_UNORM
            | Format::B4G4R4A4_UNORM
            | Format::A4B4G4R4_UNORM
            | Format::R16G16B16A16_UNORM
            | Format::R16G16B16A16_SNORM
            | Format::R10G10B10A2_UNORM
            | Format::R16G16B16A16_FLOAT
            | Format::R32G32B32A32_FLOAT
            | Format::R10G10B10_XR_BIAS_A2_UNORM
            | Format::AYUV
            | Format::Y410
            | Format::Y416
            | Format::BC1_UNORM
            | Format::BC2_UNORM
            | Format::BC2_UNORM_PREMULTIPLIED_ALPHA
            | Format::BC3_UNORM
            | Format::BC3_UNORM_PREMULTIPLIED_ALPHA
            | Format::BC7_UNORM => Channels::Rgba,
            Format::R8_SNORM
            | Format::R8_UNORM
            | Format::R16_UNORM
            | Format::R16_SNORM
            | Format::R16_FLOAT
            | Format::R32_FLOAT
            | Format::R1_UNORM
            | Format::BC4_UNORM
            | Format::BC4_SNORM => Channels::Grayscale,
            Format::A8_UNORM => Channels::Alpha,
        };
        let precision = match self {
            Format::R8G8B8_UNORM
            | Format::B8G8R8_UNORM
            | Format::R8G8B8A8_UNORM
            | Format::R8G8B8A8_SNORM
            | Format::B8G8R8A8_UNORM
            | Format::B8G8R8X8_UNORM
            | Format::B5G6R5_UNORM
            | Format::B5G5R5A1_UNORM
            | Format::B4G4R4A4_UNORM
            | Format::A4B4G4R4_UNORM
            | Format::R8_SNORM
            | Format::R8_UNORM
            | Format::R8G8_UNORM
            | Format::R8G8_SNORM
            | Format::A8_UNORM
            | Format::AYUV
            | Format::R1_UNORM
            | Format::R8G8_B8G8_UNORM
            | Format::G8R8_G8B8_UNORM
            | Format::UYVY
            | Format::YUY2
            | Format::NV12
            | Format::BC1_UNORM
            | Format::BC2_UNORM
            | Format::BC2_UNORM_PREMULTIPLIED_ALPHA
            | Format::BC3_UNORM
            | Format::BC3_UNORM_PREMULTIPLIED_ALPHA
            | Format::BC4_UNORM
            | Format::BC4_SNORM
            | Format::BC5_UNORM
            | Format::BC5_SNORM
            | Format::BC7_UNORM
            | Format::BC3_UNORM_RXGB => Precision::U8,
            Format::R16_UNORM
            | Format::R16_SNORM
            | Format::R16G16_UNORM
            | Format::R16G16_SNORM
            | Format::R16G16B16A16_UNORM
            | Format::R16G16B16A16_SNORM
            | Format::R10G10B10A2_UNORM
            | Format::Y410
            | Format::Y416
            | Format::Y210
            | Format::Y216
            | Format::P010
            | Format::P016 => Precision::U16,
            Format::R11G11B10_FLOAT
            | Format::R9G9B9E5_SHAREDEXP
            | Format::R16_FLOAT
            | Format::R16G16_FLOAT
            | Format::R16G16B16A16_FLOAT
            | Format::R32_FLOAT
            | Format::R32G32_FLOAT
            | Format::R32G32B32_FLOAT
            | Format::R32G32B32A32_FLOAT
            | Format::R10G10B10_XR_BIAS_A2_UNORM
            | Format::BC6H_UF16
            | Format::BC6H_SF16 => Precision::F32,
        };
        ColorFormat { channels, precision }
    }

    /// What the encoders of this format support, `None` where the library
    /// has no encoder for the format.
    pub fn encoding(self) -> (r: Option<EncodingSupport>)
        ensures
            r == self.encoding_spec(),
            r matches Some(s) ==> s.split_height > 0 && (s.dithering == Dithering::Off
                ==> !s.local_dithering),
    {
        match crate::encode::get_encoders(self) {
            Some(encoders) => Some(
                EncodingSupport {
                    dithering: Dithering::Off,
                    split_height: 1,
                    local_dithering: false,
                    size_multiple: SizeMultiple { width_multiple: 1, height_multiple: 1 },
                },
            ),
            None => None,
        }
    }
}

impl DxgiFormat {
    /// The DXGI format that names a format in a DX10 header. Some formats
    /// have none.
    pub fn try_from(value: Format) -> (r: Result<DxgiFormat, ()>)
        ensures
            r.ok() == value.dxgi_spec(),
    {
        Ok(
            match value {
                Format::R8G8B8_UNORM
                | Format::B8G8R8_UNORM
                | Format::UYVY
                | Format::BC2_UNORM_PREMULTIPLIED_ALPHA
                | Format::BC3_UNORM_PREMULTIPLIED_ALPHA
                | Format::BC3_UNORM_RXGB => { return Err(()); },
                Format::R8G8B8A8_UNORM => DxgiFormat::R8G8B8A8_UNORM,
                Format::R8G8B8A8_SNORM => DxgiFormat::R8G8B8A8_SNORM,
                Format::B8G8R8A8_UNORM => DxgiFormat::B8G8R8A8_UNORM,
                Format::B8G8R8X8_UNORM => DxgiFormat::B8G8R8X8_UNORM,
                Format::B5G6R5_UNORM => DxgiFormat::B5G6R5_UNORM,
                Format::B5G5R5A1_UNORM => DxgiFormat::B5G5R5A1_UNORM,
                Format::B4G4R4A4_UNORM => DxgiFormat::B4G4R4A4_UNORM,
                Format::A4B4G4R4_UNORM => DxgiFormat::A4B4G4R4_UNORM,
                Format::R8_SNORM => DxgiFormat::R8_SNORM,
                Format::R8_UNORM => DxgiFormat::R8_UNORM,
                Format::R8G8_UNORM => DxgiFormat::R8G8_UNORM,
                Format::R8G8_SNORM => DxgiFormat::R8G8_SNORM,
                Format::A8_UNORM => DxgiFormat::A8_UNORM,
                Format::R16_UNORM => DxgiFormat::R16_UNORM,
                Format::R16_SNORM => DxgiFormat::R16_SNORM,
                Format::R16G16_UNORM => DxgiFormat::R16G16_UNORM,
                Format::R16G16_SNORM => DxgiFormat::R16G16_SNORM,
                Format::R16G16B16A16_UNORM => DxgiFormat::R16G16B16A16_UNORM,
                Format::R16G16B16A16_SNORM => DxgiFormat::R16G16B16A16_SNORM,
                Format::R10G10B10A2_UNORM => DxgiFormat::R10G10B10A2_UNORM,
                Format::R11G11B10_FLOAT => DxgiFormat::R11G11B10_FLOAT,
                Format::R9G9B9E5_SHAREDEXP => DxgiFormat::R9G9B9E5_SHAREDEXP,
                Format::R16_FLOAT => DxgiFormat::R16_FLOAT,
                Format::R16G16_FLOAT => DxgiFormat::R16G16_FLOAT,
                Format::R16G16B16A16_FLOAT => DxgiFormat::R16G16B16A16_FLOAT,
                Format::R32_FLOAT => DxgiFormat::R32_FLOAT,
                Format::R32G32_FLOAT => DxgiFormat::R32G32_FLOAT,
                Format::R32G32B32_FLOAT => DxgiFormat::R32G32B32_FLOAT,
                Format::R32G32B32A32_FLOAT => DxgiFormat::R32G32B32A32_FLOAT,
                Format::R10G10B10_XR_BIAS_A2_UNORM => DxgiFormat::R10G10B10_XR_BIAS_A2_UNORM,
                Format::AYUV => DxgiFormat::AYUV,
                Format::Y410 => DxgiFormat::Y410,
                Format::Y416 => DxgiFormat::Y416,
                Format::R1_UNORM => DxgiFormat::R1_UNORM,
                Format::R8G8_B8G8_UNORM => DxgiFormat::R8G8_B8G8_UNORM,
                Format::G8R8_G8B8_UNORM => DxgiFormat::G8R8_G8B8_UNORM,
                Format::YUY2 => DxgiFormat::YUY2,
                Format::Y210 => DxgiFormat::Y210,
                Format::Y216 => DxgiFormat::Y216,
                Format::NV12 => DxgiFormat::NV12,
                Format::P010 => DxgiFormat::P010,
                Format::P016 => DxgiFormat::P016,
                Format::BC1_UNORM => DxgiFormat::BC1_UNORM,
                Format::BC2_UNORM => DxgiFormat::BC2_UNORM,
                Format::BC3_UNORM => DxgiFormat::BC3_UNORM,
                Format::BC4_UNORM => DxgiFormat::BC4_UNORM,
                Format::BC4_SNORM => DxgiFormat::BC4_SNORM,
                Format::BC5_UNORM => DxgiFormat::BC5_UNORM,
                Format::BC5_SNORM => DxgiFormat::BC5_SNORM,
                Format::BC6H_UF16 => DxgiFormat::BC6H_UF16,
                Format::BC6H_SF16 => DxgiFormat::BC6H_SF16,
                Format::BC7_UNORM => DxgiFormat::BC7_UNORM,
            },
        )
    }
}

impl FourCC {
    /// The four-character code that names a format in a DX9 header. Most
    /// formats have none.
    pub fn try_from(value: Format) -> (r: Result<FourCC, ()>)
        ensures
            r.ok() == value.four_cc_spec(),
    {
        match value {
            Format::BC2_UNORM_PREMULTIPLIED_ALPHA => Ok(FourCC(FourCC::DXT2)),
            Format::BC3_UNORM_PREMULTIPLIED_ALPHA => Ok(FourCC(FourCC::DXT4)),
            Format::BC1_UNORM => Ok(FourCC(FourCC::DXT1)),
            Format::BC2_UNORM => Ok(FourCC(FourCC::DXT3)),
            Format::BC3_UNORM => Ok(FourCC(FourCC::DXT5)),
            Format::BC4_UNORM => Ok(FourCC(FourCC::BC4U)),
            Format::BC4_SNORM => Ok(FourCC(FourCC::BC4S)),
            Format::BC5_UNORM => Ok(FourCC(FourCC::BC5U)),
            Format::BC5_SNORM => Ok(FourCC(FourCC::BC5S)),
            Format::R8G8_B8G8_UNORM => Ok(FourCC(FourCC::RGBG)),
            Format::G8R8_G8B8_UNORM => Ok(FourCC(FourCC::GRGB)),
            Format::UYVY => Ok(FourCC(FourCC::UYVY)),
            Format::YUY2 => Ok(FourCC(FourCC::YUY2)),
            Format::BC3_UNORM_RXGB => Ok(FourCC(FourCC::RXGB)),
            _ => Err(()),
        }
    }
}

impl MaskPixelFormat {
    /// The bit masks that describe a format in a DX9 header. Most formats
    /// have none.
    pub fn try_from(value: Format) -> (r: Result<MaskPixelFormat, ()>)
        ensures
            r.ok() == detect::format_mask(value),
    {
        match detect::supported_to_masked(value) {
            Some(pf) => Ok(pf),
            None => Err(()),
        }
    }
}

impl Dx9PixelFormat {
    /// How a DX9 header names a format: by its four-character code where it
    /// has one, else by its bit masks.
    pub fn try_from(value: Format) -> (r: Result<Dx9PixelFormat, ()>)
        ensures
            r.ok() == match value.four_cc_spec() {
                Some(c) => Some(Dx9PixelFormat::FourCC(c)),
                None => match detect::format_mask(value) {
                    Some(pf) => Some(Dx9PixelFormat::Mask(pf)),
                    None => None,
                },
            },
    {
        if let Ok(four_cc) = FourCC::try_from(value) {
            return Ok(Dx9PixelFormat::FourCC(four_cc));
        }
        if let Ok(masked) = MaskPixelFormat::try_from(value) {
            return Ok(Dx9PixelFormat::Mask(masked));
        }
        Err(())
    }
}

} // verus!
