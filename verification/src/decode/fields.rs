//! Where the channels of a pixel lie in the encoded bytes of the formats
//! that store channels one by one.
//!
//! The encoded data is a row of blocks. A block holds the pixels of one or
//! more columns; every channel of a pixel is a field of a little-endian word
//! of the block.

use vstd::prelude::*;
use crate::decode::channel::Num;
use crate::format::Format;

verus! {

/// The place of one channel within a block: the word that holds it, and
/// what the word is divided by to bring the channel to the low bits. The
/// number format tells how many bits the channel has.
#[derive(Debug, Clone, Copy, PartialEq, Eq, Structural)]
pub struct Field {
    pub num: Num,
    /// Byte offset of the word within the block.
    pub offset: u8,
    /// Bytes of the word: 1, 2 or 4.
    pub width: u8,
    /// Two to the power of the channel's lowest bit within the word.
    pub divisor: u32,
}

/// The shape of the blocks of a format.
#[derive(Debug, Clone, Copy, PartialEq, Eq, Structural)]
pub struct BlockShape {
    /// Pixel columns per block.
    pub width: u8,
    /// Pixel rows per block.
    pub height: u8,
    /// Bytes per block.
    pub bytes: u8,
}

impl Format {
    /// Whether the channels of the format are fields of words, so that
    /// `field` describes it.
    pub open spec fn has_fields(self) -> bool {
        match self {
            Format::R8G8B8_UNORM
            | Format::B8G8R8_UNORM
            | Format::R8G8B8A8_UNORM
            | Format::R8G8B8A8_SNORM
            | Format::B8G8R8A8_UNORM
            | Format::B8G8R8X8_UNORM
            | Format::B5G6R5_UNORM
            | Format::B5G5R5A1_UNORM
            | Format::B4G4R4A4_UNORM
            | Format::A4B4G4R4_UNORM
            | Format::R8_SNORM
            | Format::R8_UNORM
            | Format::R8G8_UNORM
            | Format::R8G8_SNORM
            | Format::A8_UNORM
            | Format::R16_UNORM
            | Format::R16_SNORM
            | Format::R16G16_UNORM
            | Format::R16G16_SNORM
            | Format::R16G16B16A16_UNORM
            | Format::R16G16B16A16_SNORM
            | Format::R10G10B10A2_UNORM
            | Format::R11G11B10_FLOAT
            | Format::R16_FLOAT
            | Format::R16G16_FLOAT
            | Format::R16G16B16A16_FLOAT
            | Format::R32_FLOAT
            | Format::R32G32_FLOAT
            | Format::R32G32B32_FLOAT
            | Format::R32G32B32A32_FLOAT
            | Format::R10G10B10_XR_BIAS_A2_UNORM
            | Format::R1_UNORM
            | Format::R8G8_B8G8_UNORM
            | Format::G8R8_G8B8_UNORM => true,
            _ => false,
        }
    }

    /// Whether the format stores luma and chroma, so that `field` describes
    /// luma, the two chroma channels and alpha in this order.
    pub open spec fn is_yuv(self) -> bool {
        match self {
            Format::AYUV
            | Format::Y410
            | Format::Y416
            | Format::YUY2
            | Format::UYVY
            | Format::Y210
            | Format::Y216 => true,
            _ => false,
        }
    }

    /// The bits of luma and chroma that the conversion to colours takes: 8,
    /// 10 or 16. Formats of 10 bits in words of 16 bits are converted as
    /// formats of 16 bits.
    pub open spec fn yuv_bits(self) -> nat {
        match self {
            Format::AYUV | Format::YUY2 | Format::UYVY => 8,
            Format::Y410 => 10,
            _ => 16,
        }
    }

    /// The shape of the blocks of the format. A block of a bi-planar format
    /// stands for 2x2 pixels with their share of both planes.
    pub open spec fn block_shape(self) -> BlockShape {
        match self {
            Format::R8G8B8_UNORM
            | Format::B8G8R8_UNORM => BlockShape { width: 1, height: 1, bytes: 3 },
            Format::R8G8B8A8_UNORM
            | Format::R8G8B8A8_SNORM
            | Format::B8G8R8A8_UNORM
            | Format::B8G8R8X8_UNORM
            | Format::R16G16_UNORM
            | Format::R16G16_SNORM
            | Format::R10G10B10A2_UNORM
            | Format::R11G11B10_FLOAT
            | Format::R9G9B9E5_SHAREDEXP
            | Format::R16G16_FLOAT
            | Format::R32_FLOAT
            | Format::R10G10B10_XR_BIAS_A2_UNORM
            | Format::AYUV
            | Format::Y410 => BlockShape { width: 1, height: 1, bytes: 4 },
            Format::B5G6R5_UNORM
            | Format::B5G5R5A1_UNORM
            | Format::B4G4R4A4_UNORM
            | Format::A4B4G4R4_UNORM
            | Format::R8G8_UNORM
            | Format::R8G8_SNORM
            | Format::R16_UNORM
            | Format::R16_SNORM
            | Format::R16_FLOAT => BlockShape { width: 1, height: 1, bytes: 2 },
            Format::R8_SNORM
            | Format::R8_UNORM
            | Format::A8_UNORM => BlockShape { width: 1, height: 1, bytes: 1 },
            Format::R16G16B16A16_UNORM
            | Format::R16G16B16A16_SNORM
            | Format::R16G16B16A16_FLOAT
            | Format::R32G32_FLOAT
            | Format::Y416 => BlockShape { width: 1, height: 1, bytes: 8 },
            Format::R32G32B32_FLOAT => BlockShape { width: 1, height: 1, bytes: 12 },
            Format::R32G32B32A32_FLOAT => BlockShape { width: 1, height: 1, bytes: 16 },
            Format::R1_UNORM => BlockShape { width: 8, height: 1, bytes: 1 },
            Format::R8G8_B8G8_UNORM
            | Format::G8R8_G8B8_UNORM
            | Format::UYVY
            | Format::YUY2 => BlockShape { width: 2, height: 1, bytes: 4 },
            Format::Y210
            | Format::Y216 => BlockShape { width: 2, height: 1, bytes: 8 },
            Format::NV12 => BlockShape { width: 2, height: 2, bytes: 6 },
            Format::P010
            | Format::P016 => BlockShape { width: 2, height: 2, bytes: 12 },
            Format::BC1_UNORM
            | Format::BC4_UNORM
            | Format::BC4_SNORM => BlockShape { width: 4, height: 4, bytes: 8 },
            Format::BC2_UNORM
            | Format::BC2_UNORM_PREMULTIPLIED_ALPHA
            | Format::BC3_UNORM
            | Format::BC3_UNORM_PREMULTIPLIED_ALPHA
            | Format::BC5_UNORM
            | Format::BC5_SNORM
            | Format::BC6H_UF16
            | Format::BC6H_SF16
            | Format::BC7_UNORM
            | Format::BC3_UNORM_RXGB => BlockShape { width: 4, height: 4, bytes: 16 },
        }
    }

    /// The place of channel `c` of the pixel in column `k` of a block.
    pub open spec fn field(self, k: nat, c: nat) -> Field {
        match self {
            Format::R8G8B8_UNORM => {
                if c == 0 {
                    Field { num: Num::N8, offset: 0, width: 1, divisor: 1 }
                } else if c == 1 {
                    Field { num: Num::N8, offset: 1, width: 1, divisor: 1 }
                } else {
                    Field { num: Num::N8, offset: 2, width: 1, divisor: 1 }
                }
            },
            Format::B8G8R8_UNORM => {
                if c == 0 {
                    Field { num: Num::N8, offset: 2, width: 1, divisor: 1 }
                } else if c == 1 {
                    Field { num: Num::N8, offset: 1, width: 1, divisor: 1 }
                } else {
                    Field { num: Num::N8, offset: 0, width: 1, divisor: 1 }
                }
            },
            Format::R8G8B8A8_UNORM => {
                if c == 0 {
                    Field { num: Num::N8, offset: 0, width: 1, divisor: 1 }
                } else if c == 1 {
                    Field { num: Num::N8, offset: 1, width: 1, divisor: 1 }
                } else if c == 2 {
                    Field { num: Num::N8, offset: 2, width: 1, divisor: 1 }
                } else {
                    Field { num: Num::N8, offset: 3, width: 1, divisor: 1 }
                }
            },
            Format::R8G8B8A8_SNORM => {
                if c == 0 {
                    Field { num: Num::S8, offset: 0, width: 1, divisor: 1 }
                } else if c == 1 {
                    Field { num: Num::S8, offset: 1, width: 1, divisor: 1 }
                } else if c == 2 {
                    Field { num: Num::S8, offset: 2, width: 1, divisor: 1 }
                } else {
                    Field { num: Num::S8, offset: 3, width: 1, divisor: 1 }
                }
            },
            Format::B8G8R8A8_UNORM => {
                if c == 0 {
                    Field { num: Num::N8, offset: 2, width: 1, divisor: 1 }
                } else if c == 1 {
                    Field { num: Num::N8, offset: 1, width: 1, divisor: 1 }
                } else if c == 2 {
                    Field { num: Num::N8, offset: 0, width: 1, divisor: 1 }
                } else {
                    Field { num: Num::N8, offset: 3, width: 1, divisor: 1 }
                }
            },
            Format::B8G8R8X8_UNORM => {
                if c == 0 {
                    Field { num: Num::N8, offset: 2, width: 1, divisor: 1 }
                } else if c == 1 {
                    Field { num: Num::N8, offset: 1, width: 1, divisor: 1 }
                } else {
                    Field { num: Num::N8, offset: 0, width: 1, divisor: 1 }
                }
            },
            Format::B5G6R5_UNORM => {
                if c == 0 {
                    Field { num: Num::N5, offset: 0, width: 2, divisor: 2048 }
                } else if c == 1 {
                    Field { num: Num::N6, offset: 0, width: 2, divisor: 32 }
                } else {
                    Field { num: Num::N5, offset: 0, width: 2, divisor: 1 }
                }
            },
            Format::B5G5R5A1_UNORM => {
                if c == 0 {
                    Field { num: Num::N5, offset: 0, width: 2, divisor: 1024 }
                } else if c == 1 {
                    Field { num: Num::N5, offset: 0, width: 2, divisor: 32 }
                } else if c == 2 {
                    Field { num: Num::N5, offset: 0, width: 2, divisor: 1 }
                } else {
                    Field { num: Num::N1, offset: 0, width: 2, divisor: 32768 }
                }
            },
            Format::B4G4R4A4_UNORM => {
                if c == 0 {
                    Field { num: Num::N4, offset: 0, width: 2, divisor: 256 }
                } else if c == 1 {
                    Field { num: Num::N4, offset: 0, width: 2, divisor: 16 }
                } else if c == 2 {
                    Field { num: Num::N4, offset: 0, width: 2, divisor: 1 }
                } else {
                    Field { num: Num::N4, offset: 0, width: 2, divisor: 4096 }
                }
            },
            Format::A4B4G4R4_UNORM => {
                if c == 0 {
                    Field { num: Num::N4, offset: 0, width: 2, divisor: 4096 }
                } else if c == 1 {
                    Field { num: Num::N4, offset: 0, width: 2, divisor: 256 }
                } else if c == 2 {
                    Field { num: Num::N4, offset: 0, width: 2, divisor: 16 }
                } else {
                    Field { num: Num::N4, offset: 0, width: 2, divisor: 1 }
                }
            },
            Format::R8_SNORM => {
                Field { num: Num::S8, offset: 0, width: 1, divisor: 1 }
            },
            Format::R8_UNORM => {
                Field { num: Num::N8, offset: 0, width: 1, divisor: 1 }
            },
            Format::R8G8_UNORM => {
                if c == 0 {
                    Field { num: Num::N8, offset: 0, width: 1, divisor: 1 }
                } else if c == 1 {
                    Field { num: Num::N8, offset: 1, width: 1, divisor: 1 }
                } else {
                    Field { num: Num::Zero, offset: 0, width: 1, divisor: 1 }
                }
            },
            Format::R8G8_SNORM => {
                if c == 0 {
                    Field { num: Num::S8, offset: 0, width: 1, divisor: 1 }
                } else if c == 1 {
                    Field { num: Num::S8, offset: 1, width: 1, divisor: 1 }
                } else {
                    Field { num: Num::Half, offset: 0, width: 1, divisor: 1 }
                }
            },
            Format::A8_UNORM => {
                Field { num: Num::N8, offset: 0, width: 1, divisor: 1 }
            },
            Format::R16_UNORM => {
                Field { num: Num::N16, offset: 0, width: 2, divisor: 1 }
            },
            Format::R16_SNORM => {
                Field { num: Num::S16, offset: 0, width: 2, divisor: 1 }
            },
            Format::R16G16_UNORM => {
                if c == 0 {
                    Field { num: Num::N16, offset: 0, width: 2, divisor: 1 }
                } else if c == 1 {
                    Field { num: Num::N16, offset: 2, width: 2, divisor: 1 }
                } else {
                    Field { num: Num::Zero, offset: 0, width: 1, divisor: 1 }
                }
            },
            Format::R16G16_SNORM => {
                if c == 0 {
                    Field { num: Num::S16, offset: 0, width: 2, divisor: 1 }
                } else if c == 1 {
                    Field { num: Num::S16, offset: 2, width: 2, divisor: 1 }
                } else {
                    Field { num: Num::Half, offset: 0, width: 1, divisor: 1 }
                }
            },
            Format::R16G16B16A16_UNORM => {
                if c == 0 {
                    Field { num: Num::N16, offset: 0, width: 2, divisor: 1 }
                } else if c == 1 {
                    Field { num: Num::N16, offset: 2, width: 2, divisor: 1 }
                } else if c == 2 {
                    Field { num: Num::N16, offset: 4, width: 2, divisor: 1 }
                } else {
                    Field { num: Num::N16, offset: 6, width: 2, divisor: 1 }
                }
            },
            Format::R16G16B16A16_SNORM => {
                if c == 0 {
                    Field { num: Num::S16, offset: 0, width: 2, divisor: 1 }
                } else if c == 1 {
                    Field { num: Num::S16, offset: 2, width: 2, divisor: 1 }
                } else if c == 2 {
                    Field { num: Num::S16, offset: 4, width: 2, divisor: 1 }
                } else {
                    Field { num: Num::S16, offset: 6, width: 2, divisor: 1 }
                }
            },
            Format::R10G10B10A2_UNORM => {
                if c == 0 {
                    Field { num: Num::N10, offset: 0, width: 4, divisor: 1 }
                } else if c == 1 {
                    Field { num: Num::N10, offset: 0, width: 4, divisor: 1024 }
                } else if c == 2 {
                    Field { num: Num::N10, offset: 0, width: 4, divisor: 1048576 }
                } else {
                    Field { num: Num::N2, offset: 0, width: 4, divisor: 1073741824 }
                }
            },
            Format::R11G11B10_FLOAT => {
                if c == 0 {
                    Field { num: Num::Fp11, offset: 0, width: 4, divisor: 1 }
                } else if c == 1 {
                    Field { num: Num::Fp11, offset: 0, width: 4, divisor: 2048 }
                } else {
                    Field { num: Num::Fp10, offset: 0, width: 4, divisor: 4194304 }
                }
            },
            Format::R16_FLOAT => {
                Field { num: Num::Fp16, offset: 0, width: 2, divisor: 1 }
            },
            Format::R16G16_FLOAT => {
                if c == 0 {
                    Field { num: Num::Fp16, offset: 0, width: 2, divisor: 1 }
                } else if c == 1 {
                    Field { num: Num::Fp16, offset: 2, width: 2, divisor: 1 }
                } else {
                    Field { num: Num::Zero, offset: 0, width: 1, divisor: 1 }
                }
            },
            Format::R16G16B16A16_FLOAT => {
                if c == 0 {
                    Field { num: Num::Fp16, offset: 0, width: 2, divisor: 1 }
                } else if c == 1 {
                    Field { num: Num::Fp16, offset: 2, width: 2, divisor: 1 }
                } else if c == 2 {
                    Field { num: Num::Fp16, offset: 4, width: 2, divisor: 1 }
                } else {
                    Field { num: Num::Fp16, offset: 6, width: 2, divisor: 1 }
                }
            },
            Format::R32_FLOAT => {
                Field { num: Num::Fp32, offset: 0, width: 4, divisor: 1 }
            },
            Format::R32G32_FLOAT => {
                if c == 0 {
                    Field { num: Num::Fp32, offset: 0, width: 4, divisor: 1 }
                } else if c == 1 {
                    Field { num: Num::Fp32, offset: 4, width: 4, divisor: 1 }
                } else {
                    Field { num: Num::Zero, offset: 0, width: 1, divisor: 1 }
                }
            },
            Format::R32G32B32_FLOAT => {
                if c == 0 {
                    Field { num: Num::Fp32, offset: 0, width: 4, divisor: 1 }
                } else if c == 1 {
                    Field { num: Num::Fp32, offset: 4, width: 4, divisor: 1 }
                } else {
                    Field { num: Num::Fp32, offset: 8, width: 4, divisor: 1 }
                }
            },
            Format::R32G32B32A32_FLOAT => {
                if c == 0 {
                    Field { num: Num::Fp32, offset: 0, width: 4, divisor: 1 }
                } else if c == 1 {
                    Field { num: Num::Fp32, offset: 4, width: 4, divisor: 1 }
                } else if c == 2 {
                    Field { num: Num::Fp32, offset: 8, width: 4, divisor: 1 }
                } else {
                    Field { num: Num::Fp32, offset: 12, width: 4, divisor: 1 }
                }
            },
            Format::R10G10B10_XR_BIAS_A2_UNORM => {
                if c == 0 {
                    Field { num: Num::Xr10, offset: 0, width: 4, divisor: 1 }
                } else if c == 1 {
                    Field { num: Num::Xr10, offset: 0, width: 4, divisor: 1024 }
                } else if c == 2 {
                    Field { num: Num::Xr10, offset: 0, width: 4, divisor: 1048576 }
                } else {
                    Field { num: Num::N2, offset: 0, width: 4, divisor: 1073741824 }
                }
            },
            Format::R1_UNORM => {
                if k == 0 {
                    Field { num: Num::N1, offset: 0, width: 1, divisor: 128 }
                } else if k == 1 {
                    Field { num: Num::N1, offset: 0, width: 1, divisor: 64 }
                } else if k == 2 {
                    Field { num: Num::N1, offset: 0, width: 1, divisor: 32 }
                } else if k == 3 {
                    Field { num: Num::N1, offset: 0, width: 1, divisor: 16 }
                } else if k == 4 {
                    Field { num: Num::N1, offset: 0, width: 1, divisor: 8 }
                } else if k == 5 {
                    Field { num: Num::N1, offset: 0, width: 1, divisor: 4 }
                } else if k == 6 {
                    Field { num: Num::N1, offset: 0, width: 1, divisor: 2 }
                } else {
                    Field { num: Num::N1, offset: 0, width: 1, divisor: 1 }
                }
            },
            Format::R8G8_B8G8_UNORM => {
                if k == 0 {
                    if c == 0 {
                        Field { num: Num::N8, offset: 0, width: 1, divisor: 1 }
                    } else if c == 1 {
                        Field { num: Num::N8, offset: 1, width: 1, divisor: 1 }
                    } else {
                        Field { num: Num::N8, offset: 2, width: 1, divisor: 1 }
                    }
                } else {
                    if c == 0 {
                        Field { num: Num::N8, offset: 0, width: 1, divisor: 1 }
                    } else if c == 1 {
                        Field { num: Num::N8, offset: 3, width: 1, divisor: 1 }
                    } else {
                        Field { num: Num::N8, offset: 2, width: 1, divisor: 1 }
                    }
                }
            },
            Format::G8R8_G8B8_UNORM => {
                if k == 0 {
                    if c == 0 {
                        Field { num: Num::N8, offset: 1, width: 1, divisor: 1 }
                    } else if c == 1 {
                        Field { num: Num::N8, offset: 0, width: 1, divisor: 1 }
                    } else {
                        Field { num: Num::N8, offset: 3, width: 1, divisor: 1 }
                    }
                } else {
                    if c == 0 {
                        Field { num: Num::N8, offset: 1, width: 1, divisor: 1 }
                    } else if c == 1 {
                        Field { num: Num::N8, offset: 2, width: 1, divisor: 1 }
                    } else {
                        Field { num: Num::N8, offset: 3, width: 1, divisor: 1 }
                    }
                }
            },
            Format::AYUV => {
                if c == 0 {
                    Field { num: Num::N8, offset: 2, width: 1, divisor: 1 }
                } else if c == 1 {
                    Field { num: Num::N8, offset: 1, width: 1, divisor: 1 }
                } else if c == 2 {
                    Field { num: Num::N8, offset: 0, width: 1, divisor: 1 }
                } else {
                    Field { num: Num::N8, offset: 3, width: 1, divisor: 1 }
                }
            },
            Format::Y410 => {
                if c == 0 {
                    Field { num: Num::N10, offset: 0, width: 4, divisor: 1024 }
                } else if c == 1 {
                    Field { num: Num::N10, offset: 0, width: 4, divisor: 1 }
                } else if c == 2 {
                    Field { num: Num::N10, offset: 0, width: 4, divisor: 1048576 }
                } else {
                    Field { num: Num::N2, offset: 0, width: 4, divisor: 1073741824 }
                }
            },
            Format::Y416 => {
                if c == 0 {
                    Field { num: Num::N16, offset: 2, width: 2, divisor: 1 }
                } else if c == 1 {
                    Field { num: Num::N16, offset: 0, width: 2, divisor: 1 }
                } else if c == 2 {
                    Field { num: Num::N16, offset: 4, width: 2, divisor: 1 }
                } else {
                    Field { num: Num::N16, offset: 6, width: 2, divisor: 1 }
                }
            },
            Format::YUY2 => {
                if k == 0 {
                    if c == 0 {
                        Field { num: Num::N8, offset: 0, width: 1, divisor: 1 }
                    } else if c == 1 {
                        Field { num: Num::N8, offset: 1, width: 1, divisor: 1 }
                    } else {
                        Field { num: Num::N8, offset: 3, width: 1, divisor: 1 }
                    }
                } else {
                    if c == 0 {
                        Field { num: Num::N8, offset: 2, width: 1, divisor: 1 }
                    } else if c == 1 {
                        Field { num: Num::N8, offset: 1, width: 1, divisor: 1 }
                    } else {
                        Field { num: Num::N8, offset: 3, width: 1, divisor: 1 }
                    }
                }
            },
            Format::UYVY => {
                if k == 0 {
                    if c == 0 {
                        Field { num: Num::N8, offset: 1, width: 1, divisor: 1 }
                    } else if c == 1 {
                        Field { num: Num::N8, offset: 0, width: 1, divisor: 1 }
                    } else {
                        Field { num: Num::N8, offset: 2, width: 1, divisor: 1 }
                    }
                } else {
                    if c == 0 {
                        Field { num: Num::N8, offset: 3, width: 1, divisor: 1 }
                    } else if c == 1 {
                        Field { num: Num::N8, offset: 0, width: 1, divisor: 1 }
                    } else {
                        Field { num: Num::N8, offset: 2, width: 1, divisor: 1 }
                    }
                }
            },
            Format::Y210 => {
                if k == 0 {
                    if c == 0 {
                        Field { num: Num::N16, offset: 0, width: 2, divisor: 1 }
                    } else if c == 1 {
                        Field { num: Num::N16, offset: 2, width: 2, divisor: 1 }
                    } else {
                        Field { num: Num::N16, offset: 6, width: 2, divisor: 1 }
                    }
                } else {
                    if c == 0 {
                        Field { num: Num::N16, offset: 4, width: 2, divisor: 1 }
                    } else if c == 1 {
                        Field { num: Num::N16, offset: 2, width: 2, divisor: 1 }
                    } else {
                        Field { num: Num::N16, offset: 6, width: 2, divisor: 1 }
                    }
                }
            },
            Format::Y216 => {
                if k == 0 {
                    if c == 0 {
                        Field { num: Num::N16, offset: 0, width: 2, divisor: 1 }
                    } else if c == 1 {
                        Field { num: Num::N16, offset: 2, width: 2, divisor: 1 }
                    } else {
                        Field { num: Num::N16, offset: 6, width: 2, divisor: 1 }
                    }
                } else {
                    if c == 0 {
                        Field { num: Num::N16, offset: 4, width: 2, divisor: 1 }
                    } else if c == 1 {
                        Field { num: Num::N16, offset: 2, width: 2, divisor: 1 }
                    } else {
                        Field { num: Num::N16, offset: 6, width: 2, divisor: 1 }
                    }
                }
            },
            _ => Field { num: Num::Zero, offset: 0, width: 1, divisor: 1 },
        }
    }

    /// The shape of the blocks of the format.
    pub fn block_shape_of(self) -> (s: BlockShape)
        ensures
            s == self.block_shape(),
            s.width == 1 || s.width == 2 || s.width == 4 || s.width == 8,
            s.height >= 1,
            s.bytes >= 1,
    {
        match self {
            Format::R8G8B8_UNORM
            | Format::B8G8R8_UNORM => BlockShape { width: 1, height: 1, bytes: 3 },
            Format::R8G8B8A8_UNORM
            | Format::R8G8B8A8_SNORM
            | Format::B8G8R8A8_UNORM
            | Format::B8G8R8X8_UNORM
            | Format::R16G16_UNORM
            | Format::R16G16_SNORM
            | Format::R10G10B10A2_UNORM
            | Format::R11G11B10_FLOAT
            | Format::R9G9B9E5_SHAREDEXP
            | Format::R16G16_FLOAT
            | Format::R32_FLOAT
            | Format::R10G10B10_XR_BIAS_A2_UNORM
            | Format::AYUV
            | Format::Y410 => BlockShape { width: 1, height: 1, bytes: 4 },
            Format::B5G6R5_UNORM
            | Format::B5G5R5A1_UNORM
            | Format::B4G4R4A4_UNORM
            | Format::A4B4G4R4_UNORM
            | Format::R8G8_UNORM
            | Format::R8G8_SNORM
            | Format::R16_UNORM
            | Format::R16_SNORM
            | Format::R16_FLOAT => BlockShape { width: 1, height: 1, bytes: 2 },
            Format::R8_SNORM
            | Format::R8_UNORM
            | Format::A8_UNORM => BlockShape { width: 1, height: 1, bytes: 1 },
            Format::R16G16B16A16_UNORM
            | Format::R16G16B16A16_SNORM
            | Format::R16G16B16A16_FLOAT
            | Format::R32G32_FLOAT
            | Format::Y416 => BlockShape { width: 1, height: 1, bytes: 8 },
            Format::R32G32B32_FLOAT => BlockShape { width: 1, height: 1, bytes: 12 },
            Format::R32G32B32A32_FLOAT => BlockShape { width: 1, height: 1, bytes: 16 },
            Format::R1_UNORM => BlockShape { width: 8, height: 1, bytes: 1 },
            Format::R8G8_B8G8_UNORM
            | Format::G8R8_G8B8_UNORM
            | Format::UYVY
            | Format::YUY2 => BlockShape { width: 2, height: 1, bytes: 4 },
            Format::Y210
            | Format::Y216 => BlockShape { width: 2, height: 1, bytes: 8 },
            Format::NV12 => BlockShape { width: 2, height: 2, bytes: 6 },
            Format::P010
            | Format::P016 => BlockShape { width: 2, height: 2, bytes: 12 },
            Format::BC1_UNORM
            | Format::BC4_UNORM
            | Format::BC4_SNORM => BlockShape { width: 4, height: 4, bytes: 8 },
            Format::BC2_UNORM
            | Format::BC2_UNORM_PREMULTIPLIED_ALPHA
            | Format::BC3_UNORM
            | Format::BC3_UNORM_PREMULTIPLIED_ALPHA
            | Format::BC5_UNORM
            | Format::BC5_SNORM
            | Format::BC6H_UF16
            | Format::BC6H_SF16
            | Format::BC7_UNORM
            | Format::BC3_UNORM_RXGB => BlockShape { width: 4, height: 4, bytes: 16 },
        }
    }

    /// The place of channel `c` of the pixel in column `k` of a block.
    pub fn field_at(self, k: u8, c: u8) -> (f: Field)
        ensures
            f == self.field(k as nat, c as nat),
    {
        match self {
            Format::R8G8B8_UNORM => {
                if c == 0 {
                    Field { num: Num::N8, offset: 0, width: 1, divisor: 1 }
                } else if c == 1 {
                    Field { num: Num::N8, offset: 1, width: 1, divisor: 1 }
                } else {
                    Field { num: Num::N8, offset: 2, width: 1, divisor: 1 }
                }
            },
            Format::B8G8R8_UNORM => {
                if c == 0 {
                    Field { num: Num::N8, offset: 2, width: 1, divisor: 1 }
                } else if c == 1 {
                    Field { num: Num::N8, offset: 1, width: 1, divisor: 1 }
                } else {
                    Field { num: Num::N8, offset: 0, width: 1, divisor: 1 }
                }
            },
            Format::R8G8B8A8_UNORM => {
                if c == 0 {
                    Field { num: Num::N8, offset: 0, width: 1, divisor: 1 }
                } else if c == 1 {
                    Field { num: Num::N8, offset: 1, width: 1, divisor: 1 }
                } else if c == 2 {
                    Field { num: Num::N8, offset: 2, width: 1, divisor: 1 }
                } else {
                    Field { num: Num::N8, offset: 3, width: 1, divisor: 1 }
                }
            },
            Format::R8G8B8A8_SNORM => {
                if c == 0 {
                    Field { num: Num::S8, offset: 0, width: 1, divisor: 1 }
                } else if c == 1 {
                    Field { num: Num::S8, offset: 1, width: 1, divisor: 1 }
                } else if c == 2 {
                    Field { num: Num::S8, offset: 2, width: 1, divisor: 1 }
                } else {
                    Field { num: Num::S8, offset: 3, width: 1, divisor: 1 }
                }
            },
            Format::B8G8R8A8_UNORM => {
                if c == 0 {
                    Field { num: Num::N8, offset: 2, width: 1, divisor: 1 }
                } else if c == 1 {
                    Field { num: Num::N8, offset: 1, width: 1, divisor: 1 }
                } else if c == 2 {
                    Field { num: Num::N8, offset: 0, width: 1, divisor: 1 }
                } else {
                    Field { num: Num::N8, offset: 3, width: 1, divisor: 1 }
                }
            },
            Format::B8G8R8X8_UNORM => {
                if c == 0 {
                    Field { num: Num::N8, offset: 2, width: 1, divisor: 1 }
                } else if c == 1 {
                    Field { num: Num::N8, offset: 1, width: 1, divisor: 1 }
                } else {
                    Field { num: Num::N8, offset: 0, width: 1, divisor: 1 }
                }
            },
            Format::B5G6R5_UNORM => {
                if c == 0 {
                    Field { num: Num::N5, offset: 0, width: 2, divisor: 2048 }
                } else if c == 1 {
                    Field { num: Num::N6, offset: 0, width: 2, divisor: 32 }
                } else {
                    Field { num: Num::N5, offset: 0, width: 2, divisor: 1 }
                }
            },
            Format::B5G5R5A1_UNORM => {
                if c == 0 {
                    Field { num: Num::N5, offset: 0, width: 2, divisor: 1024 }
                } else if c == 1 {
                    Field { num: Num::N5, offset: 0, width: 2, divisor: 32 }
                } else if c == 2 {
                    Field { num: Num::N5, offset: 0, width: 2, divisor: 1 }
                } else {
                    Field { num: Num::N1, offset: 0, width: 2, divisor: 32768 }
                }
            },
            Format::B4G4R4A4_UNORM => {
                if c == 0 {
                    Field { num: Num::N4, offset: 0, width: 2, divisor: 256 }
                } else if c == 1 {
                    Field { num: Num::N4, offset: 0, width: 2, divisor: 16 }
                } else if c == 2 {
                    Field { num: Num::N4, offset: 0, width: 2, divisor: 1 }
                } else {
                    Field { num: Num::N4, offset: 0, width: 2, divisor: 4096 }
                }
            },
            Format::A4B4G4R4_UNORM => {
                if c == 0 {
                    Field { num: Num::N4, offset: 0, width: 2, divisor: 4096 }
                } else if c == 1 {
                    Field { num: Num::N4, offset: 0, width: 2, divisor: 256 }
                } else if c == 2 {
                    Field { num: Num::N4, offset: 0, width: 2, divisor: 16 }
                } else {
                    Field { num: Num::N4, offset: 0, width: 2, divisor: 1 }
                }
            },
            Format::R8_SNORM => {
                Field { num: Num::S8, offset: 0, width: 1, divisor: 1 }
            },
            Format::R8_UNORM => {
                Field { num: Num::N8, offset: 0, width: 1, divisor: 1 }
            },
            Format::R8G8_UNORM => {
                if c == 0 {
                    Field { num: Num::N8, offset: 0, width: 1, divisor: 1 }
                } else if c == 1 {
                    Field { num: Num::N8, offset: 1, width: 1, divisor: 1 }
                } else {
                    Field { num: Num::Zero, offset: 0, width: 1, divisor: 1 }
                }
            },
            Format::R8G8_SNORM => {
                if c == 0 {
                    Field { num: Num::S8, offset: 0, width: 1, divisor: 1 }
                } else if c == 1 {
                    Field { num: Num::S8, offset: 1, width: 1, divisor: 1 }
                } else {
                    Field { num: Num::Half, offset: 0, width: 1, divisor: 1 }
                }
            },
            Format::A8_UNORM => {
                Field { num: Num::N8, offset: 0, width: 1, divisor: 1 }
            },
            Format::R16_UNORM => {
                Field { num: Num::N16, offset: 0, width: 2, divisor: 1 }
            },
            Format::R16_SNORM => {
                Field { num: Num::S16, offset: 0, width: 2, divisor: 1 }
            },
            Format::R16G16_UNORM => {
                if c == 0 {
                    Field { num: Num::N16, offset: 0, width: 2, divisor: 1 }
                } else if c == 1 {
                    Field { num: Num::N16, offset: 2, width: 2, divisor: 1 }
                } else {
                    Field { num: Num::Zero, offset: 0, width: 1, divisor: 1 }
                }
            },
            Format::R16G16_SNORM => {
                if c == 0 {
                    Field { num: Num::S16, offset: 0, width: 2, divisor: 1 }
                } else if c == 1 {
                    Field { num: Num::S16, offset: 2, width: 2, divisor: 1 }
                } else {
                    Field { num: Num::Half, offset: 0, width: 1, divisor: 1 }
                }
            },
            Format::R16G16B16A16_UNORM => {
                if c == 0 {
                    Field { num: Num::N16, offset: 0, width: 2, divisor: 1 }
                } else if c == 1 {
                    Field { num: Num::N16, offset: 2, width: 2, divisor: 1 }
                } else if c == 2 {
                    Field { num: Num::N16, offset: 4, width: 2, divisor: 1 }
                } else {
                    Field { num: Num::N16, offset: 6, width: 2, divisor: 1 }
                }
            },
            Format::R16G16B16A16_SNORM => {
                if c == 0 {
                    Field { num: Num::S16, offset: 0, width: 2, divisor: 1 }
                } else if c == 1 {
                    Field { num: Num::S16, offset: 2, width: 2, divisor: 1 }
                } else if c == 2 {
                    Field { num: Num::S16, offset: 4, width: 2, divisor: 1 }
                } else {
                    Field { num: Num::S16, offset: 6, width: 2, divisor: 1 }
                }
            },
            Format::R10G10B10A2_UNORM => {
                if c == 0 {
                    Field { num: Num::N10, offset: 0, width: 4, divisor: 1 }
                } else if c == 1 {
                    Field { num: Num::N10, offset: 0, width: 4, divisor: 1024 }
                } else if c == 2 {
                    Field { num: Num::N10, offset: 0, width: 4, divisor: 1048576 }
                } else {
                    Field { num: Num::N2, offset: 0, width: 4, divisor: 1073741824 }
                }
            },
            Format::R11G11B10_FLOAT => {
                if c == 0 {
                    Field { num: Num::Fp11, offset: 0, width: 4, divisor: 1 }
                } else if c == 1 {
                    Field { num: Num::Fp11, offset: 0, width: 4, divisor: 2048 }
                } else {
                    Field { num: Num::Fp10, offset: 0, width: 4, divisor: 4194304 }
                }
            },
            Format::R16_FLOAT => {
                Field { num: Num::Fp16, offset: 0, width: 2, divisor: 1 }
            },
            Format::R16G16_FLOAT => {
                if c == 0 {
                    Field { num: Num::Fp16, offset: 0, width: 2, divisor: 1 }
                } else if c == 1 {
                    Field { num: Num::Fp16, offset: 2, width: 2, divisor: 1 }
                } else {
                    Field { num: Num::Zero, offset: 0, width: 1, divisor: 1 }
                }
            },
            Format::R16G16B16A16_FLOAT => {
                if c == 0 {
                    Field { num: Num::Fp16, offset: 0, width: 2, divisor: 1 }
                } else if c == 1 {
                    Field { num: Num::Fp16, offset: 2, width: 2, divisor: 1 }
                } else if c == 2 {
                    Field { num: Num::Fp16, offset: 4, width: 2, divisor: 1 }
                } else {
                    Field { num: Num::Fp16, offset: 6, width: 2, divisor: 1 }
                }
            },
            Format::R32_FLOAT => {
                Field { num: Num::Fp32, offset: 0, width: 4, divisor: 1 }
            },
            Format::R32G32_FLOAT => {
                if c == 0 {
                    Field { num: Num::Fp32, offset: 0, width: 4, divisor: 1 }
                } else if c == 1 {
                    Field { num: Num::Fp32, offset: 4, width: 4, divisor: 1 }
                } else {
                    Field { num: Num::Zero, offset: 0, width: 1, divisor: 1 }
                }
            },
            Format::R32G32B32_FLOAT => {
                if c == 0 {
                    Field { num: Num::Fp32, offset: 0, width: 4, divisor: 1 }
                } else if c == 1 {
                    Field { num: Num::Fp32, offset: 4, width: 4, divisor: 1 }
                } else {
                    Field { num: Num::Fp32, offset: 8, width: 4, divisor: 1 }
                }
            },
            Format::R32G32B32A32_FLOAT => {
                if c == 0 {
                    Field { num: Num::Fp32, offset: 0, width: 4, divisor: 1 }
                } else if c == 1 {
                    Field { num: Num::Fp32, offset: 4, width: 4, divisor: 1 }
                } else if c == 2 {
                    Field { num: Num::Fp32, offset: 8, width: 4, divisor: 1 }
                } else {
                    Field { num: Num::Fp32, offset: 12, width: 4, divisor: 1 }
                }
            },
            Format::R10G10B10_XR_BIAS_A2_UNORM => {
                if c == 0 {
                    Field { num: Num::Xr10, offset: 0, width: 4, divisor: 1 }
                } else if c == 1 {
                    Field { num: Num::Xr10, offset: 0, width: 4, divisor: 1024 }
                } else if c == 2 {
                    Field { num: Num::Xr10, offset: 0, width: 4, divisor: 1048576 }
                } else {
                    Field { num: Num::N2, offset: 0, width: 4, divisor: 1073741824 }
                }
            },
            Format::R1_UNORM => {
                if k == 0 {
                    Field { num: Num::N1, offset: 0, width: 1, divisor: 128 }
                } else if k == 1 {
                    Field { num: Num::N1, offset: 0, width: 1, divisor: 64 }
                } else if k == 2 {
                    Field { num: Num::N1, offset: 0, width: 1, divisor: 32 }
                } else if k == 3 {
                    Field { num: Num::N1, offset: 0, width: 1, divisor: 16 }
                } else if k == 4 {
                    Field { num: Num::N1, offset: 0, width: 1, divisor: 8 }
                } else if k == 5 {
                    Field { num: Num::N1, offset: 0, width: 1, divisor: 4 }
                } else if k == 6 {
                    Field { num: Num::N1, offset: 0, width: 1, divisor: 2 }
                } else {
                    Field { num: Num::N1, offset: 0, width: 1, divisor: 1 }
                }
            },
            Format::R8G8_B8G8_UNORM => {
                if k == 0 {
                    if c == 0 {
                        Field { num: Num::N8, offset: 0, width: 1, divisor: 1 }
                    } else if c == 1 {
                        Field { num: Num::N8, offset: 1, width: 1, divisor: 1 }
                    } else {
                        Field { num: Num::N8, offset: 2, width: 1, divisor: 1 }
                    }
                } else {
                    if c == 0 {
                        Field { num: Num::N8, offset: 0, width: 1, divisor: 1 }
                    } else if c == 1 {
                        Field { num: Num::N8, offset: 3, width: 1, divisor: 1 }
                    } else {
                        Field { num: Num::N8, offset: 2, width: 1, divisor: 1 }
                    }
                }
            },
            Format::G8R8_G8B8_UNORM => {
                if k == 0 {
                    if c == 0 {
                        Field { num: Num::N8, offset: 1, width: 1, divisor: 1 }
                    } else if c == 1 {
                        Field { num: Num::N8, offset: 0, width: 1, divisor: 1 }
                    } else {
                        Field { num: Num::N8, offset: 3, width: 1, divisor: 1 }
                    }
                } else {
                    if c == 0 {
                        Field { num: Num::N8, offset: 1, width: 1, divisor: 1 }
                    } else if c == 1 {
                        Field { num: Num::N8, offset: 2, width: 1, divisor: 1 }
                    } else {
                        Field { num: Num::N8, offset: 3, width: 1, divisor: 1 }
                    }
                }
            },
            Format::AYUV => {
                if c == 0 {
                    Field { num: Num::N8, offset: 2, width: 1, divisor: 1 }
                } else if c == 1 {
                    Field { num: Num::N8, offset: 1, width: 1, divisor: 1 }
                } else if c == 2 {
                    Field { num: Num::N8, offset: 0, width: 1, divisor: 1 }
                } else {
                    Field { num: Num::N8, offset: 3, width: 1, divisor: 1 }
                }
            },
            Format::Y410 => {
                if c == 0 {
                    Field { num: Num::N10, offset: 0, width: 4, divisor: 1024 }
                } else if c == 1 {
                    Field { num: Num::N10, offset: 0, width: 4, divisor: 1 }
                } else if c == 2 {
                    Field { num: Num::N10, offset: 0, width: 4, divisor: 1048576 }
                } else {
                    Field { num: Num::N2, offset: 0, width: 4, divisor: 1073741824 }
                }
            },
            Format::Y416 => {
                if c == 0 {
                    Field { num: Num::N16, offset: 2, width: 2, divisor: 1 }
                } else if c == 1 {
                    Field { num: Num::N16, offset: 0, width: 2, divisor: 1 }
                } else if c == 2 {
                    Field { num: Num::N16, offset: 4, width: 2, divisor: 1 }
                } else {
                    Field { num: Num::N16, offset: 6, width: 2, divisor: 1 }
                }
            },
            Format::YUY2 => {
                if k == 0 {
                    if c == 0 {
                        Field { num: Num::N8, offset: 0, width: 1, divisor: 1 }
                    } else if c == 1 {
                        Field { num: Num::N8, offset: 1, width: 1, divisor: 1 }
                    } else {
                        Field { num: Num::N8, offset: 3, width: 1, divisor: 1 }
                    }
                } else {
                    if c == 0 {
                        Field { num: Num::N8, offset: 2, width: 1, divisor: 1 }
                    } else if c == 1 {
                        Field { num: Num::N8, offset: 1, width: 1, divisor: 1 }
                    } else {
                        Field { num: Num::N8, offset: 3, width: 1, divisor: 1 }
                    }
                }
            },
            Format::UYVY => {
                if k == 0 {
                    if c == 0 {
                        Field { num: Num::N8, offset: 1, width: 1, divisor: 1 }
                    } else if c == 1 {
                        Field { num: Num::N8, offset: 0, width: 1, divisor: 1 }
                    } else {
                        Field { num: Num::N8, offset: 2, width: 1, divisor: 1 }
                    }
                } else {
                    if c == 0 {
                        Field { num: Num::N8, offset: 3, width: 1, divisor: 1 }
                    } else if c == 1 {
                        Field { num: Num::N8, offset: 0, width: 1, divisor: 1 }
                    } else {
                        Field { num: Num::N8, offset: 2, width: 1, divisor: 1 }
                    }
                }
            },
            Format::Y210 => {
                if k == 0 {
                    if c == 0 {
                        Field { num: Num::N16, offset: 0, width: 2, divisor: 1 }
                    } else if c == 1 {
                        Field { num: Num::N16, offset: 2, width: 2, divisor: 1 }
                    } else {
                        Field { num: Num::N16, offset: 6, width: 2, divisor: 1 }
                    }
                } else {
                    if c == 0 {
                        Field { num: Num::N16, offset: 4, width: 2, divisor: 1 }
                    } else if c == 1 {
                        Field { num: Num::N16, offset: 2, width: 2, divisor: 1 }
                    } else {
                        Field { num: Num::N16, offset: 6, width: 2, divisor: 1 }
                    }
                }
            },
            Format::Y216 => {
                if k == 0 {
                    if c == 0 {
                        Field { num: Num::N16, offset: 0, width: 2, divisor: 1 }
                    } else if c == 1 {
                        Field { num: Num::N16, offset: 2, width: 2, divisor: 1 }
                    } else {
                        Field { num: Num::N16, offset: 6, width: 2, divisor: 1 }
                    }
                } else {
                    if c == 0 {
                        Field { num: Num::N16, offset: 4, width: 2, divisor: 1 }
                    } else if c == 1 {
                        Field { num: Num::N16, offset: 2, width: 2, divisor: 1 }
                    } else {
                        Field { num: Num::N16, offset: 6, width: 2, divisor: 1 }
                    }
                }
            },
            _ => Field { num: Num::Zero, offset: 0, width: 1, divisor: 1 },
        }
    }
}

/// The word of `width` bytes at `offset` of a block, low byte first.
pub open spec fn word(block: Seq<u8>, offset: int, width: int) -> nat {
    if width == 1 {
        block[offset] as nat
    } else if width == 2 {
        block[offset] as nat + 256 * (block[offset + 1] as nat)
    } else {
        block[offset] as nat + 256 * (block[offset + 1] as nat) + 65536 * (block[offset + 2] as nat)
            + 16777216 * (block[offset + 3] as nat)
    }
}

/// The raw value of a field of a block.
pub open spec fn field_raw(f: Field, block: Seq<u8>) -> nat {
    (word(block, f.offset as int, f.width as int) / (f.divisor as nat)) % f.num.raw_count()
}

/// A field lies within a block of `bytes` bytes, its word is of 1, 2 or 4
/// bytes, and its divisor is not 0.
pub open spec fn field_fits(f: Field, bytes: nat) -> bool {
    &&& f.width == 1 || f.width == 2 || f.width == 4
    &&& f.offset + f.width <= bytes
    &&& f.divisor >= 1
}

/// Every field of a format that has fields lies within its block.
pub proof fn lemma_fields_fit(format: Format, k: nat, c: nat)
    ensures
        field_fits(format.field(k, c), format.block_shape().bytes as nat),
{
}

} // verus!
