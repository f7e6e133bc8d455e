//! What can go wrong.

use vstd::prelude::*;
use crate::format::Format;
use crate::header::{DxgiFormat, FourCC, HeaderError};
use crate::pixel::ColorFormat;

verus! {

/// A header names a format that the library does not know.
#[derive(Debug, Clone, Copy, PartialEq, Eq, Structural)]
pub enum FormatError {
    UnsupportedDxgiFormat(DxgiFormat),
    UnsupportedFourCC(FourCC),
    UnsupportedPixelFormat,
}

/// Why a surface could not be decoded.
#[derive(Debug, Clone, Copy, PartialEq, Eq, Structural)]
pub enum DecodeError {
    /// Decoding would take more scratch memory than the options allow.
    MemoryLimitExceeded,
    /// The output buffer does not have the length of the decoded surface.
    UnexpectedBufferSize { expected: usize },
    /// The row pitch is shorter than one row of the rectangle.
    RowPitchTooSmall { required_minimum: usize },
    /// The output buffer is too short for the rows of the rectangle.
    RectBufferTooSmall { required_minimum: usize },
    /// The rectangle reaches outside the surface.
    RectOutOfBounds,
    /// The format cannot be decoded to the colour format asked for.
    UnsupportedColorFormat { format: Format, color: ColorFormat },
    /// The header declares more array elements than the options allow.
    ArraySizeTooBig(u32),
    /// The header names a format that the library does not know.
    Format(FormatError),
    /// The header describes more data than can be addressed.
    DataLayoutTooBig,
    /// The header gives no mipmap level, or more than a dimension has bits.
    UnsupportedMipmapCount(u32),
    /// The encoded data ends before the surface does.
    UnexpectedEof,
    /// The bytes of the file are no header.
    Header(HeaderError),
}

/// Why a surface could not be encoded.
#[derive(Debug, Clone, Copy, PartialEq, Eq, Structural)]
pub enum EncodeError {
    /// The encoder does not take pixels of this colour format.
    UnsupportedColorFormat(ColorFormat),
    /// The pixel data does not have the length of the surface.
    UnexpectedBufferSize { expected: usize },
    /// The library has no encoder for the format.
    UnsupportedFormat(Format),
}

} // verus!
