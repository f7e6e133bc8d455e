//! Decoding of encoded surfaces into plain pixel arrays.

pub mod adapt;
pub mod bcn;
pub mod block_surface;
pub mod channel;
pub mod convert;
pub mod decoder;
pub mod fields;
pub mod plan;
pub mod read_write;
pub mod surface;
pub mod util;

use vstd::prelude::*;
use crate::decode::decoder::{decode_outcome, decode_rect_outcome, precisions_distinct, same_channels,
    supports_color, surface_bytes, DecodeContext, DecodeFn, DecodeOptions, DecodeRectFn,
    DecoderSet, DirectDecoder, RArgs, UncompressedDecoder};
use crate::decode::adapt::target_bpp;
use crate::decode::read_write::{pixel_at, ProcessPixelsFn};
use crate::decode::surface::lemma_rect_is_part_of_surface;
use crate::error::DecodeError;
use crate::format::Format;
use crate::pixel::{ColorFormat, ColorFormatSet, Precision, Rect, Size};

verus! {

/// The two precisions besides `first`, in the order U8, U16, F32.
fn other_precisions(first: Precision) -> (r: (Precision, Precision))
    ensures
        r.0 != first,
        r.1 != first,
        r.0 != r.1,
{
    match first {
        Precision::U8 => (Precision::U16, Precision::F32),
        Precision::U16 => (Precision::U8, Precision::F32),
        Precision::F32 => (Precision::U8, Precision::U16),
    }
}

/// Whether the library has decoders for a format.
pub open spec fn is_decodable(format: Format) -> bool {
    format.is_plain() || format.is_bcn()
}

/// The decoders of the formats that store their channels one by one: one
/// decoder per precision, the one of the native precision first.
fn uncompressed_decoders(format: Format) -> (set: DecoderSet)
    requires
        format.is_plain(),
    ensures
        set.wf(),
        set.format() == format,
        set.native_color_spec() == format.color_spec(),
        set.optimized.is_none(),
{
    let native = format.color();
    let shape = format.block_shape_of();
    let (second, third) = other_precisions(native.precision);
    let c0 = native;
    let c1 = ColorFormat { channels: native.channels, precision: second };
    let c2 = ColorFormat { channels: native.channels, precision: third };
    let d0 = UncompressedDecoder::new(
        c0,
        ProcessPixelsFn { format, precision: c0.precision },
        shape.bytes,
        c0.bytes_per_pixel(),
    );
    let d1 = UncompressedDecoder::new(
        c1,
        ProcessPixelsFn { format, precision: c1.precision },
        shape.bytes,
        c1.bytes_per_pixel(),
    );
    let d2 = UncompressedDecoder::new(
        c2,
        ProcessPixelsFn { format, precision: c2.precision },
        shape.bytes,
        c2.bytes_per_pixel(),
    );
    let decoders: Vec<UncompressedDecoder> = vec![d0, d1, d2];
    proof {
        assert(decoders@[0] == d0 && decoders@[1] == d1 && decoders@[2] == d2);
        assert(precisions_distinct(decoders@, 3));
        assert(same_channels(decoders@, 3));
    }
    DecoderSet::new_uncompressed(decoders)
}

/// The decoders of the block-compressed formats: one per precision, each
/// for all channels, the one of the native precision first.
fn block_decoders(format: Format) -> (set: DecoderSet)
    requires
        format.is_bcn(),
    ensures
        set.wf(),
        set.format() == format,
        set.native_color_spec() == format.color_spec(),
        set.optimized.is_none(),
{
    let native = format.color();
    let (second, third) = other_precisions(native.precision);
    let c1 = ColorFormat { channels: native.channels, precision: second };
    let c2 = ColorFormat { channels: native.channels, precision: third };
    let f0 = ProcessPixelsFn { format, precision: native.precision };
    let f1 = ProcessPixelsFn { format, precision: second };
    let f2 = ProcessPixelsFn { format, precision: third };
    let d0 = DirectDecoder::new_with_all_channels(native, DecodeFn(f0), DecodeRectFn(f0));
    let d1 = DirectDecoder::new_with_all_channels(c1, DecodeFn(f1), DecodeRectFn(f1));
    let d2 = DirectDecoder::new_with_all_channels(c2, DecodeFn(f2), DecodeRectFn(f2));
    let decoders: Vec<DirectDecoder> = vec![d0, d1, d2];
    proof {
        assert(decoders@[0] == d0 && decoders@[1] == d1 && decoders@[2] == d2);
        assert forall|c: ColorFormat| supports_color(decoders@, 3, c) by {
            let at: int = if c.precision == native.precision {
                0
            } else if c.precision == second {
                1
            } else {
                2
            };
            assert(decoders@[at].supported_colors.contains_spec(c));
        }
    }
    DecoderSet::new(decoders)
}

/// The decoders of a format, `None` where the library has none for it.
pub fn get_decoders(format: Format) -> (r: Option<DecoderSet>)
    ensures
        r.is_some() == is_decodable(format),
        r matches Some(set) ==> set.wf() && set.format() == format && set.native_color_spec()
            == format.color_spec(),
{
    if format.has_processor() {
        Some(uncompressed_decoders(format))
    } else if format.has_block_decoder() {
        Some(block_decoders(format))
    } else {
        None
    }
}

/// Whether a format can be decoded to a colour format. A format that has
/// decoders can be decoded to every colour format.
pub fn supports(format: Format, color: ColorFormat) -> (b: bool)
    ensures
        b == is_decodable(format),
{
    format.has_processor() || format.has_block_decoder()
}

/// The colour formats that a format can be decoded to: all of them where
/// the format has decoders, none else.
pub fn supported_color_formats(format: Format) -> (set: ColorFormatSet)
    ensures
        forall|c: ColorFormat| set.contains_spec(c) == is_decodable(format),
{
    if format.has_processor() || format.has_block_decoder() {
        ColorFormatSet::all()
    } else {
        ColorFormatSet::empty()
    }
}

/// Decodes a whole surface of a format from its encoded bytes.
///
/// The output buffer must have exactly the length of the decoded surface.
/// Decoded values of more than one byte are stored low byte first.
pub fn decode(
    format: Format,
    encoded: &[u8],
    size: Size,
    color: ColorFormat,
    output: &mut [u8],
    options: &DecodeOptions,
) -> (r: Result<(), DecodeError>)
    ensures
        final(output)@.len() == old(output)@.len(),
        !is_decodable(format) ==> r == Err::<(), DecodeError>(
            DecodeError::UnsupportedColorFormat { format, color },
        ) && final(output)@ == old(output)@,
        is_decodable(format) ==> decode_outcome(
            format,
            color,
            encoded@,
            size,
            old(output)@,
            final(output)@,
            r,
        ),
{
    match get_decoders(format) {
        Some(decoders) => decoders.decode(color, encoded, size, output, options),
        None => Err(DecodeError::UnsupportedColorFormat { format, color }),
    }
}

/// Decodes a rectangle of a surface of a format from the encoded bytes of
/// the surface, into an output buffer whose rows are `row_pitch` bytes
/// apart.
pub fn decode_rect(
    format: Format,
    encoded: &[u8],
    size: Size,
    rect: Rect,
    color: ColorFormat,
    output: &mut [u8],
    row_pitch: usize,
    options: &DecodeOptions,
) -> (r: Result<(), DecodeError>)
    ensures
        final(output)@.len() == old(output)@.len(),
        !is_decodable(format) ==> r == Err::<(), DecodeError>(
            DecodeError::UnsupportedColorFormat { format, color },
        ) && final(output)@ == old(output)@,
        is_decodable(format) ==> decode_rect_outcome(
            format,
            color,
            encoded@,
            size,
            rect,
            row_pitch,
            options.memory_limit,
            old(output)@,
            final(output)@,
            r,
        ),
{
    match get_decoders(format) {
        Some(decoders) => decoders.decode_rect(
            color,
            encoded,
            size,
            rect,
            output,
            row_pitch,
            options,
        ),
        None => Err(DecodeError::UnsupportedColorFormat { format, color }),
    }
}

/// Decoding a rectangle gives the pixels that decoding the whole surface
/// gives at the place of the rectangle: pixel `(rx, ry)` of the rectangle,
/// under its row pitch, is pixel `(rect.x + rx, rect.y + ry)` of the
/// surface.
pub proof fn lemma_decode_rect_matches_decode(
    format: Format,
    color: ColorFormat,
    encoded: Seq<u8>,
    size: Size,
    rect: Rect,
    row_pitch: usize,
    memory_limit: usize,
    full_before: Seq<u8>,
    full: Seq<u8>,
    part_before: Seq<u8>,
    part: Seq<u8>,
    rx: int,
    ry: int,
)
    requires
        is_decodable(format),
        decode_outcome(format, color, encoded, size, full_before, full, Ok(())),
        decode_rect_outcome(
            format,
            color,
            encoded,
            size,
            rect,
            row_pitch,
            memory_limit,
            part_before,
            part,
            Ok(()),
        ),
        0 <= rx < rect.width,
        0 <= ry < rect.height,
    ensures
        pixel_at(part, ry * row_pitch, color.bpp() as int, rx) == pixel_at(
            full,
            (rect.y + ry) * (size.width * color.bpp()),
            color.bpp() as int,
            rect.x + rx,
        ),
{
    let pf = ProcessPixelsFn { format, precision: color.precision };
    let context = DecodeContext { color, size, memory_limit };
    assert(target_bpp(pf, color.channels) == color.bpp());
    // the checks of the rectangle passed, so it lies within the surface,
    // which is not empty then
    assert(RArgs::check(part_before.len() as usize, row_pitch, rect, context).is_ok());
    assert(rect.within(size));
    assert(!size.is_empty_spec());
    assert(full_before.len() == size.pixels_spec() * color.bpp());
    assert(encoded.len() >= surface_bytes(format, size));
    lemma_rect_is_part_of_surface(
        pf,
        color.channels,
        encoded,
        size,
        rect,
        row_pitch as int,
        full,
        part_before,
        part,
        rx,
        ry,
    );
}

} // verus!
