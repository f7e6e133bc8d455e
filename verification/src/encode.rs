//! Encoding of plain pixel arrays into encoded surfaces.

pub mod mean;
pub mod subsample;
pub mod uncompressed;
pub mod universal;

use vstd::prelude::*;
use crate::decode::adapt::{lemma_adapt_identity, target_bpp};
use crate::decode::decoder::{decoded_len, surface_len};
use crate::decode::channel::{channel_value, Num};
use crate::decode::fields::{field_raw, word, Field};
use crate::decode::read_write::{block_channel, block_pixel, encoded_pixel, lemma_mul_le,
    lemma_mul_succ, pixel_at, value_byte, ProcessPixelsFn};
use crate::decode::surface::{decoded_surface, lemma_plain_is_not_bcn, row_bytes, surface_pixel};
use crate::encode::uncompressed::{first_encoder, surface_appended, EncodeFn, Flags,
    UncompressedEncoder};
use crate::encode::universal::{lemma_channel_keeps_value, lemma_universal_field, raw_of_single,
    single_of, source_index, universal_pixel};
use crate::error::EncodeError;
use crate::format::Format;
use crate::pixel::{Channels, ColorFormat, Precision, Size};

verus! {

/// How the pixels of a format that has encoders are laid out: the colour
/// format that is copied as it is, and whether red and blue change places,
/// the fourth byte is filled, or the values are signed.
#[derive(Debug, Clone, Copy, PartialEq, Eq, Structural)]
pub struct EncodedLayout {
    pub color: ColorFormat,
    pub swap_rb: bool,
    pub opaque: bool,
    pub snorm: bool,
}

impl Format {
    /// The layout of the formats that have encoders, `None` for the others.
    pub open spec fn encoded_layout(self) -> Option<EncodedLayout> {
        match self {
            Format::R8G8B8_UNORM => Some(plain_spec(Channels::Rgb, Precision::U8, false)),
            Format::B8G8R8_UNORM => Some(swapped_spec(Channels::Rgb, false)),
            Format::R8G8B8A8_UNORM => Some(plain_spec(Channels::Rgba, Precision::U8, false)),
            Format::R8G8B8A8_SNORM => Some(plain_spec(Channels::Rgba, Precision::U8, true)),
            Format::B8G8R8A8_UNORM => Some(swapped_spec(Channels::Rgba, false)),
            Format::B8G8R8X8_UNORM => Some(swapped_spec(Channels::Rgba, true)),
            Format::R8_UNORM => Some(plain_spec(Channels::Grayscale, Precision::U8, false)),
            Format::R8_SNORM => Some(plain_spec(Channels::Grayscale, Precision::U8, true)),
            Format::A8_UNORM => Some(plain_spec(Channels::Alpha, Precision::U8, false)),
            Format::R16_UNORM => Some(plain_spec(Channels::Grayscale, Precision::U16, false)),
            Format::R16_SNORM => Some(plain_spec(Channels::Grayscale, Precision::U16, true)),
            Format::R16G16B16A16_UNORM => Some(plain_spec(Channels::Rgba, Precision::U16, false)),
            Format::R16G16B16A16_SNORM => Some(plain_spec(Channels::Rgba, Precision::U16, true)),
            Format::R32_FLOAT => Some(plain_spec(Channels::Grayscale, Precision::F32, false)),
            Format::R32G32B32_FLOAT => Some(plain_spec(Channels::Rgb, Precision::F32, false)),
            Format::R32G32B32A32_FLOAT => Some(plain_spec(Channels::Rgba, Precision::F32, false)),
            _ => None,
        }
    }

    /// The layout of the formats that have encoders, `None` for the others.
    pub fn encoded_layout_of(self) -> (r: Option<EncodedLayout>)
        ensures
            r == self.encoded_layout(),
            r matches Some(l) ==> (l.swap_rb ==> l.color.precision == Precision::U8 && (
            l.color.channels == Channels::Rgb || l.color.channels == Channels::Rgba) && !l.snorm)
                && (l.opaque ==> l.swap_rb && l.color.channels == Channels::Rgba) && (l.snorm
                ==> l.color.precision != Precision::F32),
    {
        match self {
            Format::R8G8B8_UNORM => Some(plain_layout(Channels::Rgb, Precision::U8, false)),
            Format::B8G8R8_UNORM => Some(swapped_layout(Channels::Rgb, false)),
            Format::R8G8B8A8_UNORM => Some(plain_layout(Channels::Rgba, Precision::U8, false)),
            Format::R8G8B8A8_SNORM => Some(plain_layout(Channels::Rgba, Precision::U8, true)),
            Format::B8G8R8A8_UNORM => Some(swapped_layout(Channels::Rgba, false)),
            Format::B8G8R8X8_UNORM => Some(swapped_layout(Channels::Rgba, true)),
            Format::R8_UNORM => Some(plain_layout(Channels::Grayscale, Precision::U8, false)),
            Format::R8_SNORM => Some(plain_layout(Channels::Grayscale, Precision::U8, true)),
            Format::A8_UNORM => Some(plain_layout(Channels::Alpha, Precision::U8, false)),
            Format::R16_UNORM => Some(plain_layout(Channels::Grayscale, Precision::U16, false)),
            Format::R16_SNORM => Some(plain_layout(Channels::Grayscale, Precision::U16, true)),
            Format::R16G16B16A16_UNORM => Some(plain_layout(Channels::Rgba, Precision::U16, false)),
            Format::R16G16B16A16_SNORM => Some(plain_layout(Channels::Rgba, Precision::U16, true)),
            Format::R32_FLOAT => Some(plain_layout(Channels::Grayscale, Precision::F32, false)),
            Format::R32G32B32_FLOAT => Some(plain_layout(Channels::Rgb, Precision::F32, false)),
            Format::R32G32B32A32_FLOAT => Some(plain_layout(Channels::Rgba, Precision::F32, false)),
            _ => None,
        }
    }
}

/// A layout without a change of places.
pub open spec fn plain_spec(channels: Channels, precision: Precision, snorm: bool) -> EncodedLayout {
    EncodedLayout { color: ColorFormat { channels, precision }, swap_rb: false, opaque: false, snorm }
}

/// A layout of 8-bit values in which red and blue change places.
pub open spec fn swapped_spec(channels: Channels, opaque: bool) -> EncodedLayout {
    EncodedLayout {
        color: ColorFormat { channels, precision: Precision::U8 },
        swap_rb: true,
        opaque,
        snorm: false,
    }
}

fn plain_layout(channels: Channels, precision: Precision, snorm: bool) -> (l: EncodedLayout)
    ensures
        l == plain_spec(channels, precision, snorm),
{
    EncodedLayout { color: ColorFormat { channels, precision }, swap_rb: false, opaque: false, snorm }
}

fn swapped_layout(channels: Channels, opaque: bool) -> (l: EncodedLayout)
    ensures
        l == swapped_spec(channels, opaque),
{
    EncodedLayout {
        color: ColorFormat { channels, precision: Precision::U8 },
        swap_rb: true,
        opaque,
        snorm: false,
    }
}

/// The function that encodes pixels of a colour format for a layout, `None`
/// where no encoder of the layout takes the colour format.
pub open spec fn layout_encode_fn(l: EncodedLayout, color: ColorFormat) -> Option<EncodeFn> {
    if color.precision != l.color.precision {
        None
    } else if l.swap_rb {
        Some(EncodeFn::SwapRb { target: l.color, opaque: l.opaque })
    } else if l.snorm {
        Some(EncodeFn::ColorConvert { target: l.color, snorm: true })
    } else if color == l.color {
        Some(EncodeFn::Copy)
    } else {
        Some(EncodeFn::ColorConvert { target: l.color, snorm: false })
    }
}

/// What the encoder for every colour format of a format keeps exactly.
pub open spec fn universal_flags(format: Format) -> Flags {
    match format {
        Format::R8G8_UNORM | Format::R8G8_B8G8_UNORM | Format::G8R8_G8B8_UNORM => Flags(
            Flags::EXACT_U8,
        ),
        Format::R16G16_UNORM => Flags(Flags::EXACT_U16),
        Format::R32G32_FLOAT => Flags(Flags::EXACT_F32),
        _ => Flags(0),
    }
}

/// What the encoder for every colour format of a format keeps exactly.
fn universal_flags_of(format: Format) -> (f: Flags)
    ensures
        f == universal_flags(format),
{
    match format {
        Format::R8G8_UNORM | Format::R8G8_B8G8_UNORM | Format::G8R8_G8B8_UNORM => Flags(
            Flags::EXACT_U8,
        ),
        Format::R16G16_UNORM => Flags(Flags::EXACT_U16),
        Format::R32G32_FLOAT => Flags(Flags::EXACT_F32),
        _ => Flags(0),
    }
}

/// Whether the library has encoders for a format.
pub open spec fn has_encoders(format: Format) -> bool {
    format.encoded_layout().is_some() || format.has_universal()
        || format.has_universal_subsample()
}

/// The function that encodes pixels of a colour format for a format, `None`
/// where no encoder of the format takes the colour format.
///
/// The encoders that work on whole numbers come first. Where none of them
/// takes the colour format, the encoder for every colour format does, if
/// the format has one. A format whose blocks hold more than one pixel has
/// no other encoder than one for every colour format.
pub open spec fn format_encode_fn(format: Format, color: ColorFormat) -> Option<EncodeFn> {
    let by_layout = match format.encoded_layout() {
        Some(l) => layout_encode_fn(l, color),
        None => None,
    };
    if by_layout.is_some() {
        by_layout
    } else if format.has_universal() {
        Some(EncodeFn::Universal { format })
    } else if format.has_universal_subsample() {
        Some(EncodeFn::UniversalSubsample { format })
    } else {
        None
    }
}

/// The encoders of a layout, in the order in which they are tried.
fn encoders_of_layout(l: EncodedLayout) -> (encoders: Vec<UncompressedEncoder>)
    requires
        l.swap_rb ==> l.color.precision == Precision::U8 && (l.color.channels == Channels::Rgb
            || l.color.channels == Channels::Rgba) && !l.snorm,
        l.opaque ==> l.swap_rb && l.color.channels == Channels::Rgba,
        l.snorm ==> l.color.precision != Precision::F32,
    ensures
        1 <= encoders@.len() <= 2,
        forall|i: int| 0 <= i < encoders@.len() ==> (#[trigger] encoders@[i]).wf(),
        forall|c: ColorFormat|
            match #[trigger] layout_encode_fn(l, c) {
                Some(f) => first_encoder(encoders@, c, 0) < encoders@.len()
                    && encoders@[first_encoder(encoders@, c, 0)].encode == f,
                None => first_encoder(encoders@, c, 0) == encoders@.len(),
            },
{
    let encoders: Vec<UncompressedEncoder> = if l.swap_rb {
        vec![UncompressedEncoder::swap_rb(l.color.channels, l.opaque)]
    } else if l.snorm {
        vec![UncompressedEncoder::color_convert(l.color, true)]
    } else {
        vec![UncompressedEncoder::copy(l.color), UncompressedEncoder::color_convert(l.color, false)]
    };
    proof {
        reveal_with_fuel(first_encoder, 3);
        assert forall|c: ColorFormat|
            match #[trigger] layout_encode_fn(l, c) {
                Some(f) => first_encoder(encoders@, c, 0) < encoders@.len()
                    && encoders@[first_encoder(encoders@, c, 0)].encode == f,
                None => first_encoder(encoders@, c, 0) == encoders@.len(),
            } by {
            if l.swap_rb || l.snorm {
                assert(encoders@.len() == 1);
            } else {
                assert(encoders@.len() == 2);
            }
        }
    }
    encoders
}

/// An encoder that takes every colour format, behind other encoders, is
/// the first to take a colour format that none of the others takes.
proof fn lemma_first_encoder_push(
    encoders: Seq<UncompressedEncoder>,
    last: UncompressedEncoder,
    color: ColorFormat,
    from: int,
)
    requires
        0 <= from <= encoders.len(),
        last.color_formats.contains_spec(color),
    ensures
        first_encoder(encoders.push(last), color, from) == first_encoder(encoders, color, from),
    decreases encoders.len() - from,
{
    if from < encoders.len() {
        assert(encoders.push(last)[from] == encoders[from]);
        if !encoders[from].color_formats.contains_spec(color) {
            lemma_first_encoder_push(encoders, last, color, from + 1);
        }
    } else {
        assert(encoders.push(last)[from] == last);
        reveal_with_fuel(first_encoder, 2);
    }
}

/// The encoders of a format, `None` where the library has none for it.
pub fn get_encoders(format: Format) -> (r: Option<Vec<UncompressedEncoder>>)
    ensures
        r.is_some() == has_encoders(format),
        r matches Some(encoders) ==> {
            &&& forall|i: int| 0 <= i < encoders@.len() ==> (#[trigger] encoders@[i]).wf()
            &&& forall|c: ColorFormat|
                match #[trigger] format_encode_fn(format, c) {
                    Some(f) => first_encoder(encoders@, c, 0) < encoders@.len()
                        && encoders@[first_encoder(encoders@, c, 0)].encode == f,
                    None => first_encoder(encoders@, c, 0) == encoders@.len(),
                }
        },
{
    let layout = format.encoded_layout_of();
    let mut encoders: Vec<UncompressedEncoder> = match layout {
        Some(l) => encoders_of_layout(l),
        None => Vec::new(),
    };
    if !format.is_universal() {
        if format.is_universal_subsample() {
            let only = UncompressedEncoder::universal_subsample(format).add_flags(
                universal_flags_of(format),
            );
            let encoders: Vec<UncompressedEncoder> = vec![only];
            proof {
                reveal_with_fuel(first_encoder, 2);
                assert(encoders@.len() == 1);
                assert(encoders@[0] == only);
            }
            return Some(encoders);
        }
        if layout.is_none() {
            return None;
        }
        proof {
            assert forall|c: ColorFormat|
                match #[trigger] format_encode_fn(format, c) {
                    Some(f) => first_encoder(encoders@, c, 0) < encoders@.len()
                        && encoders@[first_encoder(encoders@, c, 0)].encode == f,
                    None => first_encoder(encoders@, c, 0) == encoders@.len(),
                } by {
                let by_layout = layout_encode_fn(layout.unwrap(), c);
            }
        }
        return Some(encoders);
    }
    let last = UncompressedEncoder::universal(format).add_flags(universal_flags_of(format));
    let ghost first = encoders@;
    encoders.push(last);
    proof {
        assert forall|i: int| 0 <= i < encoders@.len() implies (#[trigger] encoders@[i]).wf() by {
            if i < first.len() {
                assert(encoders@[i] == first[i]);
            }
        }
        assert forall|c: ColorFormat|
            match #[trigger] format_encode_fn(format, c) {
                Some(f) => first_encoder(encoders@, c, 0) < encoders@.len()
                    && encoders@[first_encoder(encoders@, c, 0)].encode == f,
                None => first_encoder(encoders@, c, 0) == encoders@.len(),
            } by {
            lemma_first_encoder_push(first, last, c, 0);
            lemma_first_encoder_bound(first, c, 0);
            let i = first_encoder(first, c, 0);
            if layout.is_some() {
                let by_layout = layout_encode_fn(layout.unwrap(), c);
                if i < first.len() {
                    assert(encoders@[i] == first[i]);
                }
            } else {
                reveal_with_fuel(first_encoder, 2);
            }
            if i == first.len() {
                assert(encoders@[i] == last);
            }
        }
    }
    Some(encoders)
}

/// The first encoder that takes a colour format stands at or behind the
/// place where the search starts, and not behind the end.
proof fn lemma_first_encoder_bound(encoders: Seq<UncompressedEncoder>, color: ColorFormat, from: int)
    requires
        0 <= from <= encoders.len(),
    ensures
        from <= first_encoder(encoders, color, from) <= encoders.len(),
    decreases encoders.len() - from,
{
    if from < encoders.len() && !encoders[from].color_formats.contains_spec(color) {
        lemma_first_encoder_bound(encoders, color, from + 1);
    }
}

/// Whether a format can be encoded from pixels of a colour format.
pub fn supports(format: Format, color: ColorFormat) -> (b: bool)
    ensures
        b == format_encode_fn(format, color).is_some(),
{
    match get_encoders(format) {
        Some(encoders) => {
            let set = uncompressed::supported_color_formats(&encoders);
            assert(format_encode_fn(format, color).is_some() == (first_encoder(
                encoders@,
                color,
                0,
            ) < encoders@.len()));
            set.contains(color)
        },
        None => false,
    }
}

/// What encoding a surface gives.
///
/// The format must have encoders and the pixel data must have the length of
/// the surface. Then the first encoder that takes the colour format encodes
/// the lines of the surface, and the encoded bytes are appended to the
/// output.
pub open spec fn encode_outcome(
    format: Format,
    color: ColorFormat,
    data: Seq<u8>,
    size: Size,
    before: Seq<u8>,
    after: Seq<u8>,
    r: Result<(), EncodeError>,
) -> bool {
    if !has_encoders(format) {
        r == Err::<(), EncodeError>(EncodeError::UnsupportedFormat(format)) && after == before
    } else if data.len() != size.pixels_spec() * color.bpp() {
        r == Err::<(), EncodeError>(
            EncodeError::UnexpectedBufferSize { expected: decoded_len(size, color) as usize },
        ) && after == before
    } else {
        match format_encode_fn(format, color) {
            None => r == Err::<(), EncodeError>(EncodeError::UnsupportedColorFormat(color))
                && after == before,
            Some(f) => r == Ok::<(), EncodeError>(()) && surface_appended(
                f,
                color,
                data,
                size.width as int,
                size.height as int,
                before,
                after,
            ),
        }
    }
}

/// Encodes a surface given as pixels of colour `color`, and appends the
/// encoded bytes to the output.
pub fn encode(format: Format, data: &[u8], size: Size, color: ColorFormat, out: &mut Vec<u8>) -> (r:
    Result<(), EncodeError>)
    ensures
        encode_outcome(format, color, data@, size, old(out)@, final(out)@, r),
{
    let encoders = match get_encoders(format) {
        Some(encoders) => encoders,
        None => {
            return Err(EncodeError::UnsupportedFormat(format));
        },
    };
    let required = surface_len(size, color);
    let data_len: usize = data.len();
    if !required.fits || data_len != required.len {
        return Err(EncodeError::UnexpectedBufferSize { expected: required.len });
    }
    proof {
        assert(size.height * size.width == size.pixels_spec()) by (nonlinear_arith)
            requires
                size.pixels_spec() == size.width * size.height,
        ;
    }
    uncompressed::encode(&encoders, data, size.width as usize, size.height as usize, color, out)
}

/// Whether pixels of the native colour of a format are its encoded pixels:
/// the format has encoders and neither exchanges channels nor stores signed
/// values.
pub open spec fn is_copied(format: Format) -> bool {
    format.encoded_layout() matches Some(l) && !l.swap_rb && !l.snorm
}

/// Byte `b` of a word is byte `b` of its value.
pub proof fn lemma_word_bytes(block: Seq<u8>, offset: int, width: int, b: int)
    requires
        width == 1 || width == 2 || width == 4,
        0 <= b < width,
        0 <= offset,
        offset + width <= block.len(),
    ensures
        word(block, offset, width) < 0x1_0000_0000,
        width == 1 ==> word(block, offset, width) < 0x100,
        width == 2 ==> word(block, offset, width) < 0x1_0000,
        value_byte(word(block, offset, width) as u32, b) == block[offset + b],
{
    let b0 = block[offset] as int;
    if width == 1 {
    } else if width == 2 {
        let b1 = block[offset + 1] as int;
        vstd::arithmetic::div_mod::lemma_fundamental_div_mod_converse(b0 + 256 * b1, 256, b1, b0);
    } else {
        let b1 = block[offset + 1] as int;
        let b2 = block[offset + 2] as int;
        let b3 = block[offset + 3] as int;
        let v = b0 + 256 * b1 + 65536 * b2 + 16777216 * b3;
        vstd::arithmetic::div_mod::lemma_fundamental_div_mod_converse(
            v,
            256,
            b1 + 256 * b2 + 65536 * b3,
            b0,
        );
        vstd::arithmetic::div_mod::lemma_fundamental_div_mod_converse(
            b1 + 256 * b2 + 65536 * b3,
            256,
            b2 + 256 * b3,
            b1,
        );
        vstd::arithmetic::div_mod::lemma_fundamental_div_mod_converse(
            v,
            65536,
            b2 + 256 * b3,
            b0 + 256 * b1,
        );
        vstd::arithmetic::div_mod::lemma_fundamental_div_mod_converse(b2 + 256 * b3, 256, b3, b2);
        vstd::arithmetic::div_mod::lemma_fundamental_div_mod_converse(
            v,
            16777216,
            b3,
            b0 + 256 * b1 + 65536 * b2,
        );
        vstd::arithmetic::div_mod::lemma_fundamental_div_mod_converse(b3, 256, 0, b3);
    }
}

/// In a format whose pixels are copied, the field of a channel is the whole
/// word of the channel, and the words follow each other in the order of the
/// channels.
pub proof fn lemma_copied_fields(format: Format, c: nat)
    requires
        is_copied(format),
        c < format.channels_spec().count_spec(),
    ensures
        format.encoded_layout().unwrap().color == format.color_spec(),
        format.has_fields(),
        format.block_shape().width == 1,
        format.block_shape().bytes as nat == format.color_spec().bpp(),
        format.field(0, c).divisor == 1,
        format.field(0, c).width as nat == format.precision_spec().size_spec(),
        format.field(0, c).offset as nat == c * format.precision_spec().size_spec(),
        format.field(0, c).num == match format.precision_spec() {
            Precision::U8 => Num::N8,
            Precision::U16 => Num::N16,
            Precision::F32 => Num::Fp32,
        },
{
    match format {
        Format::R8G8B8_UNORM => {},
        Format::R8G8B8A8_UNORM => {},
        Format::R8_UNORM => {},
        Format::A8_UNORM => {},
        Format::R16_UNORM => {},
        Format::R16G16B16A16_UNORM => {},
        Format::R32_FLOAT => {},
        Format::R32G32B32_FLOAT => {},
        Format::R32G32B32A32_FLOAT => {},
        _ => {},
    }
}

/// A channel that is a whole word of its own number format keeps its
/// bytes when it is decoded to the precision of that number format.
pub proof fn lemma_field_copies(f: Field, precision: Precision, block: Seq<u8>, b: int)
    requires
        f.divisor == 1,
        f.width as nat == precision.size_spec(),
        f.num == match precision {
            Precision::U8 => Num::N8,
            Precision::U16 => Num::N16,
            Precision::F32 => Num::Fp32,
        },
        f.offset + f.width <= block.len(),
        0 <= b < f.width,
    ensures
        value_byte(channel_value(f.num, field_raw(f, block), precision), b) == block[f.offset + b],
{
    lemma_word_bytes(block, f.offset as int, f.width as int, b);
    let raw = field_raw(f, block);
    assert(raw == word(block, f.offset as int, f.width as int));
    assert(channel_value(f.num, raw, precision) == raw as u32);
}

/// In a format whose pixels are copied, a channel decodes to the value of
/// its field.
pub proof fn lemma_copied_channel(format: Format, block: Seq<u8>, c: nat)
    requires
        is_copied(format),
    ensures
        block_channel(format, format.precision_spec(), block, 0, c) == channel_value(
            format.field(0, c).num,
            field_raw(format.field(0, c), block),
            format.precision_spec(),
        ),
{
}

/// In a format whose pixels are copied, an encoded pixel decodes to itself
/// in the native colour of the format.
pub proof fn lemma_copied_pixel_decodes_to_itself(format: Format, block: Seq<u8>)
    requires
        is_copied(format),
        block.len() == format.color_spec().bpp(),
    ensures
        block_pixel(format, format.precision_spec(), block, 0) == block,
{
    let precision = format.precision_spec();
    let size = precision.size_spec() as int;
    let count = format.channels_spec().count_spec() as int;
    let decoded = block_pixel(format, precision, block, 0);
    assert(decoded.len() == block.len());
    assert forall|j: int| 0 <= j < block.len() implies decoded[j] == block[j] by {
        let c = j / size;
        let b = j % size;
        vstd::arithmetic::div_mod::lemma_fundamental_div_mod(j, size);
        assert(0 <= c < count) by (nonlinear_arith)
            requires
                j == size * c + b,
                0 <= b < size,
                0 <= j < count * size,
                size > 0,
        ;
        lemma_copied_fields(format, c as nat);
        lemma_copied_channel(format, block, c as nat);
        lemma_mul_succ(c, size);
        lemma_mul_le(c + 1, count, size);
        lemma_mul_le(0, c, size);
        assert(c * size == size * c) by (nonlinear_arith);
        lemma_field_copies(format.field(0, c as nat), precision, block, b);
    }
    assert(decoded =~= block);
}

/// Decoding what was encoded gives the pixels back, in a format whose
/// pixels are copied: the decoded surface of the encoded bytes `data` holds
/// the pixels of `data`.
pub proof fn lemma_encode_then_decode(format: Format, data: Seq<u8>, size: Size, decoded: Seq<u8>, x: int, y: int)
    requires
        is_copied(format),
        data.len() == size.pixels_spec() * format.color_spec().bpp(),
        decoded_surface(
            ProcessPixelsFn { format, precision: format.precision_spec() },
            format.channels_spec(),
            data,
            size,
            decoded,
        ),
        0 <= x < size.width,
        0 <= y < size.height,
    ensures
        pixel_at(
            decoded,
            y * (size.width * format.color_spec().bpp()),
            format.color_spec().bpp() as int,
            x,
        ) == pixel_at(
            data,
            y * (size.width * format.color_spec().bpp()),
            format.color_spec().bpp() as int,
            x,
        ),
{
    let pf = ProcessPixelsFn { format, precision: format.precision_spec() };
    let bpp = format.color_spec().bpp() as int;
    let w = size.width as int;
    let h = size.height as int;
    let row = row_bytes(format, size.width as nat) as int;
    lemma_copied_fields(format, 0);
    assert(target_bpp(pf, format.channels_spec()) == bpp);
    // a row of the encoded surface has the bytes of a row of pixels
    crate::decode::read_write::lemma_run_of_blocks(format, size.width as nat);
    assert(row == w * bpp);
    // pixel (x, y) lies within the data
    lemma_mul_succ(y, w * bpp);
    lemma_mul_le(y + 1, h, w * bpp);
    lemma_mul_le(0, y, w * bpp);
    lemma_mul_succ(x, bpp);
    lemma_mul_le(x + 1, w, bpp);
    lemma_mul_le(0, x, bpp);
    assert(size.pixels_spec() * bpp == h * (w * bpp)) by (nonlinear_arith)
        requires
            size.pixels_spec() == w * h,
    ;
    let block = data.subrange(y * row + x * bpp, y * row + (x + 1) * bpp);
    lemma_copied_pixel_decodes_to_itself(format, block);
    reveal(surface_pixel);
    lemma_plain_is_not_bcn(format);
    assert(x / 1 == x && x % 1 == 0);
    assert(encoded_pixel(pf, data, y * row, x) == block_pixel(format, pf.precision, block, 0));
    lemma_adapt_identity(format.channels_spec(), pf.precision, block);
    assert(surface_pixel(pf, format.channels_spec(), data, size, x, y) == block);
    assert(block =~= pixel_at(data, y * (w * bpp), bpp, x));
}

/// Decoding a pixel that the encoder for every colour format made gives
/// every stored channel as the encoder rounded it: the value of the raw
/// value that stores the number of the channel.
pub proof fn lemma_universal_pixel_decodes(format: Format, precision: Precision, rgba: Seq<u32>, c: nat)
    requires
        format.has_universal(),
        c < format.channels_spec().count_spec(),
        format.field(0, c).num.is_stored(),
    ensures
        block_channel(format, precision, universal_pixel(format, rgba), 0, c) == channel_value(
            format.field(0, c).num,
            raw_of_single(format.field(0, c).num, rgba[source_index(format.channels_spec(), c)]),
            precision,
        ),
{
    lemma_universal_field(format, rgba, c);
}

/// A value survives encoding and decoding where the channel is of its own
/// kind: an 8-bit value in an 8-bit channel, a 16-bit value in a 16-bit
/// channel and a single-precision number in a single-precision channel,
/// though the encoder for every colour format works in single precision.
pub proof fn lemma_universal_keeps_value(format: Format, precision: Precision, rgba: Seq<u32>, c: nat, v: u32)
    requires
        format.has_universal(),
        c < format.channels_spec().count_spec(),
        format.field(0, c).num == match precision {
            Precision::U8 => Num::N8,
            Precision::U16 => Num::N16,
            Precision::F32 => Num::Fp32,
        },
        precision == Precision::U8 ==> v < 0x100,
        precision == Precision::U16 ==> v < 0x1_0000,
        rgba[source_index(format.channels_spec(), c)] == single_of(precision, v),
    ensures
        block_channel(format, precision, universal_pixel(format, rgba), 0, c) == v,
{
    lemma_universal_pixel_decodes(format, precision, rgba, c);
    lemma_channel_keeps_value(v);
}

} // verus!
