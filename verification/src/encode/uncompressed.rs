//! Encoders for the formats that store their channels one by one, as far as
//! they work on whole numbers: copying pixels that already have the layout
//! of the format, converting between channel sets within a precision, and
//! swapping red and blue.
//!
//! The pixels to encode and the encoded bytes hold values of more than one
//! byte low byte first.

use vstd::prelude::*;
use crate::decode::adapt::{adapted_pixel, convert_pixel};
use crate::decode::convert::{s16, s8};
use crate::decode::read_write::{lemma_mul_le, lemma_mul_succ, lemma_pixels_step, pixel_at};
use crate::encode::subsample::{block_count, blocks_appended, lemma_no_blocks,
    uncompressed_universal_subsample};
use crate::encode::universal::{rgba_bits, uncompressed_universal, universal_pixel};
use crate::error::EncodeError;
use crate::format::Format;
use crate::pixel::{Channels, ColorFormat, ColorFormatSet, Precision};
use crate::util::{le_to_native_endian_16, le_to_native_endian_32, swapped_16, swapped_32};

verus! {

/// What an encoder keeps exactly, as a set of bits.
#[derive(Debug, Clone, Copy, PartialEq, Eq, Structural)]
pub struct Flags(pub u8);

impl Flags {
    /// All 8-bit values are encoded without loss. Signed normalised values
    /// of 8 bits count as exact.
    pub const EXACT_U8: u8 = 0b001;

    /// All 16-bit values are encoded without loss, and so all 8-bit values.
    pub const EXACT_U16: u8 = 0b011;

    /// All single-precision values are encoded without loss, and so all
    /// 16-bit and 8-bit values.
    pub const EXACT_F32: u8 = 0b111;

    /// No flag.
    pub fn empty() -> (f: Flags)
        ensures
            f.0 == 0,
    {
        Flags(0)
    }

    /// The flag of the values that are kept exactly by an encoder that
    /// keeps a precision exactly.
    pub open spec fn exact_for_spec(precision: Precision) -> Flags {
        match precision {
            Precision::U8 => Flags(Flags::EXACT_U8),
            Precision::U16 => Flags(Flags::EXACT_U16),
            Precision::F32 => Flags(Flags::EXACT_F32),
        }
    }

    /// The flag of the values that are kept exactly by an encoder that
    /// keeps a precision exactly.
    pub fn exact_for(precision: Precision) -> (f: Flags)
        ensures
            f == Self::exact_for_spec(precision),
    {
        match precision {
            Precision::U8 => Flags(Flags::EXACT_U8),
            Precision::U16 => Flags(Flags::EXACT_U16),
            Precision::F32 => Flags(Flags::EXACT_F32),
        }
    }

    /// The flags of either set.
    pub fn union(self, other: Flags) -> (f: Flags)
        ensures
            f.0 == self.0 | other.0,
    {
        Flags(self.0 | other.0)
    }

    /// Whether all flags of `other` are set.
    pub fn contains(self, other: Flags) -> (b: bool)
        ensures
            b == (self.0 & other.0 == other.0),
    {
        self.0 & other.0 == other.0
    }
}

/// An encoder that keeps a precision exactly keeps the lower ones exactly
/// too.
pub proof fn lemma_exact_implies_lower(precision: Precision)
    ensures
        precision == Precision::F32 ==> Flags::exact_for_spec(precision).0
            & Flags::exact_for_spec(Precision::U16).0 == Flags::exact_for_spec(Precision::U16).0,
        precision != Precision::U8 ==> Flags::exact_for_spec(precision).0
            & Flags::exact_for_spec(Precision::U8).0 == Flags::exact_for_spec(Precision::U8).0,
{
    assert(0b111u8 & 0b011u8 == 0b011u8 && 0b111u8 & 0b001u8 == 0b001u8 && 0b011u8 & 0b001u8
        == 0b001u8) by (bit_vector);
}

/// Turns the values of a precision between the byte order of a machine and
/// little-endian: nothing changes for single bytes, nor on a little-endian
/// machine.
pub fn convert_to_le(precision: Precision, buffer: &mut [u8], big_endian: bool)
    requires
        old(buffer)@.len() % precision.size_spec() == 0,
    ensures
        final(buffer)@ == match precision {
            Precision::U8 => old(buffer)@,
            Precision::U16 => if big_endian {
                swapped_16(old(buffer)@)
            } else {
                old(buffer)@
            },
            Precision::F32 => if big_endian {
                swapped_32(old(buffer)@)
            } else {
                old(buffer)@
            },
        },
{
    match precision {
        Precision::U8 => {},
        Precision::U16 => le_to_native_endian_16(buffer, big_endian),
        Precision::F32 => le_to_native_endian_32(buffer, big_endian),
    }
}

/// What a conversion between channel sets leaves in the output: pixel `x`
/// of the line in channels `to` at pixel `x` of the output, and every other
/// byte as it was.
pub open spec fn channels_converted(
    from: Channels,
    to: Channels,
    precision: Precision,
    line: Seq<u8>,
    before: Seq<u8>,
    after: Seq<u8>,
    pixels: int,
) -> bool {
    let from_bpp = (from.count_spec() * precision.size_spec()) as int;
    let to_bpp = (to.count_spec() * precision.size_spec()) as int;
    &&& after.len() == before.len()
    &&& forall|x: int|
        0 <= x < pixels ==> #[trigger] pixel_at(after, 0, to_bpp, x) == adapted_pixel(
            from,
            to,
            precision,
            pixel_at(line, 0, from_bpp, x),
        )
    &&& forall|j: int| pixels * to_bpp <= j < before.len() ==> #[trigger] after[j] == before[j]
}

/// Brings the pixels of a line from channels `from` into channels `to`.
/// Channels that the source lacks are filled: alpha with 1, colours with 0.
pub fn convert_channels_untyped(
    from: Channels,
    to: Channels,
    precision: Precision,
    line: &[u8],
    out: &mut [u8],
    pixels: usize,
)
    requires
        pixels * (from.count_spec() * precision.size_spec()) <= line@.len(),
        pixels * (to.count_spec() * precision.size_spec()) <= old(out)@.len(),
    ensures
        channels_converted(from, to, precision, line@, old(out)@, final(out)@, pixels as int),
{
    let len: usize = out.len();
    let line_len: usize = line.len();
    let from_bpp: usize = (from.count() * precision.size()) as usize;
    let to_bpp: usize = (to.count() * precision.size()) as usize;
    let mut x: usize = 0;
    let mut spos: usize = 0;
    let mut dpos: usize = 0;
    while x < pixels
        invariant
            x <= pixels,
            from_bpp == from.count_spec() * precision.size_spec(),
            to_bpp == to.count_spec() * precision.size_spec(),
            pixels * from_bpp <= line@.len(),
            pixels * to_bpp <= len,
            len == out@.len(),
            len == old(out)@.len(),
            line_len == line@.len(),
            spos == x * from_bpp,
            dpos == x * to_bpp,
            forall|i: int|
                0 <= i < x ==> #[trigger] pixel_at(out@, 0, to_bpp as int, i) == adapted_pixel(
                    from,
                    to,
                    precision,
                    pixel_at(line@, 0, from_bpp as int, i),
                ),
            forall|j: int| x * to_bpp <= j < len ==> #[trigger] out@[j] == old(out)@[j],
        decreases pixels - x,
    {
        proof {
            lemma_mul_succ(x as int, from_bpp as int);
            lemma_mul_le(x + 1, pixels as int, from_bpp as int);
            lemma_mul_le(0, x as int, from_bpp as int);
            lemma_mul_succ(x as int, to_bpp as int);
            lemma_mul_le(x + 1, pixels as int, to_bpp as int);
            lemma_mul_le(0, x as int, to_bpp as int);
        }
        let ghost before = out@;
        convert_pixel(from, to, precision, line, spos, out, dpos);
        proof {
            let pixel = adapted_pixel(
                from,
                to,
                precision,
                pixel_at(line@, 0, from_bpp as int, x as int),
            );
            assert(line@.subrange(spos as int, spos + from_bpp) == pixel_at(
                line@,
                0,
                from_bpp as int,
                x as int,
            ));
            assert(pixel.len() == to_bpp);
            assert forall|j: int| 0 <= j < len implies #[trigger] out@[j] == (if 0 + x * to_bpp <= j
                < 0 + x * to_bpp + to_bpp {
                pixel[j - (0 + x * to_bpp)]
            } else {
                before[j]
            }) by {}
            lemma_pixels_step(pixel, old(out)@, before, out@, 0, to_bpp as int, x as int);
        }
        x = x + 1;
        spos = spos + from_bpp;
        dpos = dpos + to_bpp;
    }
}

/// Byte `j` of a buffer of unsigned normalised values turned into signed
/// normalised ones. Single-precision values stay as they are.
pub open spec fn snorm_byte(precision: Precision, values: Seq<u8>, j: int) -> u8 {
    match precision {
        Precision::U8 => s8::from_unorm_spec(values[j] as nat) as u8,
        Precision::U16 => {
            let base = j - j % 2;
            let signed = s16::from_unorm_spec(values[base] as nat + 256 * (values[base + 1] as nat));
            if j % 2 == 0 {
                (signed % 256) as u8
            } else {
                (signed / 256) as u8
            }
        },
        Precision::F32 => values[j],
    }
}

/// Turns the first `n` bytes of a buffer of unsigned normalised values into
/// signed normalised ones.
pub fn to_snorm(precision: Precision, out: &mut [u8], n: usize)
    requires
        n <= old(out)@.len(),
        n % (precision.size_spec() as usize) == 0,
        precision != Precision::F32,
    ensures
        final(out)@.len() == old(out)@.len(),
        forall|j: int| 0 <= j < n ==> #[trigger] final(out)@[j] == snorm_byte(precision, old(out)@, j),
        forall|j: int| n <= j < old(out)@.len() ==> #[trigger] final(out)@[j] == old(out)@[j],
{
    let len: usize = out.len();
    match precision {
        Precision::U8 => {
            let mut i: usize = 0;
            while i < n
                invariant
                    i <= n,
                    n <= len,
                    len == out@.len(),
                    len == old(out)@.len(),
                    forall|j: int|
                        0 <= j < i ==> #[trigger] out@[j] == snorm_byte(precision, old(out)@, j),
                    forall|j: int| i <= j < len ==> #[trigger] out@[j] == old(out)@[j],
                    precision == Precision::U8,
                decreases n - i,
            {
                out[i] = s8::from_n8(out[i]);
                i = i + 1;
            }
        },
        Precision::U16 => {
            let mut i: usize = 0;
            while i < n
                invariant
                    i <= n,
                    i % 2 == 0,
                    n % 2 == 0,
                    n <= len,
                    len == out@.len(),
                    len == old(out)@.len(),
                    forall|j: int|
                        0 <= j < i ==> #[trigger] out@[j] == snorm_byte(precision, old(out)@, j),
                    forall|j: int| i <= j < len ==> #[trigger] out@[j] == old(out)@[j],
                    precision == Precision::U16,
                decreases n - i,
            {
                let value: u16 = out[i] as u16 + 256 * (out[i + 1] as u16);
                let signed = s16::from_n16(value);
                out[i] = (signed % 256) as u8;
                out[i + 1] = (signed / 256) as u8;
                i = i + 2;
            }
        },
        Precision::F32 => {},
    }
}

/// The encoded bytes of a pixel under an encoder that converts between
/// channel sets: the pixel in the channels of the target, every value
/// signed where the format wants signed values.
pub open spec fn color_converted_pixel(target: ColorFormat, snorm: bool, from: Channels, pixel: Seq<u8>) -> Seq<
    u8,
> {
    let adapted = adapted_pixel(from, target.channels, target.precision, pixel);
    if snorm {
        Seq::new(adapted.len(), |j: int| snorm_byte(target.precision, adapted, j))
    } else {
        adapted
    }
}

/// What an encoder that converts between channel sets leaves in the output.
pub open spec fn color_converted(
    target: ColorFormat,
    snorm: bool,
    from: Channels,
    line: Seq<u8>,
    before: Seq<u8>,
    after: Seq<u8>,
    pixels: int,
) -> bool {
    let from_bpp = (from.count_spec() * target.precision.size_spec()) as int;
    let to_bpp = target.bpp() as int;
    &&& after.len() == before.len()
    &&& forall|x: int|
        0 <= x < pixels ==> #[trigger] pixel_at(after, 0, to_bpp, x) == color_converted_pixel(
            target,
            snorm,
            from,
            pixel_at(line, 0, from_bpp, x),
        )
    &&& forall|j: int| pixels * to_bpp <= j < before.len() ==> #[trigger] after[j] == before[j]
}

/// Encodes a line of pixels of colour `color` for a format whose pixels are
/// those of colour `target`: the channels are converted, and the values are
/// turned into signed ones where the format wants signed values.
pub fn simple_color_convert(
    target: ColorFormat,
    snorm: bool,
    line: &[u8],
    color: ColorFormat,
    out: &mut [u8],
    pixels: usize,
)
    requires
        color.precision == target.precision,
        snorm ==> target.precision != Precision::F32,
        pixels * color.bpp() <= line@.len(),
        pixels * target.bpp() <= old(out)@.len(),
    ensures
        color_converted(
            target,
            snorm,
            color.channels,
            line@,
            old(out)@,
            final(out)@,
            pixels as int,
        ),
{
    let len: usize = out.len();
    let from = color.channels;
    let to = target.channels;
    let size: usize = target.precision.size() as usize;
    let count: usize = to.count() as usize;
    let to_bpp: usize = count * size;
    convert_channels_untyped(from, to, target.precision, line, out, pixels);
    if snorm {
        let ghost mid = out@;
        proof {
            assert(pixels * to_bpp == (pixels * count) * size) by (nonlinear_arith)
                requires
                    to_bpp == count * size,
            ;
            vstd::arithmetic::div_mod::lemma_fundamental_div_mod_converse(
                pixels * to_bpp,
                size as int,
                pixels * count,
                0,
            );
        }
        to_snorm(target.precision, out, pixels * to_bpp);
        proof {
            let from_bpp = (from.count_spec() * target.precision.size_spec()) as int;
            assert forall|x: int| 0 <= x < pixels implies #[trigger] pixel_at(
                out@,
                0,
                to_bpp as int,
                x,
            ) == color_converted_pixel(target, snorm, from, pixel_at(line@, 0, from_bpp, x)) by {
                lemma_mul_le(x + 1, pixels as int, to_bpp as int);
                lemma_snorm_pixel(
                    target.precision,
                    mid,
                    out@,
                    count as int,
                    x,
                    pixels * to_bpp,
                );
            }
        }
    }
}

/// A pixel of a buffer whose values were turned into signed ones holds the
/// signed values of the pixel.
proof fn lemma_snorm_pixel(
    precision: Precision,
    mid: Seq<u8>,
    after: Seq<u8>,
    count: int,
    x: int,
    n: int,
)
    requires
        precision != Precision::F32,
        1 <= count <= 4,
        0 <= x,
        (x + 1) * (count * precision.size_spec()) <= n,
        n <= mid.len(),
        after.len() == mid.len(),
        forall|j: int| 0 <= j < n ==> #[trigger] after[j] == snorm_byte(precision, mid, j),
    ensures
        pixel_at(after, 0, count * precision.size_spec(), x) == Seq::new(
            (count * precision.size_spec()) as nat,
            |j: int| snorm_byte(precision, pixel_at(mid, 0, count * precision.size_spec(), x), j),
        ),
{
    let bpp = (count * precision.size_spec()) as int;
    lemma_mul_succ(x, bpp);
    lemma_mul_le(0, x, bpp);
    let got = pixel_at(after, 0, bpp, x);
    let source = pixel_at(mid, 0, bpp, x);
    let want = Seq::new(bpp as nat, |j: int| snorm_byte(precision, source, j));
    assert forall|t: int| 0 <= t < bpp implies got[t] == want[t] by {
        assert(got[t] == snorm_byte(precision, mid, x * bpp + t));
        if precision == Precision::U16 {
            // pixels start at even offsets
            assert(x * bpp == 2 * (x * count)) by (nonlinear_arith)
                requires
                    bpp == count * 2,
            ;
            assert((x * bpp + t) % 2 == t % 2);
            let base = t - t % 2;
            assert(source[base] == mid[x * bpp + base]);
            assert(source[base + 1] == mid[x * bpp + base + 1]);
        } else {
            assert(source[t] == mid[x * bpp + t]);
        }
    }
    assert(got =~= want);
}

/// Appends the first `n` bytes of `src` to `out`.
pub fn append_bytes(out: &mut Vec<u8>, src: &[u8], n: usize)
    requires
        n <= src@.len(),
    ensures
        final(out)@ == old(out)@ + src@.subrange(0, n as int),
{
    let mut i: usize = 0;
    while i < n
        invariant
            i <= n,
            n <= src@.len(),
            out@ == old(out)@ + src@.subrange(0, i as int),
        decreases n - i,
    {
        out.push(src[i]);
        i = i + 1;
        assert(out@ =~= old(out)@ + src@.subrange(0, i as int));
    }
    assert(out@ =~= old(out)@ + src@.subrange(0, n as int));
}

/// Encodes pixels that already have the layout of the format: the bytes are
/// written as they are.
pub fn copy_directly(data: &[u8], color: ColorFormat, out: &mut Vec<u8>)
    ensures
        final(out)@ == old(out)@ + data@,
{
    append_bytes(out, data, data.len());
    assert(data@.subrange(0, data@.len() as int) =~= data@);
}

/// How an encoder turns pixels into encoded bytes.
#[derive(Debug, Clone, Copy, PartialEq, Eq, Structural)]
pub enum EncodeFn {
    /// The pixels already have the layout of the format.
    Copy,
    /// The channels are converted to those of `target`, and the values are
    /// turned into signed ones where `snorm` is set.
    ColorConvert { target: ColorFormat, snorm: bool },
    /// The channels of 8-bit pixels are converted to those of `target`,
    /// which has red, green and blue, and red and blue change places. Where
    /// `opaque` is set the fourth byte is 255.
    SwapRb { target: ColorFormat, opaque: bool },
    /// The pixels are turned into red, green, blue and alpha as
    /// single-precision numbers, and the channels of `format` are made from
    /// these.
    Universal { format: Format },
    /// The pixels of a line are turned into red, green, blue and alpha as
    /// single-precision numbers, and the blocks of `format`, which hold
    /// more than one pixel, are made from these.
    UniversalSubsample { format: Format },
}

impl EncodeFn {
    /// Bytes of one encoded pixel, for pixels of colour `color`; bytes of one
    /// block for a function that works block by block.
    pub open spec fn encoded_bpp(self, color: ColorFormat) -> nat {
        match self {
            EncodeFn::Copy => color.bpp(),
            EncodeFn::ColorConvert { target, snorm } => target.bpp(),
            EncodeFn::SwapRb { target, opaque } => target.bpp(),
            EncodeFn::Universal { format } => format.block_shape().bytes as nat,
            EncodeFn::UniversalSubsample { format } => format.block_shape().bytes as nat,
        }
    }

    /// Whether the function works on whole numbers only, line by line.
    pub open spec fn is_untyped(self) -> bool {
        !(self is Universal) && !(self is UniversalSubsample)
    }

    /// Whether the function can encode pixels of colour `color`.
    pub open spec fn takes(self, color: ColorFormat) -> bool {
        match self {
            EncodeFn::Copy => true,
            EncodeFn::ColorConvert { target, snorm } => color.precision == target.precision && (
            snorm ==> target.precision != Precision::F32),
            EncodeFn::SwapRb { target, opaque } => color.precision == Precision::U8
                && target.precision == Precision::U8 && (target.channels == Channels::Rgb
                || target.channels == Channels::Rgba) && (opaque ==> target.channels
                == Channels::Rgba),
            EncodeFn::Universal { format } => format.has_universal(),
            EncodeFn::UniversalSubsample { format } => format.has_universal_subsample(),
        }
    }

    /// The encoded bytes of a pixel of colour `color`. A function that works
    /// block by block has no encoded pixels.
    pub open spec fn encoded_pixel(self, color: ColorFormat, pixel: Seq<u8>) -> Seq<u8> {
        match self {
            EncodeFn::Copy => pixel,
            EncodeFn::ColorConvert { target, snorm } => color_converted_pixel(
                target,
                snorm,
                color.channels,
                pixel,
            ),
            EncodeFn::SwapRb { target, opaque } => {
                let adapted = adapted_pixel(color.channels, target.channels, Precision::U8, pixel);
                Seq::new(
                    adapted.len(),
                    |j: int|
                        if j == 0 {
                            adapted[2]
                        } else if j == 2 {
                            adapted[0]
                        } else if j == 3 && opaque {
                            255u8
                        } else {
                            adapted[j]
                        },
                )
            },
            EncodeFn::Universal { format } => universal_pixel(format, rgba_bits(color, pixel)),
            EncodeFn::UniversalSubsample { format } => Seq::empty(),
        }
    }

    /// Bytes of one encoded pixel, for pixels of colour `color`.
    pub fn bytes_per_encoded_pixel(self, color: ColorFormat) -> (n: usize)
        ensures
            n == self.encoded_bpp(color),
            1 <= n <= 16,
    {
        match self {
            EncodeFn::Copy => color.bytes_per_pixel() as usize,
            EncodeFn::ColorConvert { target, snorm } => target.bytes_per_pixel() as usize,
            EncodeFn::SwapRb { target, opaque } => target.bytes_per_pixel() as usize,
            EncodeFn::Universal { format } => format.block_shape_of().bytes as usize,
            EncodeFn::UniversalSubsample { format } => format.block_shape_of().bytes as usize,
        }
    }
}

/// What encoding a line leaves in a buffer: the encoded bytes of pixel `x`
/// of the line at pixel `x` of the buffer, and every other byte as it was.
pub open spec fn line_encoded(
    f: EncodeFn,
    color: ColorFormat,
    line: Seq<u8>,
    before: Seq<u8>,
    after: Seq<u8>,
    pixels: int,
) -> bool {
    &&& after.len() == before.len()
    &&& forall|x: int|
        0 <= x < pixels ==> #[trigger] pixel_at(after, 0, f.encoded_bpp(color) as int, x)
            == f.encoded_pixel(color, pixel_at(line, 0, color.bpp() as int, x))
    &&& forall|j: int|
        pixels * f.encoded_bpp(color) <= j < before.len() ==> #[trigger] after[j] == before[j]
}

/// Exchanges red and blue in the first `pixels` pixels of 8-bit values, and
/// sets the fourth byte to 255 where `opaque` is set.
fn swap_red_and_blue(out: &mut [u8], pixels: usize, bpp: usize, opaque: bool)
    requires
        bpp == 3 || bpp == 4,
        opaque ==> bpp == 4,
        pixels * bpp <= old(out)@.len(),
    ensures
        final(out)@.len() == old(out)@.len(),
        forall|x: int|
            0 <= x < pixels ==> #[trigger] pixel_at(final(out)@, 0, bpp as int, x) == Seq::new(
                bpp as nat,
                |j: int|
                    if j == 0 {
                        pixel_at(old(out)@, 0, bpp as int, x)[2]
                    } else if j == 2 {
                        pixel_at(old(out)@, 0, bpp as int, x)[0]
                    } else if j == 3 && opaque {
                        255u8
                    } else {
                        pixel_at(old(out)@, 0, bpp as int, x)[j]
                    },
            ),
        forall|j: int| pixels * bpp <= j < old(out)@.len() ==> #[trigger] final(out)@[j] == old(
            out,
        )@[j],
{
    let len: usize = out.len();
    let mut x: usize = 0;
    let mut pos: usize = 0;
    while x < pixels
        invariant
            x <= pixels,
            bpp == 3 || bpp == 4,
            opaque ==> bpp == 4,
            pixels * bpp <= len,
            len == out@.len(),
            len == old(out)@.len(),
            pos == x * bpp,
            forall|i: int|
                0 <= i < x ==> #[trigger] pixel_at(out@, 0, bpp as int, i) == Seq::new(
                    bpp as nat,
                    |j: int|
                        if j == 0 {
                            pixel_at(old(out)@, 0, bpp as int, i)[2]
                        } else if j == 2 {
                            pixel_at(old(out)@, 0, bpp as int, i)[0]
                        } else if j == 3 && opaque {
                            255u8
                        } else {
                            pixel_at(old(out)@, 0, bpp as int, i)[j]
                        },
                ),
            forall|j: int| x * bpp <= j < len ==> #[trigger] out@[j] == old(out)@[j],
        decreases pixels - x,
    {
        proof {
            lemma_mul_succ(x as int, bpp as int);
            lemma_mul_le(x + 1, pixels as int, bpp as int);
            lemma_mul_le(0, x as int, bpp as int);
        }
        let ghost before = out@;
        let red = out[pos];
        out[pos] = out[pos + 2];
        out[pos + 2] = red;
        if opaque {
            out[pos + 3] = 0xFF;
        }
        proof {
            let source = pixel_at(old(out)@, 0, bpp as int, x as int);
            let pixel = Seq::new(
                bpp as nat,
                |j: int|
                    if j == 0 {
                        source[2]
                    } else if j == 2 {
                        source[0]
                    } else if j == 3 && opaque {
                        255u8
                    } else {
                        source[j]
                    },
            );
            assert forall|j: int| 0 <= j < len implies #[trigger] out@[j] == (if 0 + x * bpp <= j < 0
                + x * bpp + bpp {
                pixel[j - (0 + x * bpp)]
            } else {
                before[j]
            }) by {}
            lemma_pixels_step(pixel, old(out)@, before, out@, 0, bpp as int, x as int);
        }
        x = x + 1;
        pos = pos + bpp;
    }
}

/// Encodes a line of `pixels` pixels of colour `color` into a buffer.
pub fn encode_line(f: EncodeFn, line: &[u8], color: ColorFormat, out: &mut [u8], pixels: usize)
    requires
        f.takes(color),
        f.is_untyped(),
        pixels * color.bpp() <= line@.len(),
        pixels * f.encoded_bpp(color) <= old(out)@.len(),
    ensures
        line_encoded(f, color, line@, old(out)@, final(out)@, pixels as int),
{
    match f {
        EncodeFn::Copy => {
            let bpp: usize = color.bytes_per_pixel() as usize;
            let line_len: usize = line.len();
            crate::decode::surface::copy_bytes(line, 0, out, 0, pixels * bpp);
            proof {
                assert forall|x: int| 0 <= x < pixels implies #[trigger] pixel_at(
                    out@,
                    0,
                    bpp as int,
                    x,
                ) == pixel_at(line@, 0, bpp as int, x) by {
                    lemma_mul_succ(x, bpp as int);
                    lemma_mul_le(x + 1, pixels as int, bpp as int);
                    lemma_mul_le(0, x, bpp as int);
                    assert(pixel_at(out@, 0, bpp as int, x) =~= pixel_at(line@, 0, bpp as int, x));
                }
            }
        },
        EncodeFn::ColorConvert { target, snorm } => {
            simple_color_convert(target, snorm, line, color, out, pixels);
        },
        EncodeFn::SwapRb { target, opaque } => {
            convert_channels_untyped(color.channels, target.channels, Precision::U8, line, out, pixels);
            let ghost mid = out@;
            swap_red_and_blue(out, pixels, target.bytes_per_pixel() as usize, opaque);
            proof {
                let bpp = target.bpp() as int;
                assert forall|x: int| 0 <= x < pixels implies #[trigger] pixel_at(out@, 0, bpp, x)
                    == f.encoded_pixel(color, pixel_at(line@, 0, color.bpp() as int, x)) by {
                    assert(pixel_at(mid, 0, bpp, x) == adapted_pixel(
                        color.channels,
                        target.channels,
                        Precision::U8,
                        pixel_at(line@, 0, color.bpp() as int, x),
                    ));
                    assert(pixel_at(out@, 0, bpp, x) =~= f.encoded_pixel(
                        color,
                        pixel_at(line@, 0, color.bpp() as int, x),
                    ));
                }
            }
        },
        EncodeFn::Universal { format } => {},
        EncodeFn::UniversalSubsample { format } => {},
    }
}

/// What encoding pixels appends to the output: the encoded bytes of every
/// pixel, one after the other, behind what the output held.
pub open spec fn encoded_appended(
    f: EncodeFn,
    color: ColorFormat,
    data: Seq<u8>,
    before: Seq<u8>,
    after: Seq<u8>,
    pixels: int,
) -> bool {
    &&& after.len() == before.len() + pixels * f.encoded_bpp(color)
    &&& after.subrange(0, before.len() as int) == before
    &&& forall|x: int|
        0 <= x < pixels ==> #[trigger] pixel_at(
            after,
            before.len() as int,
            f.encoded_bpp(color) as int,
            x,
        ) == f.encoded_pixel(color, pixel_at(data, 0, color.bpp() as int, x))
}

/// What encoding the `rows` lines of `width` pixels of a surface appends to
/// the output: the encoded pixels, or the encoded blocks of a function
/// that works block by block.
pub open spec fn surface_appended(
    f: EncodeFn,
    color: ColorFormat,
    data: Seq<u8>,
    width: int,
    rows: int,
    before: Seq<u8>,
    after: Seq<u8>,
) -> bool {
    match f {
        EncodeFn::UniversalSubsample { format } => blocks_appended(
            format,
            color,
            data,
            width,
            before,
            after,
            rows * block_count(width, format.block_shape().width as int),
        ),
        _ => encoded_appended(f, color, data, before, after, rows * width),
    }
}

/// Bytes of the buffer that holds the encoded pixels of one chunk.
pub const ENCODED_BUFFER_BYTES: usize = 4096;

/// Encodes one chunk of pixels into a buffer and appends the buffer to the
/// output.
fn encode_chunk(
    f: EncodeFn,
    data: &[u8],
    color: ColorFormat,
    done: usize,
    n: usize,
    out: &mut Vec<u8>,
    Ghost(initial): Ghost<Seq<u8>>,
)
    requires
        f.takes(color),
        f.is_untyped(),
        (done + n) * color.bpp() <= data@.len(),
        n * f.encoded_bpp(color) <= ENCODED_BUFFER_BYTES,
        encoded_appended(f, color, data@, initial, old(out)@, done as int),
    ensures
        encoded_appended(f, color, data@, initial, final(out)@, done + n),
{
    let data_len: usize = data.len();
    let bpp: usize = color.bytes_per_pixel() as usize;
    let ebpp: usize = f.bytes_per_encoded_pixel(color);
    let mut buffer: [u8; 4096] = [0u8; 4096];
    proof {
        assert(done + n <= (done + n) * bpp) by (nonlinear_arith)
            requires
                bpp >= 1,
        ;
        assert((done + n) * bpp == done * bpp + n * bpp) by (nonlinear_arith);
        lemma_mul_le(0, done as int, bpp as int);
        lemma_mul_le(0, n as int, bpp as int);
        assert((done + n) * ebpp == done * ebpp + n * ebpp) by (nonlinear_arith);
        lemma_mul_le(0, done as int, ebpp as int);
    }
    let line = vstd::slice::slice_subrange(data, done * bpp, (done + n) * bpp);
    encode_line(f, line, color, &mut buffer, n);
    let ghost before = out@;
    append_bytes(out, &buffer, n * ebpp);
    proof {
        lemma_chunk_appended(
            f,
            color,
            data@,
            line@,
            buffer@,
            initial,
            before,
            out@,
            done as int,
            n as int,
        );
    }
}

/// A chunk of encoded pixels appended behind encoded pixels gives the
/// encoded pixels of both.
pub proof fn lemma_chunk_appended(
    f: EncodeFn,
    color: ColorFormat,
    data: Seq<u8>,
    line: Seq<u8>,
    buffer: Seq<u8>,
    initial: Seq<u8>,
    before: Seq<u8>,
    after: Seq<u8>,
    done: int,
    n: int,
)
    requires
        0 <= done,
        0 <= n,
        (done + n) * color.bpp() <= data.len(),
        n * f.encoded_bpp(color) <= buffer.len(),
        line == data.subrange(done * color.bpp(), (done + n) * color.bpp()),
        encoded_appended(f, color, data, initial, before, done),
        forall|x: int|
            0 <= x < n ==> #[trigger] pixel_at(buffer, 0, f.encoded_bpp(color) as int, x)
                == f.encoded_pixel(color, pixel_at(line, 0, color.bpp() as int, x)),
        after == before + buffer.subrange(0, n * f.encoded_bpp(color)),
    ensures
        encoded_appended(f, color, data, initial, after, done + n),
{
    let bpp = color.bpp() as int;
    let ebpp = f.encoded_bpp(color) as int;
    let start = initial.len() as int;
    assert((done + n) * bpp == done * bpp + n * bpp) by (nonlinear_arith);
    assert((done + n) * ebpp == done * ebpp + n * ebpp) by (nonlinear_arith);
    lemma_mul_le(0, done, bpp);
    lemma_mul_le(0, n, bpp);
    lemma_mul_le(0, done, ebpp);
    lemma_mul_le(0, n, ebpp);
    assert(after.subrange(0, start) =~= before.subrange(0, start));
    assert forall|x: int| 0 <= x < done + n implies #[trigger] pixel_at(after, start, ebpp, x)
        == f.encoded_pixel(color, pixel_at(data, 0, bpp, x)) by {
        lemma_mul_succ(x, ebpp);
        lemma_mul_le(0, x, ebpp);
        if x < done {
            lemma_mul_le(x + 1, done, ebpp);
            assert(pixel_at(after, start, ebpp, x) =~= pixel_at(before, start, ebpp, x));
        } else {
            let i = x - done;
            lemma_mul_succ(i, ebpp);
            lemma_mul_le(i + 1, n, ebpp);
            lemma_mul_le(0, i, ebpp);
            assert((done + i) * ebpp == done * ebpp + i * ebpp) by (nonlinear_arith);
            assert(pixel_at(after, start, ebpp, x) =~= pixel_at(buffer, 0, ebpp, i));
            lemma_mul_succ(i, bpp);
            lemma_mul_le(i + 1, n, bpp);
            lemma_mul_le(0, i, bpp);
            assert((done + i) * bpp == done * bpp + i * bpp) by (nonlinear_arith);
            assert((done + i + 1) * bpp == done * bpp + (i + 1) * bpp) by (nonlinear_arith);
            assert(pixel_at(line, 0, bpp, i) =~= pixel_at(data, 0, bpp, x));
        }
    }
}

/// Encodes pixels chunk by chunk: every chunk is encoded into a buffer of a
/// fixed size, which is then appended to the output.
pub fn uncompressed_untyped(data: &[u8], color: ColorFormat, pixels: usize, f: EncodeFn, out: &mut Vec<u8>)
    requires
        f.takes(color),
        f.is_untyped(),
        pixels * color.bpp() <= data@.len(),
    ensures
        encoded_appended(f, color, data@, old(out)@, final(out)@, pixels as int),
{
    let bpp: usize = color.bytes_per_pixel() as usize;
    let ebpp: usize = f.bytes_per_encoded_pixel(color);
    let larger: usize = if bpp > ebpp {
        bpp
    } else {
        ebpp
    };
    let per_chunk: usize = ENCODED_BUFFER_BYTES / larger;
    proof {
        vstd::arithmetic::div_mod::lemma_fundamental_div_mod(4096, larger as int);
        assert(per_chunk * ebpp <= 4096) by (nonlinear_arith)
            requires
                4096 == larger * per_chunk + 4096int % (larger as int),
                0 <= 4096int % (larger as int),
                ebpp <= larger,
                per_chunk >= 0,
        ;
        assert(per_chunk >= 1) by (nonlinear_arith)
            requires
                4096 == larger * per_chunk + 4096int % (larger as int),
                4096int % (larger as int) < larger,
                1 <= larger <= 16,
        ;
        assert(out@.subrange(0, out@.len() as int) =~= out@);
    }
    let mut done: usize = 0;
    while done < pixels
        invariant
            done <= pixels,
            f.takes(color),
            f.is_untyped(),
            pixels * color.bpp() <= data@.len(),
            bpp == color.bpp(),
            ebpp == f.encoded_bpp(color),
            per_chunk >= 1,
            per_chunk * ebpp <= 4096,
            encoded_appended(f, color, data@, old(out)@, out@, done as int),
        decreases pixels - done,
    {
        let n: usize = if pixels - done < per_chunk {
            pixels - done
        } else {
            per_chunk
        };
        proof {
            lemma_mul_le(done + n, pixels as int, bpp as int);
            lemma_mul_le(n as int, per_chunk as int, ebpp as int);
        }
        encode_chunk(f, data, color, done, n, out, Ghost(old(out)@));
        done = done + n;
    }
}

/// An encoder for a format that stores its channels one by one: the colour
/// formats that it takes, what it keeps exactly, and how it encodes.
#[derive(Debug, Clone, Copy, PartialEq, Eq, Structural)]
pub struct UncompressedEncoder {
    pub color_formats: ColorFormatSet,
    pub flags: Flags,
    pub encode: EncodeFn,
}

impl UncompressedEncoder {
    /// The encoder can encode every colour format that it says it takes.
    pub open spec fn wf(self) -> bool {
        forall|c: ColorFormat| self.color_formats.contains_spec(c) ==> self.encode.takes(c)
    }

    /// An encoder that copies pixels of colour `color`, which is the layout
    /// of the format.
    pub fn copy(color: ColorFormat) -> (e: UncompressedEncoder)
        ensures
            e.wf(),
            e.encode == EncodeFn::Copy,
            e.flags == Flags::exact_for_spec(color.precision),
            forall|c: ColorFormat| e.color_formats.contains_spec(c) <==> c == color,
    {
        let flags = Flags::exact_for(color.precision);
        UncompressedEncoder {
            color_formats: ColorFormatSet::from_single(color),
            flags,
            encode: EncodeFn::Copy,
        }
    }

    /// An encoder that converts the channels of pixels of the precision of
    /// `target`.
    pub fn color_convert(target: ColorFormat, snorm: bool) -> (e: UncompressedEncoder)
        requires
            snorm ==> target.precision != Precision::F32,
        ensures
            e.wf(),
            e.encode == (EncodeFn::ColorConvert { target, snorm }),
            e.flags == Flags::exact_for_spec(target.precision),
            forall|c: ColorFormat|
                e.color_formats.contains_spec(c) <==> c.precision == target.precision,
    {
        UncompressedEncoder {
            color_formats: ColorFormatSet::from_precision(target.precision),
            flags: Flags::exact_for(target.precision),
            encode: EncodeFn::ColorConvert { target, snorm },
        }
    }

    /// An encoder that converts the channels of 8-bit pixels and exchanges
    /// red and blue.
    pub fn swap_rb(channels: Channels, opaque: bool) -> (e: UncompressedEncoder)
        requires
            channels == Channels::Rgb || channels == Channels::Rgba,
            opaque ==> channels == Channels::Rgba,
        ensures
            e.wf(),
            e.encode == (EncodeFn::SwapRb {
                target: ColorFormat { channels, precision: Precision::U8 },
                opaque,
            }),
            forall|c: ColorFormat| e.color_formats.contains_spec(c) <==> c.precision == Precision::U8,
    {
        UncompressedEncoder {
            color_formats: ColorFormatSet::from_precision(Precision::U8),
            flags: Flags(Flags::EXACT_U8),
            encode: EncodeFn::SwapRb {
                target: ColorFormat { channels, precision: Precision::U8 },
                opaque,
            },
        }
    }

    /// An encoder that takes pixels of every colour format: it makes the
    /// channels of `format` from single-precision numbers.
    pub fn universal(format: Format) -> (e: UncompressedEncoder)
        requires
            format.has_universal(),
        ensures
            e.wf(),
            e.encode == (EncodeFn::Universal { format }),
            e.flags.0 == 0,
            forall|c: ColorFormat| e.color_formats.contains_spec(c),
    {
        UncompressedEncoder {
            color_formats: ColorFormatSet::all(),
            flags: Flags::empty(),
            encode: EncodeFn::Universal { format },
        }
    }

    /// An encoder that takes pixels of every colour format and makes the
    /// blocks of `format` from single-precision numbers.
    pub fn universal_subsample(format: Format) -> (e: UncompressedEncoder)
        requires
            format.has_universal_subsample(),
        ensures
            e.wf(),
            e.encode == (EncodeFn::UniversalSubsample { format }),
            e.flags.0 == 0,
            forall|c: ColorFormat| e.color_formats.contains_spec(c),
    {
        UncompressedEncoder {
            color_formats: ColorFormatSet::all(),
            flags: Flags::empty(),
            encode: EncodeFn::UniversalSubsample { format },
        }
    }

    /// The encoder with more flags.
    pub fn add_flags(self, flags: Flags) -> (e: UncompressedEncoder)
        ensures
            e.color_formats == self.color_formats,
            e.encode == self.encode,
            e.flags.0 == self.flags.0 | flags.0,
            self.wf() ==> e.wf(),
    {
        UncompressedEncoder {
            color_formats: self.color_formats,
            flags: self.flags.union(flags),
            encode: self.encode,
        }
    }

    /// The colour formats that the encoder takes.
    pub fn supported_color_formats(&self) -> (s: ColorFormatSet)
        ensures
            s == self.color_formats,
    {
        self.color_formats
    }

    /// Encodes the `rows` lines of `width` pixels of a surface, given as
    /// pixels of colour `color`, and appends the encoded bytes to the
    /// output.
    pub fn encode(
        &self,
        data: &[u8],
        width: usize,
        rows: usize,
        color: ColorFormat,
        out: &mut Vec<u8>,
    ) -> (r: Result<(), EncodeError>)
        requires
            self.wf(),
            rows * width * color.bpp() <= data@.len(),
        ensures
            !self.color_formats.contains_spec(color) ==> r == Err::<(), EncodeError>(
                EncodeError::UnsupportedColorFormat(color),
            ) && final(out)@ == old(out)@,
            self.color_formats.contains_spec(color) ==> r == Ok::<(), EncodeError>(())
                && surface_appended(
                self.encode,
                color,
                data@,
                width as int,
                rows as int,
                old(out)@,
                final(out)@,
            ),
    {
        if !self.color_formats.contains(color) {
            return Err(EncodeError::UnsupportedColorFormat(color));
        }
        let data_len: usize = data.len();
        proof {
            assert(rows * width <= rows * width * color.bpp()) by (nonlinear_arith)
                requires
                    color.bpp() >= 1,
                    rows * width >= 0,
            ;
        }
        match self.encode {
            EncodeFn::Universal { format } => {
                uncompressed_universal(data, color, rows * width, format, out);
            },
            EncodeFn::UniversalSubsample { format } => {
                if width == 0 {
                    proof {
                        let bw = format.block_shape().width as int;
                        lemma_no_blocks(bw);
                        let count = rows * block_count(0, bw);
                        assert(count == 0) by (nonlinear_arith)
                            requires
                                count == rows * block_count(0, bw),
                                block_count(0, bw) == 0,
                        ;
                        let bytes = format.block_shape().bytes as int;
                        assert(count * bytes == 0) by (nonlinear_arith)
                            requires
                                count == 0,
                        ;
                        assert(out@.subrange(0, out@.len() as int) =~= out@);
                        assert(blocks_appended(format, color, data@, 0, out@, out@, count));
                    }
                } else {
                    uncompressed_universal_subsample(data, color, width, rows, format, out);
                }
            },
            f => {
                uncompressed_untyped(data, color, rows * width, f, out);
            },
        }
        Ok(())
    }
}

/// The position of the first of the encoders from `from` on that takes a
/// colour format, or the number of encoders where none does.
pub open spec fn first_encoder(encoders: Seq<UncompressedEncoder>, color: ColorFormat, from: int) -> int
    decreases encoders.len() - from,
{
    if from < 0 || from >= encoders.len() {
        encoders.len() as int
    } else if encoders[from].color_formats.contains_spec(color) {
        from
    } else {
        first_encoder(encoders, color, from + 1)
    }
}

/// The colour formats that one of the encoders of a list takes.
pub fn supported_color_formats(encoders: &Vec<UncompressedEncoder>) -> (set: ColorFormatSet)
    ensures
        forall|c: ColorFormat|
            set.contains_spec(c) <==> first_encoder(encoders@, c, 0) < encoders@.len(),
{
    let mut set = ColorFormatSet::empty();
    let mut i: usize = encoders.len();
    while i > 0
        invariant
            i <= encoders@.len(),
            forall|c: ColorFormat|
                set.contains_spec(c) <==> first_encoder(encoders@, c, i as int) < encoders@.len(),
        decreases i,
    {
        i = i - 1;
        set = set.union(encoders[i].supported_color_formats());
    }
    set
}

/// Encodes the `rows` lines of `width` pixels of a surface with the first
/// encoder of a list that takes the colour format of the pixels.
pub fn encode(
    encoders: &Vec<UncompressedEncoder>,
    data: &[u8],
    width: usize,
    rows: usize,
    color: ColorFormat,
    out: &mut Vec<u8>,
) -> (r: Result<(), EncodeError>)
    requires
        forall|i: int| 0 <= i < encoders@.len() ==> (#[trigger] encoders@[i]).wf(),
        rows * width * color.bpp() <= data@.len(),
    ensures
        first_encoder(encoders@, color, 0) == encoders@.len() ==> r == Err::<(), EncodeError>(
            EncodeError::UnsupportedColorFormat(color),
        ) && final(out)@ == old(out)@,
        first_encoder(encoders@, color, 0) < encoders@.len() ==> r == Ok::<(), EncodeError>(())
            && surface_appended(
            encoders@[first_encoder(encoders@, color, 0)].encode,
            color,
            data@,
            width as int,
            rows as int,
            old(out)@,
            final(out)@,
        ),
{
    let mut i: usize = 0;
    while i < encoders.len()
        invariant
            i <= encoders@.len(),
            first_encoder(encoders@, color, 0) == first_encoder(encoders@, color, i as int),
            forall|k: int| 0 <= k < encoders@.len() ==> (#[trigger] encoders@[k]).wf(),
            rows * width * color.bpp() <= data@.len(),
            out@ == old(out)@,
        decreases encoders@.len() - i,
    {
        if encoders[i].supported_color_formats().contains(color) {
            return encoders[i].encode(data, width, rows, color, out);
        }
        i = i + 1;
    }
    Err(EncodeError::UnsupportedColorFormat(color))
}

} // verus!
