//! Pixel processors: from the encoded bytes of a run of pixels to their
//! decoded bytes in the native channels of the format.
//!
//! Decoded values of more than one byte are stored low byte first.

use vstd::prelude::*;
use vstd::arithmetic::div_mod::lemma_fundamental_div_mod_converse;
use crate::decode::channel::{channel_value, convert_channel, Num};
use crate::decode::convert::{rgb9995f, yuv10, yuv16, yuv8};
use crate::decode::fields::{field_fits, field_raw, lemma_fields_fit, word, Field};
use crate::format::Format;
use crate::pixel::Precision;

verus! {

/// Byte `b` of a decoded value, low byte first.
pub open spec fn value_byte(v: u32, b: int) -> u8 {
    if b == 0 {
        (v % 256) as u8
    } else if b == 1 {
        ((v / 256) % 256) as u8
    } else if b == 2 {
        ((v / 65536) % 256) as u8
    } else {
        ((v / 16777216) % 256) as u8
    }
}

/// Which pixel processor to run: the format of the encoded pixels and the
/// precision to decode to. The decoded channels are the native channels of
/// the format.
#[derive(Debug, Clone, Copy, PartialEq, Eq, Structural)]
pub struct ProcessPixelsFn {
    pub format: Format,
    pub precision: Precision,
}

/// The byte sizes that a pixel processor works with.
#[derive(Debug, Clone, Copy, PartialEq, Eq, Structural)]
pub struct PixelSize {
    /// Bytes of one encoded block.
    pub encoded_size: u8,
    /// Bytes of one decoded pixel.
    pub decoded_size: u8,
}

impl Format {
    /// Whether a pixel processor exists for the format: its pixels are
    /// stored channel by channel in rows of blocks one pixel high.
    pub open spec fn is_plain(self) -> bool {
        self.has_fields() || self == Format::R9G9B9E5_SHAREDEXP || self.is_yuv()
    }

    /// Whether a pixel processor exists for the format.
    pub fn has_processor(self) -> (b: bool)
        ensures
            b == self.is_plain(),
    {
        match self {
            Format::R8G8B8_UNORM
            | Format::B8G8R8_UNORM
            | Format::R8G8B8A8_UNORM
            | Format::R8G8B8A8_SNORM
            | Format::B8G8R8A8_UNORM
            | Format::B8G8R8X8_UNORM
            | Format::B5G6R5_UNORM
            | Format::B5G5R5A1_UNORM
            | Format::B4G4R4A4_UNORM
            | Format::A4B4G4R4_UNORM
            | Format::R8_SNORM
            | Format::R8_UNORM
            | Format::R8G8_UNORM
            | Format::R8G8_SNORM
            | Format::A8_UNORM
            | Format::R16_UNORM
            | Format::R16_SNORM
            | Format::R16G16_UNORM
            | Format::R16G16_SNORM
            | Format::R16G16B16A16_UNORM
            | Format::R16G16B16A16_SNORM
            | Format::R10G10B10A2_UNORM
            | Format::R11G11B10_FLOAT
            | Format::R9G9B9E5_SHAREDEXP
            | Format::R16_FLOAT
            | Format::R16G16_FLOAT
            | Format::R16G16B16A16_FLOAT
            | Format::R32_FLOAT
            | Format::R32G32_FLOAT
            | Format::R32G32B32_FLOAT
            | Format::R32G32B32A32_FLOAT
            | Format::R10G10B10_XR_BIAS_A2_UNORM
            | Format::R1_UNORM
            | Format::R8G8_B8G8_UNORM
            | Format::G8R8_G8B8_UNORM
            | Format::AYUV
            | Format::Y410
            | Format::Y416
            | Format::YUY2
            | Format::UYVY
            | Format::Y210
            | Format::Y216 => true,
            _ => false,
        }
    }

    /// The bits of luma and chroma that the conversion to colours takes.
    pub fn yuv_bits_of(self) -> (bits: u8)
        requires
            self.is_yuv(),
        ensures
            bits as nat == self.yuv_bits(),
    {
        match self {
            Format::AYUV | Format::YUY2 | Format::UYVY => 8,
            Format::Y410 => 10,
            _ => 16,
        }
    }
}

/// Channel `c` of a pixel of three mantissas under a shared exponent.
pub open spec fn shared_exp_channel(precision: Precision, rgb: u32, c: nat) -> u32 {
    let exp = rgb9995f::exponent(rgb);
    let mant = rgb9995f::mantissa(rgb, c);
    match precision {
        Precision::U8 => rgb9995f::unorm_spec(exp, mant, 255) as u32,
        Precision::U16 => rgb9995f::unorm_spec(exp, mant, 65535) as u32,
        Precision::F32 => rgb9995f::single_spec(exp, mant),
    }
}

/// The decoded value of native channel `c` of the pixel in column `k` of a
/// block.
pub open spec fn block_channel(
    format: Format,
    precision: Precision,
    block: Seq<u8>,
    k: nat,
    c: nat,
) -> u32 {
    if format == Format::R9G9B9E5_SHAREDEXP {
        shared_exp_channel(precision, word(block, 0, 4) as u32, c)
    } else if format.is_yuv() && c < 3 {
        yuv_channel(
            format.yuv_bits(),
            precision,
            field_raw(format.field(k, 0), block) as int,
            field_raw(format.field(k, 1), block) as int,
            field_raw(format.field(k, 2), block) as int,
            c as int,
        )
    } else {
        let f = format.field(k, c);
        channel_value(f.num, field_raw(f, block), precision)
    }
}

/// Red, green (1) or blue (2) of a pixel of luma `y` and chroma `u` and `v`
/// of `bits` bits each, in a precision.
pub open spec fn yuv_channel(bits: nat, precision: Precision, y: int, u: int, v: int, c: int) -> u32 {
    if bits == 8 {
        match precision {
            Precision::U8 => yuv8::n8_spec(y, u, v, c) as u32,
            Precision::U16 => yuv8::n16_spec(y, u, v, c) as u32,
            Precision::F32 => yuv8::single_spec(y, u, v, c),
        }
    } else if bits == 10 {
        match precision {
            Precision::U8 => yuv10::n8_spec(y, u, v, c) as u32,
            Precision::U16 => yuv10::n16_spec(y, u, v, c) as u32,
            Precision::F32 => yuv10::single_spec(y, u, v, c),
        }
    } else {
        match precision {
            Precision::U8 => yuv16::n8_spec(y, u, v, c) as u32,
            Precision::U16 => yuv16::n16_spec(y, u, v, c) as u32,
            Precision::F32 => yuv16::single_spec(y, u, v, c),
        }
    }
}

/// The decoded bytes of the pixel in column `k` of a block, in the native
/// channels of the format.
pub open spec fn block_pixel(format: Format, precision: Precision, block: Seq<u8>, k: nat) -> Seq<
    u8,
> {
    let size = precision.size_spec() as int;
    Seq::new(
        format.channels_spec().count_spec() * precision.size_spec(),
        |j: int| value_byte(block_channel(format, precision, block, k, (j / size) as nat), j % size),
    )
}

/// The decoded bytes of pixel `x` of the run of pixels whose first block
/// starts at `start` of the encoded bytes `enc`, in the native channels of
/// the format.
pub open spec fn encoded_pixel(pf: ProcessPixelsFn, enc: Seq<u8>, start: int, x: int) -> Seq<u8> {
    let shape = pf.format.block_shape();
    let block = x / (shape.width as int);
    block_pixel(
        pf.format,
        pf.precision,
        enc.subrange(start + block * shape.bytes, start + (block + 1) * shape.bytes),
        (x % (shape.width as int)) as nat,
    )
}

/// Pixel `x` of a buffer of pixels of `bpp` bytes each that starts at
/// `start`.
pub open spec fn pixel_at(buf: Seq<u8>, start: int, bpp: int, x: int) -> Seq<u8> {
    buf.subrange(start + x * bpp, start + (x + 1) * bpp)
}

/// Number of blocks that hold a run of `pixels` pixels that starts with a
/// block.
pub open spec fn run_blocks(format: Format, pixels: nat) -> nat {
    let width = format.block_shape().width as nat;
    (pixels + width - 1) as nat / width
}

/// Number of bytes that hold a run of `pixels` pixels that starts with a
/// block.
pub open spec fn run_bytes(format: Format, pixels: nat) -> nat {
    run_blocks(format, pixels) * (format.block_shape().bytes as nat)
}

/// Bytes of a decoded pixel in the native channels of a format.
pub open spec fn native_bpp(pf: ProcessPixelsFn) -> nat {
    pf.format.channels_spec().count_spec() * pf.precision.size_spec()
}

/// Reads the word of `width` bytes at `pos`, low byte first.
fn read_word(enc: &[u8], pos: usize, width: u8) -> (r: u32)
    requires
        width == 1 || width == 2 || width == 4,
        pos + width <= enc@.len(),
    ensures
        r as nat == word(enc@, pos as int, width as int),
{
    if width == 1 {
        enc[pos] as u32
    } else if width == 2 {
        enc[pos] as u32 + 256 * (enc[pos + 1] as u32)
    } else {
        enc[pos] as u32 + 256 * (enc[pos + 1] as u32) + 65536 * (enc[pos + 2] as u32) + 16777216
            * (enc[pos + 3] as u32)
    }
}

/// How many raw values a number format has.
fn raw_count(f: &Field) -> (n: u64)
    ensures
        n as nat == f.num.raw_count(),
        n >= 1,
{
    match f.num {
        Num::N1 => 2,
        Num::N2 => 4,
        Num::N4 => 16,
        Num::N5 => 32,
        Num::N6 => 64,
        Num::N8 => 256,
        Num::N10 => 1024,
        Num::N16 => 65536,
        Num::S8 => 256,
        Num::S16 => 65536,
        Num::Xr10 => 1024,
        Num::Fp10 => 1024,
        Num::Fp11 => 2048,
        Num::Fp16 => 65536,
        Num::Fp32 => 0x1_0000_0000,
        Num::Zero => 1,
        Num::Half => 1,
        Num::One => 1,
    }
}

/// Decodes channel `c` of the pixel of three mantissas under a shared
/// exponent that starts at `start`.
fn decode_shared_exp(precision: Precision, enc: &[u8], start: usize, c: u8) -> (v: u32)
    requires
        start + 4 <= enc@.len(),
        c < 3,
    ensures
        v == shared_exp_channel(precision, word(enc@, start as int, 4) as u32, c as nat),
{
    let rgb = read_word(enc, start, 4);
    let i: usize = c as usize;
    match precision {
        Precision::U8 => {
            let p = rgb9995f::n8(rgb);
            p[i] as u32
        },
        Precision::U16 => {
            let p = rgb9995f::n16(rgb);
            p[i] as u32
        },
        Precision::F32 => {
            let p = rgb9995f::f32_bits(rgb);
            p[i]
        },
    }
}

/// Reads the raw value of the field `f` of the block at `start`.
fn read_field(f: Field, enc: &[u8], start: usize, Ghost(bytes): Ghost<int>) -> (raw: u32)
    requires
        field_fits(f, bytes as nat),
        0 <= bytes,
        start + bytes <= enc@.len(),
    ensures
        raw as nat == field_raw(f, enc@.subrange(start as int, start + bytes)),
        raw < f.num.raw_count(),
{
    let len: usize = enc.len();
    let w = read_word(enc, start + f.offset as usize, f.width);
    assert(word(enc@, start + f.offset, f.width as int) == word(
        enc@.subrange(start as int, start + bytes),
        f.offset as int,
        f.width as int,
    ));
    ((w / f.divisor) as u64 % raw_count(&f)) as u32
}

/// Decodes the channel that the field `f` of the block at `start` holds.
fn decode_field(f: Field, precision: Precision, enc: &[u8], start: usize, Ghost(bytes): Ghost<
    int,
>) -> (v: u32)
    requires
        field_fits(f, bytes as nat),
        0 <= bytes,
        start + bytes <= enc@.len(),
    ensures
        v == channel_value(
            f.num,
            field_raw(f, enc@.subrange(start as int, start + bytes)),
            precision,
        ),
{
    let raw = read_field(f, enc, start, Ghost(bytes));
    convert_channel(f.num, raw, precision)
}

/// Red, green (1) or blue (2) of a pixel of luma `y` and chroma `u` and `v`
/// of `bits` bits each, in a precision.
fn decode_yuv(bits: u8, precision: Precision, y: u32, u: u32, v: u32, c: u8) -> (r: u32)
    requires
        bits == 8 || bits == 10 || bits == 16,
        bits == 8 ==> y < 256 && u < 256 && v < 256,
        y < 0x1_0000,
        u < 0x1_0000,
        v < 0x1_0000,
        c < 3,
    ensures
        r == yuv_channel(bits as nat, precision, y as int, u as int, v as int, c as int),
{
    let i: usize = c as usize;
    if bits == 8 {
        let yuv = [y as u8, u as u8, v as u8];
        match precision {
            Precision::U8 => {
                let p = yuv8::n8(yuv);
                p[i] as u32
            },
            Precision::U16 => {
                let p = yuv8::n16(yuv);
                p[i] as u32
            },
            Precision::F32 => {
                let p = yuv8::f32_bits(yuv);
                p[i]
            },
        }
    } else if bits == 10 {
        let yuv = [y as u16, u as u16, v as u16];
        match precision {
            Precision::U8 => {
                let p = yuv10::n8(yuv);
                p[i] as u32
            },
            Precision::U16 => {
                let p = yuv10::n16(yuv);
                p[i] as u32
            },
            Precision::F32 => {
                let p = yuv10::f32_bits(yuv);
                p[i]
            },
        }
    } else {
        let yuv = [y as u16, u as u16, v as u16];
        match precision {
            Precision::U8 => {
                let p = yuv16::n8(yuv);
                p[i] as u32
            },
            Precision::U16 => {
                let p = yuv16::n16(yuv);
                p[i] as u32
            },
            Precision::F32 => {
                let p = yuv16::f32_bits(yuv);
                p[i]
            },
        }
    }
}

/// Decodes native channel `c` of the pixel in column `k` of the block that
/// starts at `start`.
fn decode_channel(format: Format, precision: Precision, enc: &[u8], start: usize, k: u8, c: u8) -> (v:
    u32)
    requires
        format.is_plain(),
        c < format.channels_spec().count_spec(),
        start + format.block_shape().bytes <= enc@.len(),
    ensures
        v == block_channel(
            format,
            precision,
            enc@.subrange(start as int, start + format.block_shape().bytes),
            k as nat,
            c as nat,
        ),
{
    let ghost bytes = format.block_shape().bytes as int;
    match format {
        Format::R9G9B9E5_SHAREDEXP => {
            assert(word(enc@, start as int, 4) == word(enc@.subrange(start as int, start + 4), 0, 4));
            decode_shared_exp(precision, enc, start, c)
        },
        Format::AYUV
        | Format::Y410
        | Format::Y416
        | Format::YUY2
        | Format::UYVY
        | Format::Y210
        | Format::Y216 => {
            if c < 3 {
                proof {
                    lemma_fields_fit(format, k as nat, 0);
                    lemma_fields_fit(format, k as nat, 1);
                    lemma_fields_fit(format, k as nat, 2);
                }
                let y = read_field(format.field_at(k, 0), enc, start, Ghost(bytes));
                let u = read_field(format.field_at(k, 1), enc, start, Ghost(bytes));
                let v = read_field(format.field_at(k, 2), enc, start, Ghost(bytes));
                decode_yuv(format.yuv_bits_of(), precision, y, u, v, c)
            } else {
                proof {
                    lemma_fields_fit(format, k as nat, c as nat);
                }
                decode_field(format.field_at(k, c), precision, enc, start, Ghost(bytes))
            }
        },
        _ => {
            let f = format.field_at(k, c);
            proof {
                lemma_fields_fit(format, k as nat, c as nat);
            }
            decode_field(f, precision, enc, start, Ghost(bytes))
        },
    }
}

/// Writes a decoded value at `pos`, low byte first.
pub fn store_value(out: &mut [u8], pos: usize, v: u32, precision: Precision)
    requires
        pos + precision.size_spec() <= old(out)@.len(),
    ensures
        final(out)@.len() == old(out)@.len(),
        forall|j: int|
            0 <= j < old(out)@.len() ==> #[trigger] final(out)@[j] == (if pos <= j < pos
                + precision.size_spec() {
                value_byte(v, j - pos)
            } else {
                old(out)@[j]
            }),
{
    let len: usize = out.len();
    match precision {
        Precision::U8 => {
            out[pos] = (v % 256) as u8;
        },
        Precision::U16 => {
            out[pos] = (v % 256) as u8;
            out[pos + 1] = ((v / 256) % 256) as u8;
        },
        Precision::F32 => {
            out[pos] = (v % 256) as u8;
            out[pos + 1] = ((v / 256) % 256) as u8;
            out[pos + 2] = ((v / 65536) % 256) as u8;
            out[pos + 3] = ((v / 16777216) % 256) as u8;
        },
    }
}

/// Decodes the pixel in column `k` of the block that starts at `start`, and
/// writes it at `pos` in the native channels of the format.
pub fn decode_pixel(pf: ProcessPixelsFn, enc: &[u8], start: usize, k: u8, out: &mut [u8], pos: usize)
    requires
        pf.format.is_plain(),
        start + pf.format.block_shape().bytes <= enc@.len(),
        pos + native_bpp(pf) <= old(out)@.len(),
    ensures
        final(out)@.len() == old(out)@.len(),
        forall|j: int|
            0 <= j < old(out)@.len() ==> #[trigger] final(out)@[j] == (if pos <= j < pos
                + native_bpp(pf) {
                block_pixel(
                    pf.format,
                    pf.precision,
                    enc@.subrange(start as int, start + pf.format.block_shape().bytes),
                    k as nat,
                )[j - pos]
            } else {
                old(out)@[j]
            }),
{
    let len: usize = out.len();
    let count: u8 = pf.format.color().channels.count();
    let size: u8 = pf.precision.size();
    let ghost block = enc@.subrange(start as int, start + pf.format.block_shape().bytes);
    let ghost pixel = block_pixel(pf.format, pf.precision, block, k as nat);
    let mut c: u8 = 0;
    let mut at: usize = pos;
    while c < count
        invariant
            c <= count,
            count as nat == pf.format.channels_spec().count_spec(),
            size as nat == pf.precision.size_spec(),
            pf.format.is_plain(),
            start + pf.format.block_shape().bytes <= enc@.len(),
            block == enc@.subrange(start as int, start + pf.format.block_shape().bytes),
            pixel == block_pixel(pf.format, pf.precision, block, k as nat),
            out@.len() == old(out)@.len(),
            len == out@.len(),
            pos + count * size <= len,
            at == pos + c * size,
            forall|j: int|
                0 <= j < len ==> #[trigger] out@[j] == (if pos <= j < at {
                    pixel[j - pos]
                } else {
                    old(out)@[j]
                }),
        decreases count - c,
    {
        proof {
            assert((c + 1) * size == c * size + size) by (nonlinear_arith);
            assert((c + 1) * size <= count * size) by (nonlinear_arith)
                requires
                    c < count,
            ;
        }
        let v = decode_channel(pf.format, pf.precision, enc, start, k, c);
        store_value(out, at, v, pf.precision);
        proof {
            assert forall|j: int| 0 <= j < len implies #[trigger] out@[j] == (if pos <= j < at
                + size {
                pixel[j - pos]
            } else {
                old(out)@[j]
            }) by {
                if at <= j < at + size {
                    lemma_fundamental_div_mod_converse(j - pos, size as int, c as int, j - at);
                }
            }
        }
        at = at + size as usize;
        c = c + 1;
    }
}

/// Multiplication by a natural number keeps order.
pub proof fn lemma_mul_le(a: int, b: int, c: int)
    requires
        a <= b,
        c >= 0,
    ensures
        a * c <= b * c,
{
    assert(a * c <= b * c) by (nonlinear_arith)
        requires
            a <= b,
            c >= 0,
    ;
}

/// One more factor adds the other factor once.
pub proof fn lemma_mul_succ(a: int, c: int)
    ensures
        (a + 1) * c == a * c + c,
{
    assert((a + 1) * c == a * c + c) by (nonlinear_arith);
}

/// A block that holds a pixel of a run lies within the run.
pub proof fn lemma_block_in_run(format: Format, pixels: nat, x: nat)
    requires
        x < pixels,
    ensures
        x / (format.block_shape().width as nat) + 1 <= run_blocks(format, pixels),
        (x as int / (format.block_shape().width as int) + 1) * (format.block_shape().bytes as int)
            <= run_bytes(format, pixels),
        0 <= (x as int / (format.block_shape().width as int)) * (format.block_shape().bytes as int),
{
    let width = format.block_shape().width as int;
    let bytes = format.block_shape().bytes as int;
    assert(width >= 1);
    let block = x as int / width;
    let blocks = run_blocks(format, pixels) as int;
    vstd::arithmetic::div_mod::lemma_fundamental_div_mod(x as int, width);
    vstd::arithmetic::div_mod::lemma_fundamental_div_mod(pixels + width - 1, width);
    assert(block + 1 <= blocks && block >= 0) by (nonlinear_arith)
        requires
            x as int == width * block + (x as int) % width,
            0 <= (x as int) % width < width,
            0 <= x < pixels,
            pixels + width - 1 == width * blocks + (pixels + width - 1) % width,
            0 <= (pixels + width - 1) % width < width,
    ;
    lemma_mul_le(block + 1, blocks, bytes);
    lemma_mul_le(0, block, bytes);
}

/// A run of whole blocks has as many blocks as its pixels divided by the
/// block width.
pub proof fn lemma_run_of_blocks(format: Format, blocks: nat)
    ensures
        run_blocks(format, blocks * (format.block_shape().width as nat)) == blocks,
        run_bytes(format, blocks * (format.block_shape().width as nat)) == blocks * (
        format.block_shape().bytes as nat),
{
    let width = format.block_shape().width as int;
    assert(width >= 1);
    lemma_fundamental_div_mod_converse(blocks * width + width - 1, width, blocks as int, width - 1);
}

/// A run within a run: where the inner run starts with block `first` of the
/// outer one, its pixels are pixels of the outer run.
pub proof fn lemma_sub_run(pf: ProcessPixelsFn, enc: Seq<u8>, start: int, first: int, i: int)
    requires
        first >= 0,
        i >= 0,
    ensures
        encoded_pixel(pf, enc, start + first * (pf.format.block_shape().bytes as int), i)
            == encoded_pixel(pf, enc, start, first * (pf.format.block_shape().width as int) + i),
{
    let width = pf.format.block_shape().width as int;
    let bytes = pf.format.block_shape().bytes as int;
    assert(width >= 1 && bytes >= 1);
    let qi = i / width;
    let r = i % width;
    vstd::arithmetic::div_mod::lemma_fundamental_div_mod(i, width);
    assert((first + qi) * width + r == first * width + i) by (nonlinear_arith)
        requires
            i == width * qi + r,
    ;
    lemma_fundamental_div_mod_converse(first * width + i, width, first + qi, r);
    assert((first + qi) * bytes == first * bytes + qi * bytes) by (nonlinear_arith);
    assert((first + qi + 1) * bytes == first * bytes + (qi + 1) * bytes) by (nonlinear_arith);
}

/// Pixel `i` of a buffer from pixel `first` on is pixel `first + i` of the
/// buffer.
pub proof fn lemma_pixel_at_shift(buf: Seq<u8>, start: int, bpp: int, first: int, i: int)
    ensures
        pixel_at(buf, start + first * bpp, bpp, i) == pixel_at(buf, start, bpp, first + i),
{
    assert((first + i) * bpp == first * bpp + i * bpp) by (nonlinear_arith);
    assert((first + i + 1) * bpp == first * bpp + (i + 1) * bpp) by (nonlinear_arith);
}

/// A pixel of a buffer is the same in another buffer that agrees on its
/// bytes.
pub proof fn lemma_pixel_at_same(a: Seq<u8>, b: Seq<u8>, start: int, bpp: int, x: int)
    requires
        a.len() == b.len(),
        0 <= start,
        0 <= x,
        0 <= bpp,
        start + (x + 1) * bpp <= a.len(),
        forall|j: int| start + x * bpp <= j < start + (x + 1) * bpp ==> a[j] == b[j],
    ensures
        pixel_at(a, start, bpp, x) == pixel_at(b, start, bpp, x),
{
    lemma_mul_succ(x, bpp);
    lemma_mul_le(0, x, bpp);
    assert(pixel_at(a, start, bpp, x) =~= pixel_at(b, start, bpp, x));
}

/// Writing pixel `x` of a buffer leaves the pixels before it and the bytes
/// around the pixels as they were.
pub proof fn lemma_pixels_step(
    pixel: Seq<u8>,
    initial: Seq<u8>,
    before: Seq<u8>,
    after: Seq<u8>,
    start: int,
    bpp: int,
    x: int,
)
    requires
        0 <= start,
        0 <= bpp,
        0 <= x,
        before.len() == initial.len(),
        after.len() == before.len(),
        start + (x + 1) * bpp <= before.len(),
        pixel.len() == bpp,
        forall|j: int|
            0 <= j < start || start + x * bpp <= j < before.len() ==> #[trigger] before[j]
                == initial[j],
        forall|j: int|
            0 <= j < before.len() ==> #[trigger] after[j] == (if start + x * bpp <= j < start + x
                * bpp + bpp {
                pixel[j - (start + x * bpp)]
            } else {
                before[j]
            }),
    ensures
        pixel_at(after, start, bpp, x) == pixel,
        forall|i: int|
            0 <= i < x ==> #[trigger] pixel_at(after, start, bpp, i) == pixel_at(
                before,
                start,
                bpp,
                i,
            ),
        forall|j: int|
            0 <= j < start || start + (x + 1) * bpp <= j < before.len() ==> #[trigger] after[j]
                == initial[j],
{
    lemma_mul_succ(x, bpp);
    lemma_mul_le(0, x, bpp);
    assert(pixel_at(after, start, bpp, x) =~= pixel);
    assert forall|i: int| 0 <= i < x implies #[trigger] pixel_at(after, start, bpp, i)
        == pixel_at(before, start, bpp, i) by {
        lemma_mul_succ(i, bpp);
        lemma_mul_le(i + 1, x, bpp);
        lemma_pixel_at_same(after, before, start, bpp, i);
    }
}

/// What a pixel processor leaves in the output: pixel `x` of the run at
/// pixel `x` of the output from `dec_start` on, in the native channels of
/// the format, and every other byte as it was.
pub open spec fn processed_run(
    pf: ProcessPixelsFn,
    encoded: Seq<u8>,
    enc_start: int,
    before: Seq<u8>,
    after: Seq<u8>,
    dec_start: int,
    pixels: int,
) -> bool {
    &&& after.len() == before.len()
    &&& forall|x: int|
        0 <= x < pixels ==> #[trigger] pixel_at(after, dec_start, native_bpp(pf) as int, x)
            == encoded_pixel(pf, encoded, enc_start, x)
    &&& forall|j: int|
        0 <= j < dec_start || dec_start + pixels * native_bpp(pf) <= j < before.len()
            ==> #[trigger] after[j] == before[j]
}

/// Where pixel `x` of a run lies: the byte offset of its block from the
/// start of the run, and its column within the block.
fn block_position(x: usize, width: u8, bytes: u8, Ghost(limit): Ghost<int>) -> (r: (usize, u8))
    requires
        width >= 1,
        (x as int / (width as int) + 1) * (bytes as int) <= limit,
        limit <= usize::MAX,
    ensures
        r.0 as int == (x as int / (width as int)) * (bytes as int),
        r.1 as int == x as int % (width as int),
        r.0 + bytes <= limit,
{
    let block: usize = x / width as usize;
    proof {
        lemma_mul_succ(block as int, bytes as int);
        lemma_mul_le(0, block as int, bytes as int);
    }
    (block * bytes as usize, (x % width as usize) as u8)
}

/// Decodes pixel `x` of the run that starts with the block at `enc_start`,
/// and writes it at `dpos`.
fn process_pixel(
    pf: ProcessPixelsFn,
    encoded: &[u8],
    enc_start: usize,
    decoded: &mut [u8],
    dpos: usize,
    x: usize,
    Ghost(pixels): Ghost<nat>,
)
    requires
        pf.format.is_plain(),
        x < pixels,
        enc_start + run_bytes(pf.format, pixels) <= encoded@.len(),
        dpos + native_bpp(pf) <= old(decoded)@.len(),
    ensures
        final(decoded)@.len() == old(decoded)@.len(),
        forall|j: int|
            0 <= j < old(decoded)@.len() ==> #[trigger] final(decoded)@[j] == (if dpos <= j < dpos
                + native_bpp(pf) {
                encoded_pixel(pf, encoded@, enc_start as int, x as int)[j - dpos]
            } else {
                old(decoded)@[j]
            }),
{
    let enc_len: usize = encoded.len();
    let shape = pf.format.block_shape_of();
    proof {
        lemma_block_in_run(pf.format, pixels, x as nat);
    }
    let (offset, k) = block_position(
        x,
        shape.width,
        shape.bytes,
        Ghost(run_bytes(pf.format, pixels) as int),
    );
    let epos: usize = enc_start + offset;
    decode_pixel(pf, encoded, epos, k, decoded, dpos);
    proof {
        let block = x as int / (shape.width as int);
        lemma_mul_succ(block, shape.bytes as int);
        assert(encoded@.subrange(epos as int, epos + shape.bytes) == encoded@.subrange(
            enc_start + block * shape.bytes,
            enc_start + (block + 1) * shape.bytes,
        ));
    }
}

/// Decodes a run of `pixels` pixels that starts with the block at
/// `enc_start`, and writes them from `dec_start` on in the native channels
/// of the format. In a format with several pixels to a block the run may end
/// within a block.
pub fn process_pixels(
    pf: ProcessPixelsFn,
    encoded: &[u8],
    enc_start: usize,
    decoded: &mut [u8],
    dec_start: usize,
    pixels: usize,
)
    requires
        pf.format.is_plain(),
        enc_start + run_bytes(pf.format, pixels as nat) <= encoded@.len(),
        dec_start + pixels * native_bpp(pf) <= old(decoded)@.len(),
    ensures
        processed_run(
            pf,
            encoded@,
            enc_start as int,
            old(decoded)@,
            final(decoded)@,
            dec_start as int,
            pixels as int,
        ),
{
    let len: usize = decoded.len();
    let bpp: usize = (pf.format.color().channels.count() * pf.precision.size()) as usize;
    let mut x: usize = 0;
    let mut dpos: usize = dec_start;
    while x < pixels
        invariant
            x <= pixels,
            pf.format.is_plain(),
            bpp == native_bpp(pf),
            enc_start + run_bytes(pf.format, pixels as nat) <= encoded@.len(),
            dec_start + pixels * bpp <= len,
            len == decoded@.len(),
            len == old(decoded)@.len(),
            dpos == dec_start + x * bpp,
            forall|i: int|
                0 <= i < x ==> #[trigger] pixel_at(decoded@, dec_start as int, bpp as int, i)
                    == encoded_pixel(pf, encoded@, enc_start as int, i),
            forall|j: int|
                0 <= j < dec_start || dec_start + x * bpp <= j < len ==> #[trigger] decoded@[j]
                    == old(decoded)@[j],
        decreases pixels - x,
    {
        proof {
            lemma_mul_succ(x as int, bpp as int);
            lemma_mul_le(x + 1, pixels as int, bpp as int);
            lemma_mul_le(0, x as int, bpp as int);
        }
        let ghost before = decoded@;
        process_pixel(pf, encoded, enc_start, decoded, dpos, x, Ghost(pixels as nat));
        proof {
            lemma_pixels_step(
                encoded_pixel(pf, encoded@, enc_start as int, x as int),
                old(decoded)@,
                before,
                decoded@,
                dec_start as int,
                bpp as int,
                x as int,
            );
        }
        x = x + 1;
        dpos = dpos + bpp;
    }
}

} // verus!
