//! Encoders that take pixels of every colour format.
//!
//! A pixel is first turned into four single-precision numbers: red, green,
//! blue and alpha. Every channel of the format is then made from its
//! number, and the channels of a word are added up at their places.
//! Single-precision numbers are handled as their bit patterns.

use vstd::prelude::*;
use vstd::arithmetic::div_mod::{lemma_fundamental_div_mod, lemma_fundamental_div_mod_converse};
use crate::decode::channel::Num;
use crate::decode::convert::{fp, n16, n8};
use crate::decode::convert::lossless::{lemma_n16_survives, lemma_n8_survives};
use crate::decode::fields::{field_raw, lemma_fields_fit, word, Field};
use crate::decode::read_write::{lemma_mul_le, lemma_mul_succ, lemma_pixels_step, pixel_at};
use crate::encode::uncompressed::{append_bytes, encoded_appended, lemma_chunk_appended, EncodeFn};
use crate::format::Format;
use crate::header::le32;
use crate::pixel::{Channels, ColorFormat, Precision};

verus! {

/// The bit pattern of the single-precision number 1.
pub const ONE_BITS: u32 = 0x3F80_0000;

/// The decoded value of channel `c` of a pixel.
pub open spec fn decoded_value(precision: Precision, pixel: Seq<u8>, c: int) -> u32 {
    match precision {
        Precision::U8 => pixel[c] as u32,
        Precision::U16 => (pixel[2 * c] as nat + 256 * (pixel[2 * c + 1] as nat)) as u32,
        Precision::F32 => le32(pixel, 4 * c),
    }
}

/// A decoded value as the bit pattern of a single-precision number: a
/// normalised integer is divided by its largest value.
pub open spec fn single_of(precision: Precision, v: u32) -> u32 {
    match precision {
        Precision::U8 => n8::single_spec(v as nat),
        Precision::U16 => n16::single_spec(v as nat),
        Precision::F32 => v,
    }
}

/// Red (0), green (1), blue (2) or alpha (3) of a pixel of colour `color`
/// as the bit pattern of a single-precision number.
///
/// A gray value is red, green and blue. Where the pixel has no alpha, alpha
/// is 1. Where it has alpha only, red, green and blue are 0.
pub open spec fn rgba_channel(color: ColorFormat, pixel: Seq<u8>, i: int) -> u32 {
    let p = color.precision;
    match color.channels {
        Channels::Grayscale => if i < 3 {
            single_of(p, decoded_value(p, pixel, 0))
        } else {
            ONE_BITS
        },
        Channels::Alpha => if i < 3 {
            0
        } else {
            single_of(p, decoded_value(p, pixel, 0))
        },
        Channels::Rgb => if i < 3 {
            single_of(p, decoded_value(p, pixel, i))
        } else {
            ONE_BITS
        },
        Channels::Rgba => single_of(p, decoded_value(p, pixel, i)),
    }
}

/// Red, green, blue and alpha of a pixel of colour `color` as bit patterns
/// of single-precision numbers.
pub open spec fn rgba_bits(color: ColorFormat, pixel: Seq<u8>) -> Seq<u32> {
    seq![
        rgba_channel(color, pixel, 0),
        rgba_channel(color, pixel, 1),
        rgba_channel(color, pixel, 2),
        rgba_channel(color, pixel, 3),
    ]
}

/// Reads the decoded value of channel `c` of a pixel and gives it as the
/// bit pattern of a single-precision number.
fn read_single(precision: Precision, pixel: &[u8], c: usize) -> (bits: u32)
    requires
        (c + 1) * precision.size_spec() <= pixel@.len(),
        c < 4,
    ensures
        bits == single_of(precision, decoded_value(precision, pixel@, c as int)),
{
    match precision {
        Precision::U8 => n8::f32_bits(pixel[c]),
        Precision::U16 => {
            let lo: u16 = pixel[2 * c] as u16;
            let hi: u16 = pixel[2 * c + 1] as u16;
            n16::f32_bits(lo + 256 * hi)
        },
        Precision::F32 => {
            let b0: u32 = pixel[4 * c] as u32;
            let b1: u32 = pixel[4 * c + 1] as u32;
            let b2: u32 = pixel[4 * c + 2] as u32;
            let b3: u32 = pixel[4 * c + 3] as u32;
            b0 + 256 * b1 + 65536 * b2 + 16777216 * b3
        },
    }
}

/// Red, green, blue and alpha of a pixel of colour `color` as bit patterns
/// of single-precision numbers.
pub fn to_rgba_bits(color: ColorFormat, pixel: &[u8]) -> (rgba: [u32; 4])
    requires
        pixel@.len() == color.bpp(),
    ensures
        rgba@ == rgba_bits(color, pixel@),
{
    let p = color.precision;
    let rgba: [u32; 4] = match color.channels {
        Channels::Grayscale => {
            let v = read_single(p, pixel, 0);
            [v, v, v, ONE_BITS]
        },
        Channels::Alpha => {
            let v = read_single(p, pixel, 0);
            [0, 0, 0, v]
        },
        Channels::Rgb => {
            let r = read_single(p, pixel, 0);
            let g = read_single(p, pixel, 1);
            let b = read_single(p, pixel, 2);
            [r, g, b, ONE_BITS]
        },
        Channels::Rgba => {
            let r = read_single(p, pixel, 0);
            let g = read_single(p, pixel, 1);
            let b = read_single(p, pixel, 2);
            let a = read_single(p, pixel, 3);
            [r, g, b, a]
        },
    };
    assert(rgba@ =~= rgba_bits(color, pixel@));
    rgba
}

/// The raw value that stores a single-precision number in a number format.
///
/// A normalised integer is the number times the largest raw value, rounded
/// to the nearest whole number and limited to the raw values. A
/// single-precision channel holds the bit pattern itself. A channel that is
/// not stored has no raw value but 0.
#[verifier::opaque]
pub open spec fn raw_of_single(num: Num, bits: u32) -> nat {
    match num {
        Num::N1 => fp::unorm_spec(bits, 1),
        Num::N2 => fp::unorm_spec(bits, 3),
        Num::N4 => fp::unorm_spec(bits, 15),
        Num::N5 => fp::unorm_spec(bits, 31),
        Num::N6 => fp::unorm_spec(bits, 63),
        Num::N8 => fp::unorm_spec(bits, 255),
        Num::N10 => fp::unorm_spec(bits, 1023),
        Num::N16 => fp::unorm_spec(bits, 65535),
        Num::Fp32 => bits as nat,
        _ => 0,
    }
}

/// A channel keeps a decoded value of its own kind: an 8-bit channel an
/// 8-bit value, a 16-bit channel a 16-bit value, and a single-precision
/// channel a single-precision number, though every value goes through
/// single precision.
pub proof fn lemma_channel_keeps_value(v: u32)
    ensures
        v < 0x100 ==> raw_of_single(Num::N8, single_of(Precision::U8, v)) == v,
        v < 0x1_0000 ==> raw_of_single(Num::N16, single_of(Precision::U16, v)) == v,
        raw_of_single(Num::Fp32, single_of(Precision::F32, v)) == v,
{
    reveal(raw_of_single);
    if v < 0x100 {
        lemma_n8_survives(v as u8);
    }
    if v < 0x1_0000 {
        lemma_n16_survives(v as u16);
    }
}

/// The raw value that stores a single-precision number in a number format.
pub fn single_to_raw(num: Num, bits: u32) -> (raw: u32)
    ensures
        raw as nat == raw_of_single(num, bits),
{
    reveal(raw_of_single);
    match num {
        Num::N1 => fp::to_unorm(bits, 1) as u32,
        Num::N2 => fp::to_unorm(bits, 3) as u32,
        Num::N4 => fp::to_unorm(bits, 15) as u32,
        Num::N5 => fp::to_unorm(bits, 31) as u32,
        Num::N6 => fp::to_unorm(bits, 63) as u32,
        Num::N8 => fp::to_unorm(bits, 255) as u32,
        Num::N10 => fp::to_unorm(bits, 1023) as u32,
        Num::N16 => fp::to_unorm(bits, 65535) as u32,
        Num::Fp32 => bits,
        _ => 0,
    }
}

impl Format {
    /// Whether the format has an encoder that takes every colour format:
    /// its pixels are blocks of their own, and its channels are normalised
    /// integers or single-precision numbers.
    pub open spec fn has_universal(self) -> bool {
        match self {
            Format::R8G8B8_UNORM
            | Format::B8G8R8_UNORM
            | Format::R8G8B8A8_UNORM
            | Format::B8G8R8A8_UNORM
            | Format::B8G8R8X8_UNORM
            | Format::B5G6R5_UNORM
            | Format::B5G5R5A1_UNORM
            | Format::B4G4R4A4_UNORM
            | Format::A4B4G4R4_UNORM
            | Format::R8_UNORM
            | Format::R8G8_UNORM
            | Format::A8_UNORM
            | Format::R16_UNORM
            | Format::R16G16_UNORM
            | Format::R16G16B16A16_UNORM
            | Format::R10G10B10A2_UNORM
            | Format::R32_FLOAT
            | Format::R32G32_FLOAT
            | Format::R32G32B32_FLOAT
            | Format::R32G32B32A32_FLOAT => true,
            _ => false,
        }
    }

    /// Whether the format has an encoder that takes every colour format.
    pub fn is_universal(self) -> (b: bool)
        ensures
            b == self.has_universal(),
    {
        match self {
            Format::R8G8B8_UNORM
            | Format::B8G8R8_UNORM
            | Format::R8G8B8A8_UNORM
            | Format::B8G8R8A8_UNORM
            | Format::B8G8R8X8_UNORM
            | Format::B5G6R5_UNORM
            | Format::B5G5R5A1_UNORM
            | Format::B4G4R4A4_UNORM
            | Format::A4B4G4R4_UNORM
            | Format::R8_UNORM
            | Format::R8G8_UNORM
            | Format::A8_UNORM
            | Format::R16_UNORM
            | Format::R16G16_UNORM
            | Format::R16G16B16A16_UNORM
            | Format::R10G10B10A2_UNORM
            | Format::R32_FLOAT
            | Format::R32G32_FLOAT
            | Format::R32G32B32_FLOAT
            | Format::R32G32B32A32_FLOAT => true,
            _ => false,
        }
    }
}

/// Which of red (0), green (1), blue (2) and alpha (3) channel `c` of a
/// format with the native channels `native` is.
pub open spec fn source_index(native: Channels, c: nat) -> int {
    match native {
        Channels::Grayscale => 0,
        Channels::Alpha => 3,
        _ => c as int,
    }
}

/// What channel `c` adds to its word: its raw value at its place.
pub open spec fn channel_term(format: Format, rgba: Seq<u32>, c: nat) -> nat {
    let f = format.field(0, c);
    raw_of_single(f.num, rgba[source_index(format.channels_spec(), c)]) * (f.divisor as nat)
}

/// What the channels below `n` add to the word at `offset`.
pub open spec fn word_sum(format: Format, rgba: Seq<u32>, offset: nat, n: nat) -> nat
    decreases n,
{
    if n == 0 {
        0
    } else {
        let c = (n - 1) as nat;
        word_sum(format, rgba, offset, c) + if format.field(0, c).offset == offset {
            channel_term(format, rgba, c)
        } else {
            0
        }
    }
}

/// What a word holds besides channels: the byte of `B8G8R8X8_UNORM` that
/// stores no channel is 255.
pub open spec fn filler(format: Format, offset: nat) -> nat {
    if format == Format::B8G8R8X8_UNORM && offset == 3 {
        255
    } else {
        0
    }
}

/// The word at `offset` of the encoded pixel: the sum of its channels at
/// their places.
pub open spec fn word_total(format: Format, rgba: Seq<u32>, offset: nat) -> nat {
    filler(format, offset) + word_sum(
        format,
        rgba,
        offset,
        format.channels_spec().count_spec(),
    )
}

/// 256 to the power `i`, for the bytes of a word.
pub open spec fn byte_weight(i: nat) -> nat {
    if i == 0 {
        1
    } else if i == 1 {
        256
    } else if i == 2 {
        65536
    } else {
        16777216
    }
}

/// Byte `i` of a word, low byte first.
pub open spec fn word_byte(total: nat, i: nat) -> u8 {
    ((total / byte_weight(i)) % 256) as u8
}

/// Bytes of the words of a format: all words of a format have the same
/// number of bytes.
pub open spec fn word_bytes(format: Format) -> nat {
    format.field(0, 0).width as nat
}

/// Byte `j` of the encoded pixel.
pub open spec fn universal_byte(format: Format, rgba: Seq<u32>, j: nat) -> u8 {
    let w = word_bytes(format);
    let offset = j / w * w;
    word_byte(word_total(format, rgba, offset), (j - offset) as nat)
}

/// The encoded pixel of a format for red, green, blue and alpha.
pub open spec fn universal_pixel(format: Format, rgba: Seq<u32>) -> Seq<u8> {
    Seq::new(format.block_shape().bytes as nat, |j: int| universal_byte(format, rgba, j as nat))
}

/// Which of red, green, blue and alpha channel `c` of a format is.
fn source_of(native: Channels, c: u8) -> (i: usize)
    requires
        c < native.count_spec(),
    ensures
        i == source_index(native, c as nat),
        i < 4,
{
    match native {
        Channels::Grayscale => 0,
        Channels::Alpha => 3,
        _ => c as usize,
    }
}

/// The word at `offset` of the encoded pixel.
fn word_total_of(format: Format, rgba: &[u32; 4], offset: u8) -> (total: u128)
    ensures
        total as nat == word_total(format, rgba@, offset as nat),
{
    let native = format.channels();
    let count: u8 = native.count();
    let mut total: u128 = if matches!(format, Format::B8G8R8X8_UNORM) && offset == 3 {
        255
    } else {
        0
    };
    let mut c: u8 = 0;
    while c < count
        invariant
            c <= count,
            count <= 4,
            count as nat == native.count_spec(),
            native == format.channels_spec(),
            total as nat == filler(format, offset as nat) + word_sum(
                format,
                rgba@,
                offset as nat,
                c as nat,
            ),
            total <= 255 + c * 0x1_0000_0000_0000_0000,
        decreases count - c,
    {
        let f = format.field_at(0, c);
        if f.offset == offset {
            let raw = single_to_raw(f.num, rgba[source_of(native, c)]);
            assert(raw * f.divisor <= 0xFFFF_FFFF * 0xFFFF_FFFF) by (nonlinear_arith)
                requires
                    raw <= 0xFFFF_FFFF,
                    f.divisor <= 0xFFFF_FFFF,
            ;
            total = total + raw as u128 * f.divisor as u128;
        }
        c = c + 1;
    }
    total
}

/// Writes the `w` bytes of a word at `pos`, low byte first.
fn store_word(out: &mut [u8], pos: usize, total: u128, w: u8)
    requires
        w == 1 || w == 2 || w == 4,
        pos + w <= old(out)@.len(),
    ensures
        final(out)@.len() == old(out)@.len(),
        forall|j: int|
            0 <= j < old(out)@.len() ==> #[trigger] final(out)@[j] == (if pos <= j < pos + w {
                word_byte(total as nat, (j - pos) as nat)
            } else {
                old(out)@[j]
            }),
{
    let len: usize = out.len();
    proof {
        assert(word_byte(total as nat, 0) == ((total / 1) % 256) as u8);
        assert(word_byte(total as nat, 1) == ((total / 256) % 256) as u8);
        assert(word_byte(total as nat, 2) == ((total / 65536) % 256) as u8);
        assert(word_byte(total as nat, 3) == ((total / 16777216) % 256) as u8);
    }
    out[pos] = ((total / 1) % 256) as u8;
    if w >= 2 {
        out[pos + 1] = ((total / 256) % 256) as u8;
    }
    if w == 4 {
        out[pos + 2] = ((total / 65536) % 256) as u8;
        out[pos + 3] = ((total / 16777216) % 256) as u8;
    }
    proof {
        assert forall|j: int| 0 <= j < len implies #[trigger] out@[j] == (if pos <= j < pos + w {
            word_byte(total as nat, (j - pos) as nat)
        } else {
            old(out)@[j]
        }) by {
            if pos <= j < pos + w {
                let i = j - pos;
                assert(i == 0 || i == 1 || i == 2 || i == 3);
            }
        }
    }
}

/// Encodes red, green, blue and alpha as a pixel of a format, at `at`.
pub fn encode_universal_pixel(format: Format, rgba: &[u32; 4], out: &mut [u8], at: usize)
    requires
        format.has_universal(),
        at + format.block_shape().bytes <= old(out)@.len(),
    ensures
        final(out)@.len() == old(out)@.len(),
        final(out)@.subrange(at as int, at + format.block_shape().bytes) == universal_pixel(
            format,
            rgba@,
        ),
        forall|j: int|
            0 <= j < old(out)@.len() && !(at <= j < at + format.block_shape().bytes)
                ==> #[trigger] final(out)@[j] == old(out)@[j],
{
    let len: usize = out.len();
    let bytes: u8 = format.block_shape_of().bytes;
    let w: u8 = format.field_at(0, 0).width;
    proof {
        lemma_fields_fit(format, 0, 0);
        lemma_word_bytes(format);
    }
    let mut offset: u8 = 0;
    while offset < bytes
        invariant
            format.has_universal(),
            w == word_bytes(format),
            w == 1 || w == 2 || w == 4,
            bytes == format.block_shape().bytes,
            bytes as int % (w as int) == 0,
            offset as int % (w as int) == 0,
            offset <= bytes,
            at + bytes <= len,
            len == out@.len(),
            len == old(out)@.len(),
            forall|j: int| 0 <= j < offset ==> #[trigger] out@[at + j] == universal_byte(
                format,
                rgba@,
                j as nat,
            ),
            forall|j: int|
                0 <= j < len && !(at <= j < at + bytes) ==> #[trigger] out@[j] == old(out)@[j],
        decreases bytes - offset,
    {
        proof {
            lemma_next_word(offset as int, bytes as int, w as int);
        }
        let total = word_total_of(format, rgba, offset);
        let ghost before = out@;
        store_word(out, at + offset as usize, total, w);
        proof {
            assert forall|j: int| 0 <= j < offset + w implies #[trigger] out@[at + j]
                == universal_byte(format, rgba@, j as nat) by {
                if j >= offset {
                    lemma_in_word(offset as int, w as int, j);
                } else {
                    assert(out@[at + j] == before[at + j]);
                }
            }
        }
        offset = offset + w;
    }
    proof {
        let encoded = out@.subrange(at as int, at + bytes);
        assert forall|j: int| 0 <= j < bytes implies encoded[j] == universal_pixel(
            format,
            rgba@,
        )[j] by {
            assert(encoded[j] == out@[at + j]);
        }
        assert(encoded =~= universal_pixel(format, rgba@));
    }
}

/// The block of a format with an encoder for every colour format is made
/// of whole words.
proof fn lemma_word_bytes(format: Format)
    requires
        format.has_universal(),
    ensures
        (format.block_shape().bytes as int) % (word_bytes(format) as int) == 0,
{
}

/// Behind a word that starts within a block of whole words, the next word
/// starts within the block or at its end.
proof fn lemma_next_word(offset: int, bytes: int, w: int)
    requires
        w >= 1,
        0 <= offset < bytes,
        offset % w == 0,
        bytes % w == 0,
    ensures
        offset + w <= bytes,
        (offset + w) % w == 0,
{
    lemma_fundamental_div_mod(offset, w);
    lemma_fundamental_div_mod(bytes, w);
    let a = offset / w;
    let b = bytes / w;
    assert(a < b) by (nonlinear_arith)
        requires
            offset == w * a,
            bytes == w * b,
            offset < bytes,
            w >= 1,
    ;
    assert(w * (a + 1) <= w * b) by (nonlinear_arith)
        requires
            a + 1 <= b,
            w >= 1,
    ;
    assert(w * (a + 1) == w * a + w) by (nonlinear_arith);
    lemma_fundamental_div_mod_converse(offset + w, w, a + 1, 0);
}

/// A byte of the word that starts at `offset` belongs to that word.
proof fn lemma_in_word(offset: int, w: int, j: int)
    requires
        w >= 1,
        0 <= offset,
        offset % w == 0,
        offset <= j < offset + w,
    ensures
        j / w * w == offset,
{
    lemma_fundamental_div_mod(offset, w);
    let a = offset / w;
    assert(a * w == w * a) by (nonlinear_arith);
    lemma_fundamental_div_mod_converse(j, w, a, j - offset);
}

/// The raw value of a number in a number format is a raw value of the
/// format.
pub proof fn lemma_raw_in_range(num: Num, bits: u32)
    ensures
        raw_of_single(num, bits) < num.raw_count(),
        !num.is_stored() ==> raw_of_single(num, bits) == 0,
{
    reveal(raw_of_single);
}

/// The bytes of a word, low byte first, are the word as far as it fits into
/// them.
proof fn lemma_word_of_bytes(block: Seq<u8>, offset: int, width: int, total: nat)
    requires
        width == 1 || width == 2 || width == 4,
        0 <= offset,
        offset + width <= block.len(),
        forall|i: int|
            0 <= i < width ==> #[trigger] block[offset + i] == word_byte(total, i as nat),
    ensures
        word(block, offset, width) == total % word_values(width as nat),
{
    assert(block[offset + 0] == word_byte(total, 0nat));
    let q1 = total / 256;
    let q2 = q1 / 256;
    let q3 = q2 / 256;
    let q4 = q3 / 256;
    lemma_fundamental_div_mod(total as int, 256);
    lemma_fundamental_div_mod(q1 as int, 256);
    lemma_fundamental_div_mod(q2 as int, 256);
    lemma_fundamental_div_mod(q3 as int, 256);
    vstd::arithmetic::div_mod::lemma_div_denominator(total as int, 256, 256);
    vstd::arithmetic::div_mod::lemma_div_denominator(total as int, 65536, 256);
    let b0 = total % 256;
    let b1 = q1 % 256;
    let b2 = q2 % 256;
    let b3 = q3 % 256;
    assert(total / 1 == total);
    assert(total / 65536 == q2);
    assert(total / 16777216 == q3);
    if width == 1 {
        assert(word(block, offset, width) == b0);
    } else if width == 2 {
        assert(block[offset + 1] == word_byte(total, 1nat));
        assert(word(block, offset, width) == b0 + 256 * b1);
        lemma_fundamental_div_mod_converse(total as int, 65536, q2 as int, (b0 + 256 * b1) as int);
    } else {
        assert(block[offset + 1] == word_byte(total, 1nat));
        assert(block[offset + 2] == word_byte(total, 2nat));
        assert(block[offset + 3] == word_byte(total, 3nat));
        assert(word(block, offset, width) == b0 + 256 * b1 + 65536 * b2 + 16777216 * b3);
        lemma_fundamental_div_mod_converse(
            total as int,
            0x1_0000_0000,
            q4 as int,
            (b0 + 256 * b1 + 65536 * b2 + 16777216 * b3) as int,
        );
    }
}

/// The digits of a number in a mixed base: `v0` is the lowest digit, of
/// base `n0`, and so on.
proof fn lemma_digits(v0: nat, n0: nat, v1: nat, n1: nat, v2: nat, n2: nat, v3: nat, n3: nat)
    requires
        v0 < n0,
        v1 < n1,
        v2 < n2,
        v3 < n3,
    ensures
        ({
            let total = v0 + n0 * (v1 + n1 * (v2 + n2 * v3));
            &&& total % n0 == v0
            &&& (total / n0) % n1 == v1
            &&& (total / (n0 * n1)) % n2 == v2
            &&& (total / (n0 * n1 * n2)) % n3 == v3
            &&& total < n0 * n1 * n2 * n3
        }),
{
    let t3 = v3;
    let t2 = v2 + n2 * t3;
    let t1 = v1 + n1 * t2;
    let total = v0 + n0 * t1;
    assert(t1 * n0 == n0 * t1 && t2 * n1 == n1 * t2 && t3 * n2 == n2 * t3) by (nonlinear_arith);
    lemma_fundamental_div_mod_converse(total as int, n0 as int, t1 as int, v0 as int);
    lemma_fundamental_div_mod_converse(t1 as int, n1 as int, t2 as int, v1 as int);
    lemma_fundamental_div_mod_converse(t2 as int, n2 as int, t3 as int, v2 as int);
    vstd::arithmetic::div_mod::lemma_small_mod(t3, n3);
    vstd::arithmetic::div_mod::lemma_div_denominator(total as int, n0 as int, n1 as int);
    assert(n0 * n1 > 0) by (nonlinear_arith)
        requires
            n0 > 0,
            n1 > 0,
    ;
    vstd::arithmetic::div_mod::lemma_div_denominator(total as int, (n0 * n1) as int, n2 as int);
    assert((n0 * n1) * n2 == n0 * n1 * n2);
    assert(total < n0 * n1 * n2 * n3) by (nonlinear_arith)
        requires
            total == v0 + n0 * (v1 + n1 * (v2 + n2 * v3)),
            v0 < n0,
            v1 < n1,
            v2 < n2,
            v3 < n3,
    ;
}

/// Number of values of a word of `width` bytes.
pub open spec fn word_values(width: nat) -> nat {
    if width == 1 {
        0x100
    } else if width == 2 {
        0x1_0000
    } else {
        0x1_0000_0000
    }
}

/// The word at `offset` of an encoded pixel is the sum of its channels at
/// their places, as far as the sum fits into the word.
proof fn lemma_encoded_word(format: Format, rgba: Seq<u32>, offset: nat)
    requires
        format.has_universal(),
        offset % word_bytes(format) == 0,
        offset + word_bytes(format) <= format.block_shape().bytes,
    ensures
        word(universal_pixel(format, rgba), offset as int, word_bytes(format) as int)
            == word_total(format, rgba, offset) % word_values(word_bytes(format)),
{
    let w = word_bytes(format) as int;
    lemma_fields_fit(format, 0, 0);
    let block = universal_pixel(format, rgba);
    let total = word_total(format, rgba, offset);
    assert forall|i: int| 0 <= i < w implies #[trigger] block[offset + i] == word_byte(
        total,
        i as nat,
    ) by {
        lemma_in_word(offset as int, w, offset + i);
    }
    lemma_word_of_bytes(block, offset as int, w, total);
}

impl Num {
    /// Whether a channel of the number format is stored in the encoded
    /// pixel.
    pub open spec fn is_stored(self) -> bool {
        !(self is Zero) && !(self is Half) && !(self is One)
    }
}

impl Format {
    /// Whether every channel of the format is a word of its own.
    pub open spec fn has_whole_words(self) -> bool {
        self.has_universal() && !self.has_packed_word()
    }

    /// Whether the channels of the format share one word.
    pub open spec fn has_packed_word(self) -> bool {
        self == Format::B5G6R5_UNORM || self == Format::B5G5R5A1_UNORM || self
            == Format::B4G4R4A4_UNORM || self == Format::A4B4G4R4_UNORM || self
            == Format::R10G10B10A2_UNORM
    }
}

/// In a format whose channels are words of their own, a stored channel is
/// the whole of its word, and no other stored channel shares the word.
proof fn lemma_whole_words(format: Format, c: nat, k: nat)
    requires
        format.has_whole_words(),
        c < format.channels_spec().count_spec(),
        format.field(0, c).num.is_stored(),
    ensures
        format.field(0, c).divisor == 1,
        format.field(0, c).width as nat == word_bytes(format),
        format.field(0, c).num.raw_count() == word_values(word_bytes(format)),
        word_bytes(format) == 1 || (word_bytes(format) == 2 && format.field(0, c).offset % 2 == 0)
            || (word_bytes(format) == 4 && format.field(0, c).offset % 4 == 0),
        format.field(0, c).offset + word_bytes(format) <= format.block_shape().bytes,
        filler(format, format.field(0, c).offset as nat) == 0,
        k != c && k < format.channels_spec().count_spec() ==> format.field(0, k).offset
            != format.field(0, c).offset || !format.field(0, k).num.is_stored(),
{
    match format {
        Format::R8G8B8_UNORM => {},
        Format::B8G8R8_UNORM => {},
        Format::R8G8B8A8_UNORM => {},
        Format::B8G8R8A8_UNORM => {},
        Format::B8G8R8X8_UNORM => {},
        Format::R8_UNORM => {},
        Format::R8G8_UNORM => {},
        Format::A8_UNORM => {},
        Format::R16_UNORM => {},
        Format::R16G16_UNORM => {},
        Format::R16G16B16A16_UNORM => {},
        Format::R32_FLOAT => {},
        Format::R32G32_FLOAT => {},
        Format::R32G32B32_FLOAT => {},
        Format::R32G32B32A32_FLOAT => {},
        _ => {},
    }
}

/// The sum of the channels of a word that holds one stored channel only
/// is what that channel adds.
proof fn lemma_word_of_one(format: Format, rgba: Seq<u32>, offset: nat, n: nat, c: nat)
    requires
        format.field(0, c).offset == offset,
        forall|k: nat|
            k < n && k != c ==> (#[trigger] format.field(0, k)).offset != offset || !format.field(
                0,
                k,
            ).num.is_stored(),
    ensures
        word_sum(format, rgba, offset, n) == if c < n {
            channel_term(format, rgba, c)
        } else {
            0
        },
    decreases n,
{
    if n > 0 {
        let k = (n - 1) as nat;
        lemma_word_of_one(format, rgba, offset, k, c);
        if k != c && format.field(0, k).offset == offset {
            let f = format.field(0, k);
            assert(!f.num.is_stored());
            lemma_raw_in_range(f.num, rgba[source_index(format.channels_spec(), k)]);
            assert(channel_term(format, rgba, k) == 0) by (nonlinear_arith)
                requires
                    channel_term(format, rgba, k) == raw_of_single(
                        f.num,
                        rgba[source_index(format.channels_spec(), k)],
                    ) * (f.divisor as nat),
                    raw_of_single(f.num, rgba[source_index(format.channels_spec(), k)]) == 0,
            ;
        }
    }
}

/// Reading a channel from an encoded pixel gives the raw value that the
/// encoder made from the number of the channel, in a format whose channels
/// are words of their own.
proof fn lemma_whole_word_field(format: Format, rgba: Seq<u32>, c: nat)
    requires
        format.has_whole_words(),
        c < format.channels_spec().count_spec(),
        format.field(0, c).num.is_stored(),
    ensures
        field_raw(format.field(0, c), universal_pixel(format, rgba)) == raw_of_single(
            format.field(0, c).num,
            rgba[source_index(format.channels_spec(), c)],
        ),
{
    let f = format.field(0, c);
    let native = format.channels_spec();
    let offset = f.offset as nat;
    let raw = raw_of_single(f.num, rgba[source_index(native, c)]);
    lemma_whole_words(format, c, c);
    assert forall|k: nat| k < native.count_spec() && k != c implies (#[trigger] format.field(
        0,
        k,
    )).offset != offset || !format.field(0, k).num.is_stored() by {
        lemma_whole_words(format, c, k);
    }
    lemma_word_of_one(format, rgba, offset, native.count_spec(), c);
    lemma_encoded_word(format, rgba, offset);
    lemma_raw_in_range(f.num, rgba[source_index(native, c)]);
    assert(channel_term(format, rgba, c) == raw) by (nonlinear_arith)
        requires
            channel_term(format, rgba, c) == raw * (f.divisor as nat),
            f.divisor == 1,
    ;
    let values = word_values(word_bytes(format));
    assert(word_total(format, rgba, offset) == raw);
    vstd::arithmetic::div_mod::lemma_small_mod(raw, values);
    assert(raw / 1 == raw);
}

/// The channels of `B5G6R5_UNORM` do not overlap in their word.
proof fn lemma_packed_b5g6r5(rgba: Seq<u32>, c: nat)
    requires
        c < Format::B5G6R5_UNORM.channels_spec().count_spec(),
    ensures
        field_raw(Format::B5G6R5_UNORM.field(0, c), universal_pixel(Format::B5G6R5_UNORM, rgba))
            == raw_of_single(
            Format::B5G6R5_UNORM.field(0, c).num,
            rgba[source_index(Format::B5G6R5_UNORM.channels_spec(), c)],
        ),
{
    let format = Format::B5G6R5_UNORM;
    let block = universal_pixel(format, rgba);
    assert(format.channels_spec().count_spec() == 3);
    let v0 = raw_of_single(Num::N5, rgba[0]);
    lemma_raw_in_range(Num::N5, rgba[0]);
    assert(format.field(0, 0) == (Field { num: Num::N5, offset: 0, width: 2, divisor: 2048 }));
    assert(channel_term(format, rgba, 0) == v0 * 2048);
    let v1 = raw_of_single(Num::N6, rgba[1]);
    lemma_raw_in_range(Num::N6, rgba[1]);
    assert(format.field(0, 1) == (Field { num: Num::N6, offset: 0, width: 2, divisor: 32 }));
    assert(channel_term(format, rgba, 1) == v1 * 32);
    let v2 = raw_of_single(Num::N5, rgba[2]);
    lemma_raw_in_range(Num::N5, rgba[2]);
    assert(format.field(0, 2) == (Field { num: Num::N5, offset: 0, width: 2, divisor: 1 }));
    assert(channel_term(format, rgba, 2) == v2 * 1);
    assert(word_sum(format, rgba, 0, 0) == 0);
    assert(word_sum(format, rgba, 0, 1) == v0 * 2048);
    assert(word_sum(format, rgba, 0, 2) == v0 * 2048 + v1 * 32);
    assert(word_sum(format, rgba, 0, 3) == v0 * 2048 + v1 * 32 + v2 * 1);
    let total = v0 * 2048 + v1 * 32 + v2 * 1;
    assert(word_total(format, rgba, 0) == total);
    lemma_encoded_word(format, rgba, 0);
    lemma_digits(v2, 32, v1, 64, v0, 32, 0, 1);
    vstd::arithmetic::div_mod::lemma_small_mod(total, 65536);
    assert(word(block, 0, 2) == total);
    if c == 0 {
        assert(Num::N5.raw_count() == 32);
        assert((total / 2048) % 32 == v0);
        assert(field_raw(format.field(0, 0), block) == v0);
    } else if c == 1 {
        assert(Num::N6.raw_count() == 64);
        assert((total / 32) % 64 == v1);
        assert(field_raw(format.field(0, 1), block) == v1);
    } else if c == 2 {
        assert(Num::N5.raw_count() == 32);
        assert((total / 1) % 32 == v2);
        assert(field_raw(format.field(0, 2), block) == v2);
    }
}

/// The channels of `B5G5R5A1_UNORM` do not overlap in their word.
proof fn lemma_packed_b5g5r5a1(rgba: Seq<u32>, c: nat)
    requires
        c < Format::B5G5R5A1_UNORM.channels_spec().count_spec(),
    ensures
        field_raw(Format::B5G5R5A1_UNORM.field(0, c), universal_pixel(Format::B5G5R5A1_UNORM, rgba))
            == raw_of_single(
            Format::B5G5R5A1_UNORM.field(0, c).num,
            rgba[source_index(Format::B5G5R5A1_UNORM.channels_spec(), c)],
        ),
{
    let format = Format::B5G5R5A1_UNORM;
    let block = universal_pixel(format, rgba);
    assert(format.channels_spec().count_spec() == 4);
    let v0 = raw_of_single(Num::N5, rgba[0]);
    lemma_raw_in_range(Num::N5, rgba[0]);
    assert(format.field(0, 0) == (Field { num: Num::N5, offset: 0, width: 2, divisor: 1024 }));
    assert(channel_term(format, rgba, 0) == v0 * 1024);
    let v1 = raw_of_single(Num::N5, rgba[1]);
    lemma_raw_in_range(Num::N5, rgba[1]);
    assert(format.field(0, 1) == (Field { num: Num::N5, offset: 0, width: 2, divisor: 32 }));
    assert(channel_term(format, rgba, 1) == v1 * 32);
    let v2 = raw_of_single(Num::N5, rgba[2]);
    lemma_raw_in_range(Num::N5, rgba[2]);
    assert(format.field(0, 2) == (Field { num: Num::N5, offset: 0, width: 2, divisor: 1 }));
    assert(channel_term(format, rgba, 2) == v2 * 1);
    let v3 = raw_of_single(Num::N1, rgba[3]);
    lemma_raw_in_range(Num::N1, rgba[3]);
    assert(format.field(0, 3) == (Field { num: Num::N1, offset: 0, width: 2, divisor: 32768 }));
    assert(channel_term(format, rgba, 3) == v3 * 32768);
    assert(word_sum(format, rgba, 0, 0) == 0);
    assert(word_sum(format, rgba, 0, 1) == v0 * 1024);
    assert(word_sum(format, rgba, 0, 2) == v0 * 1024 + v1 * 32);
    assert(word_sum(format, rgba, 0, 3) == v0 * 1024 + v1 * 32 + v2 * 1);
    assert(word_sum(format, rgba, 0, 4) == v0 * 1024 + v1 * 32 + v2 * 1 + v3 * 32768);
    let total = v0 * 1024 + v1 * 32 + v2 * 1 + v3 * 32768;
    assert(word_total(format, rgba, 0) == total);
    lemma_encoded_word(format, rgba, 0);
    lemma_digits(v2, 32, v1, 32, v0, 32, v3, 2);
    vstd::arithmetic::div_mod::lemma_small_mod(total, 65536);
    assert(word(block, 0, 2) == total);
    if c == 0 {
        assert(Num::N5.raw_count() == 32);
        assert((total / 1024) % 32 == v0);
        assert(field_raw(format.field(0, 0), block) == v0);
    } else if c == 1 {
        assert(Num::N5.raw_count() == 32);
        assert((total / 32) % 32 == v1);
        assert(field_raw(format.field(0, 1), block) == v1);
    } else if c == 2 {
        assert(Num::N5.raw_count() == 32);
        assert((total / 1) % 32 == v2);
        assert(field_raw(format.field(0, 2), block) == v2);
    } else if c == 3 {
        assert(Num::N1.raw_count() == 2);
        assert((total / 32768) % 2 == v3);
        assert(field_raw(format.field(0, 3), block) == v3);
    }
}

/// The channels of `B4G4R4A4_UNORM` do not overlap in their word.
proof fn lemma_packed_b4g4r4a4(rgba: Seq<u32>, c: nat)
    requires
        c < Format::B4G4R4A4_UNORM.channels_spec().count_spec(),
    ensures
        field_raw(Format::B4G4R4A4_UNORM.field(0, c), universal_pixel(Format::B4G4R4A4_UNORM, rgba))
            == raw_of_single(
            Format::B4G4R4A4_UNORM.field(0, c).num,
            rgba[source_index(Format::B4G4R4A4_UNORM.channels_spec(), c)],
        ),
{
    let format = Format::B4G4R4A4_UNORM;
    let block = universal_pixel(format, rgba);
    assert(format.channels_spec().count_spec() == 4);
    let v0 = raw_of_single(Num::N4, rgba[0]);
    lemma_raw_in_range(Num::N4, rgba[0]);
    assert(format.field(0, 0) == (Field { num: Num::N4, offset: 0, width: 2, divisor: 256 }));
    assert(channel_term(format, rgba, 0) == v0 * 256);
    let v1 = raw_of_single(Num::N4, rgba[1]);
    lemma_raw_in_range(Num::N4, rgba[1]);
    assert(format.field(0, 1) == (Field { num: Num::N4, offset: 0, width: 2, divisor: 16 }));
    assert(channel_term(format, rgba, 1) == v1 * 16);
    let v2 = raw_of_single(Num::N4, rgba[2]);
    lemma_raw_in_range(Num::N4, rgba[2]);
    assert(format.field(0, 2) == (Field { num: Num::N4, offset: 0, width: 2, divisor: 1 }));
    assert(channel_term(format, rgba, 2) == v2 * 1);
    let v3 = raw_of_single(Num::N4, rgba[3]);
    lemma_raw_in_range(Num::N4, rgba[3]);
    assert(format.field(0, 3) == (Field { num: Num::N4, offset: 0, width: 2, divisor: 4096 }));
    assert(channel_term(format, rgba, 3) == v3 * 4096);
    assert(word_sum(format, rgba, 0, 0) == 0);
    assert(word_sum(format, rgba, 0, 1) == v0 * 256);
    assert(word_sum(format, rgba, 0, 2) == v0 * 256 + v1 * 16);
    assert(word_sum(format, rgba, 0, 3) == v0 * 256 + v1 * 16 + v2 * 1);
    assert(word_sum(format, rgba, 0, 4) == v0 * 256 + v1 * 16 + v2 * 1 + v3 * 4096);
    let total = v0 * 256 + v1 * 16 + v2 * 1 + v3 * 4096;
    assert(word_total(format, rgba, 0) == total);
    lemma_encoded_word(format, rgba, 0);
    lemma_digits(v2, 16, v1, 16, v0, 16, v3, 16);
    vstd::arithmetic::div_mod::lemma_small_mod(total, 65536);
    assert(word(block, 0, 2) == total);
    if c == 0 {
        assert(Num::N4.raw_count() == 16);
        assert((total / 256) % 16 == v0);
        assert(field_raw(format.field(0, 0), block) == v0);
    } else if c == 1 {
        assert(Num::N4.raw_count() == 16);
        assert((total / 16) % 16 == v1);
        assert(field_raw(format.field(0, 1), block) == v1);
    } else if c == 2 {
        assert(Num::N4.raw_count() == 16);
        assert((total / 1) % 16 == v2);
        assert(field_raw(format.field(0, 2), block) == v2);
    } else if c == 3 {
        assert(Num::N4.raw_count() == 16);
        assert((total / 4096) % 16 == v3);
        assert(field_raw(format.field(0, 3), block) == v3);
    }
}

/// The channels of `A4B4G4R4_UNORM` do not overlap in their word.
proof fn lemma_packed_a4b4g4r4(rgba: Seq<u32>, c: nat)
    requires
        c < Format::A4B4G4R4_UNORM.channels_spec().count_spec(),
    ensures
        field_raw(Format::A4B4G4R4_UNORM.field(0, c), universal_pixel(Format::A4B4G4R4_UNORM, rgba))
            == raw_of_single(
            Format::A4B4G4R4_UNORM.field(0, c).num,
            rgba[source_index(Format::A4B4G4R4_UNORM.channels_spec(), c)],
        ),
{
    let format = Format::A4B4G4R4_UNORM;
    let block = universal_pixel(format, rgba);
    assert(format.channels_spec().count_spec() == 4);
    let v0 = raw_of_single(Num::N4, rgba[0]);
    lemma_raw_in_range(Num::N4, rgba[0]);
    assert(format.field(0, 0) == (Field { num: Num::N4, offset: 0, width: 2, divisor: 4096 }));
    assert(channel_term(format, rgba, 0) == v0 * 4096);
    let v1 = raw_of_single(Num::N4, rgba[1]);
    lemma_raw_in_range(Num::N4, rgba[1]);
    assert(format.field(0, 1) == (Field { num: Num::N4, offset: 0, width: 2, divisor: 256 }));
    assert(channel_term(format, rgba, 1) == v1 * 256);
    let v2 = raw_of_single(Num::N4, rgba[2]);
    lemma_raw_in_range(Num::N4, rgba[2]);
    assert(format.field(0, 2) == (Field { num: Num::N4, offset: 0, width: 2, divisor: 16 }));
    assert(channel_term(format, rgba, 2) == v2 * 16);
    let v3 = raw_of_single(Num::N4, rgba[3]);
    lemma_raw_in_range(Num::N4, rgba[3]);
    assert(format.field(0, 3) == (Field { num: Num::N4, offset: 0, width: 2, divisor: 1 }));
    assert(channel_term(format, rgba, 3) == v3 * 1);
    assert(word_sum(format, rgba, 0, 0) == 0);
    assert(word_sum(format, rgba, 0, 1) == v0 * 4096);
    assert(word_sum(format, rgba, 0, 2) == v0 * 4096 + v1 * 256);
    assert(word_sum(format, rgba, 0, 3) == v0 * 4096 + v1 * 256 + v2 * 16);
    assert(word_sum(format, rgba, 0, 4) == v0 * 4096 + v1 * 256 + v2 * 16 + v3 * 1);
    let total = v0 * 4096 + v1 * 256 + v2 * 16 + v3 * 1;
    assert(word_total(format, rgba, 0) == total);
    lemma_encoded_word(format, rgba, 0);
    lemma_digits(v3, 16, v2, 16, v1, 16, v0, 16);
    vstd::arithmetic::div_mod::lemma_small_mod(total, 65536);
    assert(word(block, 0, 2) == total);
    if c == 0 {
        assert(Num::N4.raw_count() == 16);
        assert((total / 4096) % 16 == v0);
        assert(field_raw(format.field(0, 0), block) == v0);
    } else if c == 1 {
        assert(Num::N4.raw_count() == 16);
        assert((total / 256) % 16 == v1);
        assert(field_raw(format.field(0, 1), block) == v1);
    } else if c == 2 {
        assert(Num::N4.raw_count() == 16);
        assert((total / 16) % 16 == v2);
        assert(field_raw(format.field(0, 2), block) == v2);
    } else if c == 3 {
        assert(Num::N4.raw_count() == 16);
        assert((total / 1) % 16 == v3);
        assert(field_raw(format.field(0, 3), block) == v3);
    }
}

/// The channels of `R10G10B10A2_UNORM` do not overlap in their word.
proof fn lemma_packed_r10g10b10a2(rgba: Seq<u32>, c: nat)
    requires
        c < Format::R10G10B10A2_UNORM.channels_spec().count_spec(),
    ensures
        field_raw(Format::R10G10B10A2_UNORM.field(0, c), universal_pixel(Format::R10G10B10A2_UNORM, rgba))
            == raw_of_single(
            Format::R10G10B10A2_UNORM.field(0, c).num,
            rgba[source_index(Format::R10G10B10A2_UNORM.channels_spec(), c)],
        ),
{
    let format = Format::R10G10B10A2_UNORM;
    let block = universal_pixel(format, rgba);
    assert(format.channels_spec().count_spec() == 4);
    let v0 = raw_of_single(Num::N10, rgba[0]);
    lemma_raw_in_range(Num::N10, rgba[0]);
    assert(format.field(0, 0) == (Field { num: Num::N10, offset: 0, width: 4, divisor: 1 }));
    assert(channel_term(format, rgba, 0) == v0 * 1);
    let v1 = raw_of_single(Num::N10, rgba[1]);
    lemma_raw_in_range(Num::N10, rgba[1]);
    assert(format.field(0, 1) == (Field { num: Num::N10, offset: 0, width: 4, divisor: 1024 }));
    assert(channel_term(format, rgba, 1) == v1 * 1024);
    let v2 = raw_of_single(Num::N10, rgba[2]);
    lemma_raw_in_range(Num::N10, rgba[2]);
    assert(format.field(0, 2) == (Field { num: Num::N10, offset: 0, width: 4, divisor: 1048576 }));
    assert(channel_term(format, rgba, 2) == v2 * 1048576);
    let v3 = raw_of_single(Num::N2, rgba[3]);
    lemma_raw_in_range(Num::N2, rgba[3]);
    assert(format.field(0, 3) == (Field { num: Num::N2, offset: 0, width: 4, divisor: 1073741824 }));
    assert(channel_term(format, rgba, 3) == v3 * 1073741824);
    assert(word_sum(format, rgba, 0, 0) == 0);
    assert(word_sum(format, rgba, 0, 1) == v0 * 1);
    assert(word_sum(format, rgba, 0, 2) == v0 * 1 + v1 * 1024);
    assert(word_sum(format, rgba, 0, 3) == v0 * 1 + v1 * 1024 + v2 * 1048576);
    assert(word_sum(format, rgba, 0, 4) == v0 * 1 + v1 * 1024 + v2 * 1048576 + v3 * 1073741824);
    let total = v0 * 1 + v1 * 1024 + v2 * 1048576 + v3 * 1073741824;
    assert(word_total(format, rgba, 0) == total);
    lemma_encoded_word(format, rgba, 0);
    lemma_digits(v0, 1024, v1, 1024, v2, 1024, v3, 4);
    vstd::arithmetic::div_mod::lemma_small_mod(total, 4294967296);
    assert(word(block, 0, 4) == total);
    if c == 0 {
        assert(Num::N10.raw_count() == 1024);
        assert((total / 1) % 1024 == v0);
        assert(field_raw(format.field(0, 0), block) == v0);
    } else if c == 1 {
        assert(Num::N10.raw_count() == 1024);
        assert((total / 1024) % 1024 == v1);
        assert(field_raw(format.field(0, 1), block) == v1);
    } else if c == 2 {
        assert(Num::N10.raw_count() == 1024);
        assert((total / 1048576) % 1024 == v2);
        assert(field_raw(format.field(0, 2), block) == v2);
    } else if c == 3 {
        assert(Num::N2.raw_count() == 4);
        assert((total / 1073741824) % 4 == v3);
        assert(field_raw(format.field(0, 3), block) == v3);
    }
}

/// Reading a channel from an encoded pixel gives the raw value that the
/// encoder made from the number of the channel: the channels of a pixel do
/// not overlap. Decoding an encoded pixel so gives every stored channel as
/// the encoder rounded it.
pub proof fn lemma_universal_field(format: Format, rgba: Seq<u32>, c: nat)
    requires
        format.has_universal(),
        c < format.channels_spec().count_spec(),
        format.field(0, c).num.is_stored(),
    ensures
        field_raw(format.field(0, c), universal_pixel(format, rgba)) == raw_of_single(
            format.field(0, c).num,
            rgba[source_index(format.channels_spec(), c)],
        ),
{
    match format {
        Format::B5G6R5_UNORM => {
            lemma_packed_b5g6r5(rgba, c);
        },
        Format::B5G5R5A1_UNORM => {
            lemma_packed_b5g5r5a1(rgba, c);
        },
        Format::B4G4R4A4_UNORM => {
            lemma_packed_b4g4r4a4(rgba, c);
        },
        Format::A4B4G4R4_UNORM => {
            lemma_packed_a4b4g4r4(rgba, c);
        },
        Format::R10G10B10A2_UNORM => {
            lemma_packed_r10g10b10a2(rgba, c);
        },
        _ => {
            lemma_whole_word_field(format, rgba, c);
        },
    }
}

/// Pixels that one chunk holds: the buffers of a chunk hold that many
/// pixels as numbers and as encoded bytes.
pub const BUFFER_PIXELS: usize = 512;

/// Whether the first `n` pixels of a buffer of numbers are red, green, blue
/// and alpha of the first `n` pixels of a line.
pub open spec fn holds_rgba(intermediate: Seq<u32>, color: ColorFormat, line: Seq<u8>, n: int) -> bool {
    forall|x: int, i: int|
        0 <= x < n && 0 <= i < 4 ==> intermediate[4 * x + i] == #[trigger] rgba_channel(
            color,
            pixel_at(line, 0, color.bpp() as int, x),
            i,
        )
}

/// Turns the first `n` pixels of a line into red, green, blue and alpha.
pub fn convert_to_rgba_bits(color: ColorFormat, line: &[u8], intermediate: &mut [u32], n: usize)
    requires
        n * color.bpp() <= line@.len(),
        4 * n <= old(intermediate)@.len(),
    ensures
        final(intermediate)@.len() == old(intermediate)@.len(),
        holds_rgba(final(intermediate)@, color, line@, n as int),
{
    let bpp: usize = color.bytes_per_pixel() as usize;
    let len: usize = intermediate.len();
    let line_len: usize = line.len();
    let mut x: usize = 0;
    while x < n
        invariant
            x <= n,
            bpp == color.bpp(),
            n * bpp <= line@.len(),
            line_len == line@.len(),
            4 * n <= len,
            len == intermediate@.len(),
            len == old(intermediate)@.len(),
            holds_rgba(intermediate@, color, line@, x as int),
        decreases n - x,
    {
        proof {
            lemma_mul_succ(x as int, bpp as int);
            lemma_mul_le(x + 1, n as int, bpp as int);
            lemma_mul_le(0, x as int, bpp as int);
        }
        let pixel = vstd::slice::slice_subrange(line, x * bpp, (x + 1) * bpp);
        let rgba = to_rgba_bits(color, pixel);
        intermediate[4 * x] = rgba[0];
        intermediate[4 * x + 1] = rgba[1];
        intermediate[4 * x + 2] = rgba[2];
        intermediate[4 * x + 3] = rgba[3];
        x = x + 1;
    }
}

/// Encodes the first `n` pixels of a buffer of numbers, four to the pixel.
pub fn process_line(format: Format, intermediate: &[u32], encoded: &mut [u8], n: usize)
    requires
        format.has_universal(),
        4 * n <= intermediate@.len(),
        n * format.block_shape().bytes <= old(encoded)@.len(),
    ensures
        final(encoded)@.len() == old(encoded)@.len(),
        forall|x: int|
            0 <= x < n ==> #[trigger] pixel_at(
                final(encoded)@,
                0,
                format.block_shape().bytes as int,
                x,
            ) == universal_pixel(format, intermediate@.subrange(4 * x, 4 * x + 4)),
{
    let bytes: usize = format.block_shape_of().bytes as usize;
    let len: usize = encoded.len();
    let numbers: usize = intermediate.len();
    let mut x: usize = 0;
    while x < n
        invariant
            x <= n,
            format.has_universal(),
            bytes == format.block_shape().bytes,
            4 * n <= intermediate@.len(),
            numbers == intermediate@.len(),
            n * bytes <= len,
            len == encoded@.len(),
            len == old(encoded)@.len(),
            forall|i: int|
                0 <= i < x ==> #[trigger] pixel_at(encoded@, 0, bytes as int, i)
                    == universal_pixel(format, intermediate@.subrange(4 * i, 4 * i + 4)),
            forall|j: int| x * bytes <= j < len ==> #[trigger] encoded@[j] == old(encoded)@[j],
        decreases n - x,
    {
        proof {
            lemma_mul_succ(x as int, bytes as int);
            lemma_mul_le(x + 1, n as int, bytes as int);
            lemma_mul_le(0, x as int, bytes as int);
        }
        let rgba: [u32; 4] = [
            intermediate[4 * x],
            intermediate[4 * x + 1],
            intermediate[4 * x + 2],
            intermediate[4 * x + 3],
        ];
        assert(rgba@ =~= intermediate@.subrange(4 * x, 4 * x + 4));
        let ghost before = encoded@;
        encode_universal_pixel(format, &rgba, encoded, x * bytes);
        proof {
            let pixel = universal_pixel(format, rgba@);
            assert forall|j: int| 0 <= j < len implies #[trigger] encoded@[j] == (if x * bytes
                <= j < x * bytes + bytes {
                pixel[j - x * bytes]
            } else {
                before[j]
            }) by {
                if x * bytes <= j < x * bytes + bytes {
                    assert(encoded@.subrange(x * bytes, x * bytes + bytes)[j - x * bytes]
                        == encoded@[j]);
                }
            }
            lemma_pixels_step(pixel, old(encoded)@, before, encoded@, 0, bytes as int, x as int);
        }
        x = x + 1;
    }
}

/// Encodes one chunk of pixels through the two buffers and appends the
/// encoded bytes to the output.
fn universal_chunk(
    format: Format,
    data: &[u8],
    color: ColorFormat,
    done: usize,
    n: usize,
    out: &mut Vec<u8>,
    Ghost(initial): Ghost<Seq<u8>>,
)
    requires
        format.has_universal(),
        n <= BUFFER_PIXELS,
        (done + n) * color.bpp() <= data@.len(),
        encoded_appended(
            EncodeFn::Universal { format },
            color,
            data@,
            initial,
            old(out)@,
            done as int,
        ),
    ensures
        encoded_appended(EncodeFn::Universal { format }, color, data@, initial, final(out)@, done + n),
{
    let data_len: usize = data.len();
    let bpp: usize = color.bytes_per_pixel() as usize;
    let bytes: usize = format.block_shape_of().bytes as usize;
    let mut intermediate: [u32; 2048] = [0u32; 2048];
    let mut encoded: [u8; 8192] = [0u8; 8192];
    proof {
        assert(done + n <= (done + n) * bpp) by (nonlinear_arith)
            requires
                bpp >= 1,
        ;
        assert((done + n) * bpp == done * bpp + n * bpp) by (nonlinear_arith);
        lemma_mul_le(0, done as int, bpp as int);
        lemma_mul_le(0, n as int, bpp as int);
        lemma_block_bytes(format);
        lemma_mul_le(n as int, 512, bytes as int);
        lemma_mul_le(0, n as int, bytes as int);
    }
    let line = vstd::slice::slice_subrange(data, done * bpp, (done + n) * bpp);
    convert_to_rgba_bits(color, line, &mut intermediate, n);
    process_line(format, &intermediate, &mut encoded, n);
    let ghost before = out@;
    append_bytes(out, &encoded, n * bytes);
    proof {
        let f = EncodeFn::Universal { format };
        assert forall|x: int| 0 <= x < n implies #[trigger] pixel_at(
            encoded@,
            0,
            f.encoded_bpp(color) as int,
            x,
        ) == f.encoded_pixel(color, pixel_at(line@, 0, color.bpp() as int, x)) by {
            let pixel = pixel_at(line@, 0, color.bpp() as int, x);
            assert(rgba_channel(color, pixel, 0) == intermediate@[4 * x + 0]);
            assert(rgba_channel(color, pixel, 1) == intermediate@[4 * x + 1]);
            assert(rgba_channel(color, pixel, 2) == intermediate@[4 * x + 2]);
            assert(rgba_channel(color, pixel, 3) == intermediate@[4 * x + 3]);
            assert(intermediate@.subrange(4 * x, 4 * x + 4) =~= rgba_bits(color, pixel));
        }
        lemma_chunk_appended(
            f,
            color,
            data@,
            line@,
            encoded@,
            initial,
            before,
            out@,
            done as int,
            n as int,
        );
    }
}

/// The encoded pixel of a format with an encoder for every colour format
/// has at most 16 bytes.
proof fn lemma_block_bytes(format: Format)
    requires
        format.has_universal(),
    ensures
        1 <= format.block_shape().bytes <= 16,
        format.block_shape().width == 1,
{
}

/// Encodes pixels of any colour format chunk by chunk: the pixels of a
/// chunk are turned into red, green, blue and alpha as single-precision
/// numbers, these are encoded into a buffer, and the buffer is appended to
/// the output.
pub fn uncompressed_universal(data: &[u8], color: ColorFormat, pixels: usize, format: Format, out: &mut Vec<u8>)
    requires
        format.has_universal(),
        pixels * color.bpp() <= data@.len(),
    ensures
        encoded_appended(
            EncodeFn::Universal { format },
            color,
            data@,
            old(out)@,
            final(out)@,
            pixels as int,
        ),
{
    proof {
        assert(out@.subrange(0, out@.len() as int) =~= out@);
    }
    let mut done: usize = 0;
    while done < pixels
        invariant
            done <= pixels,
            format.has_universal(),
            pixels * color.bpp() <= data@.len(),
            encoded_appended(
                EncodeFn::Universal { format },
                color,
                data@,
                old(out)@,
                out@,
                done as int,
            ),
        decreases pixels - done,
    {
        let n: usize = if pixels - done < BUFFER_PIXELS {
            pixels - done
        } else {
            BUFFER_PIXELS
        };
        proof {
            lemma_mul_le(done + n, pixels as int, color.bpp() as int);
        }
        universal_chunk(format, data, color, done, n, out, Ghost(old(out)@));
        done = done + n;
    }
}

} // verus!
