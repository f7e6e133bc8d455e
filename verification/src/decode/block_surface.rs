//! Decoding of block-compressed surfaces and of rectangles of them.
//!
//! The encoded surface is a sequence of rows of blocks of 4x4 pixels. The
//! blocks at the right and lower edge reach beyond a surface whose width or
//! height is no multiple of 4.

use vstd::prelude::*;
use vstd::arithmetic::div_mod::{lemma_fundamental_div_mod, lemma_fundamental_div_mod_converse};
use crate::decode::adapt::{adapted_pixel, convert_pixel, target_bpp};
use crate::decode::bcn::{block_decoded, decode_block, texel_channel};
use crate::decode::channel::{channel_value, convert_channel, Num};
use crate::decode::decoder::DecodeContext;
use crate::decode::read_write::{lemma_mul_le, lemma_mul_succ, lemma_pixels_step, pixel_at, run_blocks,
    store_value, value_byte, ProcessPixelsFn};
use crate::decode::surface::{decoded_rect, decoded_surface, lemma_rows_step,
    lemma_surface_pixel_len, rows_decoded, rows_framed, surface_pixel};
use crate::error::DecodeError;
use crate::pixel::Rect;
use crate::format::Format;
use crate::pixel::{Channels, Precision, Size};

verus! {

/// The decoded bytes of texel `t` of a block in a precision, in the native
/// channels of the format: every channel is the 8-bit value of the texel
/// brought to the precision.
pub open spec fn texel_bytes(format: Format, precision: Precision, block: Seq<u8>, t: nat) -> Seq<u8> {
    let size = precision.size_spec() as int;
    Seq::new(
        format.channels_spec().count_spec() * precision.size_spec(),
        |j: int|
            value_byte(
                channel_value(
                    Num::N8,
                    texel_channel(format, block, t, (j / size) as nat),
                    precision,
                ),
                j % size,
            ),
    )
}

/// Number of rows of blocks of a surface.
pub open spec fn block_rows(height: nat) -> nat {
    (height + 3) / 4
}

/// Bytes of an encoded block-compressed surface.
pub open spec fn block_surface_bytes(format: Format, size: Size) -> nat {
    run_blocks(format, size.width as nat) * block_rows(size.height as nat) * (
    format.block_shape().bytes as nat)
}

/// Where the block that holds the pixel in column `x` of row `y` starts.
pub open spec fn block_start(format: Format, size: Size, x: int, y: int) -> int {
    ((y / 4) * run_blocks(format, size.width as nat) + x / 4) * (format.block_shape().bytes as int)
}

/// The decoded bytes of the pixel in column `x` of row `y` of a
/// block-compressed surface, in channels `to`.
pub open spec fn block_surface_pixel(
    pf: ProcessPixelsFn,
    to: Channels,
    encoded: Seq<u8>,
    size: Size,
    x: int,
    y: int,
) -> Seq<u8> {
    let start = block_start(pf.format, size, x, y);
    adapted_pixel(
        pf.format.channels_spec(),
        to,
        pf.precision,
        texel_bytes(
            pf.format,
            pf.precision,
            encoded.subrange(start, start + pf.format.block_shape().bytes),
            ((y % 4) * 4 + x % 4) as nat,
        ),
    )
}

/// Writes texel `t` of a decoded block at `pos`, in the precision of `pf`
/// and in channels `to`.
pub fn write_texel(
    pf: ProcessPixelsFn,
    to: Channels,
    texels: &[u8; 64],
    t: usize,
    output: &mut [u8],
    pos: usize,
    Ghost(block): Ghost<Seq<u8>>,
)
    requires
        pf.format.is_bcn(),
        t < 16,
        block_decoded(pf.format, block, texels@),
        pos + target_bpp(pf, to) <= old(output)@.len(),
    ensures
        final(output)@.len() == old(output)@.len(),
        forall|j: int|
            0 <= j < old(output)@.len() ==> #[trigger] final(output)@[j] == (if pos <= j < pos
                + target_bpp(pf, to) {
                adapted_pixel(
                    pf.format.channels_spec(),
                    to,
                    pf.precision,
                    texel_bytes(pf.format, pf.precision, block, t as nat),
                )[j - pos]
            } else {
                old(output)@[j]
            }),
{
    let from = pf.format.color().channels;
    let count: u8 = from.count();
    let size: u8 = pf.precision.size();
    // the texel in the native channels
    let mut native: [u8; 16] = [0u8; 16];
    let ghost want = texel_bytes(pf.format, pf.precision, block, t as nat);
    let mut c: u8 = 0;
    let mut at: usize = 0;
    while c < count
        invariant
            c <= count,
            t < 16,
            count as nat == pf.format.channels_spec().count_spec(),
            size as nat == pf.precision.size_spec(),
            block_decoded(pf.format, block, texels@),
            want == texel_bytes(pf.format, pf.precision, block, t as nat),
            at == c * size,
            native@.len() == 16,
            forall|j: int| 0 <= j < at ==> #[trigger] native@[j] == want[j],
        decreases count - c,
    {
        proof {
            lemma_mul_succ(c as int, size as int);
            lemma_mul_le(c + 1, count as int, size as int);
        }
        let v = convert_channel(Num::N8, texels[4 * t + c as usize] as u32, pf.precision);
        let ghost before = native@;
        store_value(&mut native, at, v, pf.precision);
        proof {
            assert forall|j: int| 0 <= j < at + size implies #[trigger] native@[j] == want[j] by {
                if at <= j {
                    lemma_fundamental_div_mod_converse(j, size as int, c as int, j - at);
                } else {
                    assert(native@[j] == before[j]);
                }
            }
        }
        at = at + size as usize;
        c = c + 1;
    }
    proof {
        assert(native@.subrange(0, count * size) =~= want);
    }
    convert_pixel(from, to, pf.precision, &native, 0, output, pos);
}

/// The block that holds a pixel of a surface lies within the encoded
/// surface.
pub proof fn lemma_block_in_surface(format: Format, size: Size, x: int, y: int)
    requires
        format.is_bcn(),
        0 <= x < size.width,
        0 <= y < size.height,
    ensures
        0 <= block_start(format, size, x, y),
        block_start(format, size, x, y) + format.block_shape().bytes <= block_surface_bytes(
            format,
            size,
        ),
{
    let bytes = format.block_shape().bytes as int;
    let per_row = run_blocks(format, size.width as nat) as int;
    let rows = block_rows(size.height as nat) as int;
    assert(bytes >= 1);
    lemma_fundamental_div_mod(x, 4);
    lemma_fundamental_div_mod(y, 4);
    lemma_fundamental_div_mod(size.width + 3, 4);
    lemma_fundamental_div_mod(size.height + 3, 4);
    assert(x / 4 + 1 <= per_row);
    assert(y / 4 + 1 <= rows);
    let index = (y / 4) * per_row + x / 4;
    assert(0 <= index && index + 1 <= per_row * rows) by (nonlinear_arith)
        requires
            0 <= x / 4 < per_row,
            0 <= y / 4 < rows,
            index == (y / 4) * per_row + x / 4,
    ;
    lemma_mul_le(index + 1, per_row * rows, bytes);
    lemma_mul_succ(index, bytes);
    lemma_mul_le(0, index, bytes);
}

/// Where the block that holds the pixel in column `x` of row `y` starts.
fn block_offset(format: Format, size: Size, x: u32, y: u32, Ghost(limit): Ghost<int>) -> (start: usize)
    requires
        format.is_bcn(),
        x < size.width,
        y < size.height,
        block_surface_bytes(format, size) <= limit,
        limit <= usize::MAX,
    ensures
        start as int == block_start(format, size, x as int, y as int),
        start + format.block_shape().bytes <= limit,
{
    let shape = format.block_shape_of();
    proof {
        lemma_block_in_surface(format, size, x as int, y as int);
    }
    let per_row: u64 = (size.width as u64 + 3) / 4;
    assert((y / 4) * per_row <= 0x4000_0000 * 0x4000_0000) by (nonlinear_arith)
        requires
            y / 4 <= 0x4000_0000,
            per_row <= 0x4000_0000,
    ;
    let index: u64 = (y / 4) as u64 * per_row + (x / 4) as u64;
    proof {
        assert(index * shape.bytes == block_start(format, size, x as int, y as int));
    }
    (index * shape.bytes as u64) as usize
}

/// Whether `texels` holds the decoded block of the pixel in column `x` of
/// row `y`.
#[verifier::opaque]
pub open spec fn holds_block_of(
    format: Format,
    encoded: Seq<u8>,
    size: Size,
    x: int,
    y: int,
    texels: Seq<u8>,
) -> bool {
    block_decoded(
        format,
        encoded.subrange(
            block_start(format, size, x, y),
            block_start(format, size, x, y) + format.block_shape().bytes,
        ),
        texels,
    )
}

/// Decodes pixel `rx` of row `ry` of a rectangle of a block-compressed
/// surface into its place under the row pitch. The block is decoded anew
/// where the pixel is the first of its block in the row, and taken from
/// `texels` where the pixel before it was of the same block.
fn decode_block_pixel(
    pf: ProcessPixelsFn,
    to: Channels,
    encoded: &[u8],
    size: Size,
    x: u32,
    y: u32,
    fresh: bool,
    texels: &mut [u8; 64],
    output: &mut [u8],
    pos: usize,
)
    requires
        pf.format.is_bcn(),
        x < size.width,
        y < size.height,
        block_surface_bytes(pf.format, size) <= encoded@.len(),
        pos + target_bpp(pf, to) <= old(output)@.len(),
        !fresh ==> x > 0 && holds_block_of(
            pf.format,
            encoded@,
            size,
            x - 1,
            y as int,
            old(texels)@,
        ),
    ensures
        final(output)@.len() == old(output)@.len(),
        holds_block_of(pf.format, encoded@, size, x as int, y as int, final(texels)@),
        forall|j: int|
            0 <= j < old(output)@.len() ==> #[trigger] final(output)@[j] == (if pos <= j < pos
                + target_bpp(pf, to) {
                surface_pixel(pf, to, encoded@, size, x as int, y as int)[j - pos]
            } else {
                old(output)@[j]
            }),
{
    let enc_len: usize = encoded.len();
    let ghost start = block_start(pf.format, size, x as int, y as int);
    let ghost block = encoded@.subrange(start, start + pf.format.block_shape().bytes);
    proof {
        reveal(holds_block_of);
        reveal(surface_pixel);
    }
    if fresh || x % 4 == 0 {
        let at = block_offset(pf.format, size, x, y, Ghost(enc_len as int));
        *texels = decode_block(pf.format, encoded, at);
    } else {
        proof {
            // the pixel before is of the same block
            lemma_fundamental_div_mod(x as int, 4);
            lemma_fundamental_div_mod_converse(x - 1, 4, x as int / 4, x as int % 4 - 1);
        }
    }
    let t: usize = ((y % 4) * 4 + x % 4) as usize;
    write_texel(pf, to, texels, t, output, pos, Ghost(block));
}

/// Decodes row `ry` of a rectangle of a block-compressed surface into its
/// place under the row pitch.
pub fn decode_block_rect_row(
    pf: ProcessPixelsFn,
    to: Channels,
    encoded: &[u8],
    size: Size,
    rect: Rect,
    ry: u32,
    output: &mut [u8],
    row_pitch: usize,
)
    requires
        pf.format.is_bcn(),
        rect.within(size),
        ry < rect.height,
        block_surface_bytes(pf.format, size) <= encoded@.len(),
        rect.width * target_bpp(pf, to) <= row_pitch,
        row_pitch * rect.height <= old(output)@.len(),
    ensures
        final(output)@.len() == old(output)@.len(),
        forall|rx: int|
            0 <= rx < rect.width ==> #[trigger] pixel_at(
                final(output)@,
                ry * row_pitch,
                target_bpp(pf, to),
                rx,
            ) == surface_pixel(pf, to, encoded@, size, rect.x + rx, rect.y + ry),
        forall|j: int|
            0 <= j < ry * row_pitch || ry * row_pitch + rect.width * target_bpp(pf, to) <= j < old(
                output,
            )@.len() ==> #[trigger] final(output)@[j] == old(output)@[j],
{
    let len: usize = output.len();
    let bpp: usize = (to.count() * pf.precision.size()) as usize;
    let y: u32 = rect.y + ry;
    proof {
        lemma_mul_le(ry + 1, rect.height as int, row_pitch as int);
        lemma_mul_succ(ry as int, row_pitch as int);
        lemma_mul_le(0, ry as int, row_pitch as int);
        assert(row_pitch * rect.height == rect.height * row_pitch) by (nonlinear_arith);
        lemma_mul_le(0, rect.width as int, bpp as int);
    }
    let start: usize = ry as usize * row_pitch;
    let mut texels: [u8; 64] = [0u8; 64];
    let mut rx: u32 = 0;
    let mut pos: usize = start;
    while rx < rect.width
        invariant
            rx <= rect.width,
            pf.format.is_bcn(),
            rect.within(size),
            y == rect.y + ry,
            y < size.height,
            block_surface_bytes(pf.format, size) <= encoded@.len(),
            bpp == target_bpp(pf, to),
            len == output@.len(),
            len == old(output)@.len(),
            start == ry * row_pitch,
            start + rect.width * bpp <= len,
            pos == start + rx * bpp,
            rx > 0 ==> holds_block_of(
                pf.format,
                encoded@,
                size,
                rect.x + rx - 1,
                y as int,
                texels@,
            ),
            forall|i: int|
                0 <= i < rx ==> #[trigger] pixel_at(output@, start as int, bpp as int, i)
                    == surface_pixel(pf, to, encoded@, size, rect.x + i, y as int),
            forall|j: int|
                0 <= j < start || start + rx * bpp <= j < len ==> #[trigger] output@[j] == old(
                    output,
                )@[j],
        decreases rect.width - rx,
    {
        proof {
            lemma_mul_succ(rx as int, bpp as int);
            lemma_mul_le(rx + 1, rect.width as int, bpp as int);
            lemma_mul_le(0, rx as int, bpp as int);
        }
        let ghost before = output@;
        decode_block_pixel(pf, to, encoded, size, rect.x + rx, y, rx == 0, &mut texels, output, pos);
        proof {
            let pixel = surface_pixel(pf, to, encoded@, size, rect.x + rx, y as int);
            lemma_surface_pixel_len(pf, to, encoded@, size, rect.x + rx, y as int);
            assert forall|j: int| 0 <= j < len implies #[trigger] output@[j] == (if start + rx * bpp
                <= j < start + rx * bpp + bpp {
                pixel[j - (start + rx * bpp)]
            } else {
                before[j]
            }) by {}
            lemma_pixels_step(
                surface_pixel(pf, to, encoded@, size, rect.x + rx, y as int),
                old(output)@,
                before,
                output@,
                start as int,
                bpp as int,
                rx as int,
            );
        }
        rx = rx + 1;
        pos = pos + bpp;
    }
}

/// What decoding a rectangle of a block-compressed surface gives: the
/// decoded rectangle where the encoded bytes hold the whole surface, else an
/// error for the missing bytes and the output as it was.
pub open spec fn block_rect_outcome(
    pf: ProcessPixelsFn,
    to: Channels,
    encoded: Seq<u8>,
    size: Size,
    rect: Rect,
    row_pitch: int,
    before: Seq<u8>,
    after: Seq<u8>,
    r: Result<(), DecodeError>,
) -> bool {
    &&& after.len() == before.len()
    &&& if encoded.len() < block_surface_bytes(pf.format, size) {
        r == Err::<(), DecodeError>(DecodeError::UnexpectedEof) && after == before
    } else {
        r == Ok::<(), DecodeError>(()) && decoded_rect(
            pf,
            to,
            encoded,
            size,
            rect,
            row_pitch,
            before,
            after,
        )
    }
}

/// Bytes of an encoded block-compressed surface, where they can be
/// addressed.
pub fn encoded_block_surface_bytes(format: Format, size: Size) -> (r: u128)
    requires
        format.is_bcn(),
    ensures
        r as nat == block_surface_bytes(format, size),
{
    let shape = format.block_shape_of();
    let per_row: u64 = (size.width as u64 + 3) / 4;
    let rows: u64 = (size.height as u64 + 3) / 4;
    assert(per_row * rows <= 0x4000_0000 * 0x4000_0000) by (nonlinear_arith)
        requires
            per_row <= 0x4000_0000,
            rows <= 0x4000_0000,
    ;
    assert(per_row * rows * shape.bytes <= 0x4000_0000 * 0x4000_0000 * 255) by (nonlinear_arith)
        requires
            per_row * rows <= 0x4000_0000 * 0x4000_0000,
            shape.bytes <= 255,
    ;
    (per_row as u128 * rows as u128) * shape.bytes as u128
}

/// Decodes a rectangle of a block-compressed surface into an output buffer
/// with a row pitch. Only the blocks that hold pixels of the rectangle are
/// decoded.
pub fn decode_block_rect(
    pf: ProcessPixelsFn,
    encoded: &[u8],
    output: &mut [u8],
    row_pitch: usize,
    context: DecodeContext,
    rect: Rect,
) -> (r: Result<(), DecodeError>)
    requires
        pf.format.is_bcn(),
        context.color.precision == pf.precision,
        rect.within(context.size),
        rect.width * context.color.bpp() <= row_pitch,
        row_pitch * rect.height <= old(output)@.len(),
    ensures
        block_rect_outcome(
            pf,
            context.color.channels,
            encoded@,
            context.size,
            rect,
            row_pitch as int,
            old(output)@,
            final(output)@,
            r,
        ),
{
    let to = context.color.channels;
    let size = context.size;
    let len: usize = output.len();
    let enc_len: usize = encoded.len();
    if (enc_len as u128) < encoded_block_surface_bytes(pf.format, size) {
        return Err(DecodeError::UnexpectedEof);
    }
    let ghost pitch = row_pitch as int;
    let mut ry: u32 = 0;
    while ry < rect.height
        invariant
            ry <= rect.height,
            pf.format.is_bcn(),
            to == context.color.channels,
            size == context.size,
            context.color.precision == pf.precision,
            rect.within(size),
            block_surface_bytes(pf.format, size) <= encoded@.len(),
            rect.width * target_bpp(pf, to) <= row_pitch,
            row_pitch * rect.height <= len,
            pitch == row_pitch,
            len == output@.len(),
            len == old(output)@.len(),
            rows_decoded(pf, to, encoded@, size, rect, pitch, output@, ry as int),
            rows_framed(pf, to, rect, pitch, old(output)@, output@, ry as int),
        decreases rect.height - ry,
    {
        let ghost mid = output@;
        decode_block_rect_row(pf, to, encoded, size, rect, ry, output, row_pitch);
        proof {
            lemma_rows_step(
                pf,
                to,
                encoded@,
                size,
                rect,
                pitch,
                old(output)@,
                mid,
                output@,
                ry as int,
            );
        }
        ry = ry + 1;
    }
    Ok(())
}

/// Decodes a whole block-compressed surface, row by row without gaps.
pub fn decode_block_surface(
    pf: ProcessPixelsFn,
    encoded: &[u8],
    output: &mut [u8],
    context: DecodeContext,
) -> (r: Result<(), DecodeError>)
    requires
        pf.format.is_bcn(),
        context.color.precision == pf.precision,
        old(output)@.len() == context.size.pixels_spec() * context.color.bpp(),
    ensures
        final(output)@.len() == old(output)@.len(),
        context.size.height > 0 && encoded@.len() < block_surface_bytes(pf.format, context.size)
            ==> r == Err::<(), DecodeError>(DecodeError::UnexpectedEof) && final(output)@ == old(
            output,
        )@,
        context.size.height == 0 || encoded@.len() >= block_surface_bytes(pf.format, context.size)
            ==> r == Ok::<(), DecodeError>(()) && decoded_surface(
            pf,
            context.color.channels,
            encoded@,
            context.size,
            final(output)@,
        ),
{
    let size = context.size;
    let len: usize = output.len();
    let bpp = context.color.bytes_per_pixel();
    let rect = Rect { x: 0, y: 0, width: size.width, height: size.height };
    proof {
        assert(size.pixels_spec() * context.color.bpp() == (size.width * bpp) * size.height)
            by (nonlinear_arith)
            requires
                size.pixels_spec() == (size.width as nat) * (size.height as nat),
                context.color.bpp() == bpp,
        ;
    }
    if size.height == 0 {
        return Ok(());
    }
    proof {
        assert(size.width * bpp <= (size.width * bpp) * size.height) by (nonlinear_arith)
            requires
                size.height >= 1,
                size.width * bpp >= 0,
        ;
    }
    let row_pitch: usize = size.width as usize * bpp as usize;
    decode_block_rect(pf, encoded, output, row_pitch, context, rect)
}

} // verus!
