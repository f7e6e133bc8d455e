//! Decoding of whole surfaces and of rectangles of surfaces, for the formats
//! that have a pixel processor.
//!
//! The encoded surface is a sequence of rows. Every row starts with a block
//! and holds as many blocks as its pixels need.

use vstd::prelude::*;
use vstd::arithmetic::div_mod::{lemma_fundamental_div_mod, lemma_fundamental_div_mod_converse};
use crate::decode::adapt::{adapt, adapted_pixel, target_bpp, UncompressedAdapter};
use crate::decode::block_surface::block_surface_pixel;
use crate::decode::decoder::DecodeContext;
use crate::decode::read_write::{encoded_pixel, lemma_block_in_run, lemma_mul_le, lemma_mul_succ,
    lemma_pixel_at_same, lemma_sub_run, pixel_at, run_blocks, run_bytes, PixelSize,
    ProcessPixelsFn};
use crate::error::DecodeError;
use crate::format::Format;
use crate::pixel::{Channels, ColorFormat, Rect, Size};

verus! {

/// Bytes of one encoded row of a surface.
pub open spec fn row_bytes(format: Format, width: nat) -> nat {
    run_bytes(format, width)
}

/// Bytes of an encoded surface of a format whose blocks are one pixel high.
pub open spec fn plain_surface_bytes(format: Format, size: Size) -> nat {
    row_bytes(format, size.width as nat) * (size.height as nat)
}

/// The decoded bytes of the pixel in column `x` of row `y` of a surface, in
/// channels `to`.
///
/// In a block-compressed surface the pixel is a texel of the block that
/// holds it. Else it is pixel `x` of the run that is row `y`.
#[verifier::opaque]
pub open spec fn surface_pixel(
    pf: ProcessPixelsFn,
    to: Channels,
    encoded: Seq<u8>,
    size: Size,
    x: int,
    y: int,
) -> Seq<u8> {
    if pf.format.is_bcn() {
        block_surface_pixel(pf, to, encoded, size, x, y)
    } else {
        adapted_pixel(
            pf.format.channels_spec(),
            to,
            pf.precision,
            encoded_pixel(pf, encoded, y * row_bytes(pf.format, size.width as nat), x),
        )
    }
}

/// A decoded pixel has the bytes of its colour format.
pub proof fn lemma_surface_pixel_len(
    pf: ProcessPixelsFn,
    to: Channels,
    encoded: Seq<u8>,
    size: Size,
    x: int,
    y: int,
)
    ensures
        surface_pixel(pf, to, encoded, size, x, y).len() == target_bpp(pf, to),
{
    reveal(surface_pixel);
}

/// A format with a pixel processor is not block-compressed.
pub proof fn lemma_plain_is_not_bcn(format: Format)
    requires
        format.is_plain(),
    ensures
        !format.is_bcn(),
{
}

/// One more decoded row of a rectangle: with the rows before row `ry`
/// decoded and framed, and row `ry` decoded without a change outside its
/// bytes, the rows up to and with row `ry` are decoded and framed.
pub proof fn lemma_rows_step(
    pf: ProcessPixelsFn,
    to: Channels,
    encoded: Seq<u8>,
    size: Size,
    rect: Rect,
    row_pitch: int,
    initial: Seq<u8>,
    mid: Seq<u8>,
    after: Seq<u8>,
    ry: int,
)
    requires
        0 <= ry < rect.height,
        0 <= row_pitch,
        rect.width * target_bpp(pf, to) <= row_pitch,
        row_pitch * rect.height <= initial.len(),
        mid.len() == initial.len(),
        after.len() == initial.len(),
        rows_decoded(pf, to, encoded, size, rect, row_pitch, mid, ry),
        rows_framed(pf, to, rect, row_pitch, initial, mid, ry),
        forall|rx: int|
            0 <= rx < rect.width ==> #[trigger] pixel_at(
                after,
                ry * row_pitch,
                target_bpp(pf, to),
                rx,
            ) == surface_pixel(pf, to, encoded, size, rect.x + rx, rect.y + ry),
        forall|j: int|
            0 <= j < ry * row_pitch || ry * row_pitch + rect.width * target_bpp(pf, to) <= j
                < initial.len() ==> #[trigger] after[j] == mid[j],
    ensures
        rows_decoded(pf, to, encoded, size, rect, row_pitch, after, ry + 1),
        rows_framed(pf, to, rect, row_pitch, initial, after, ry + 1),
{
    let bpp = target_bpp(pf, to);
    let pitch = row_pitch;
    lemma_mul_le(ry + 1, rect.height as int, pitch);
    lemma_mul_succ(ry, pitch);
    lemma_mul_le(0, ry, pitch);
    assert(row_pitch * rect.height == rect.height * row_pitch) by (nonlinear_arith);
    assert forall|rx: int, r: int| 0 <= rx < rect.width && 0 <= r < ry + 1 implies #[trigger] pixel_at(
        after,
        r * pitch,
        bpp,
        rx,
    ) == surface_pixel(pf, to, encoded, size, rect.x + rx, rect.y + r) by {
        if r < ry {
            lemma_mul_succ(r, pitch);
            lemma_mul_le(r + 1, ry, pitch);
            lemma_mul_le(0, r, pitch);
            lemma_mul_succ(rx, bpp);
            lemma_mul_le(rx + 1, rect.width as int, bpp);
            lemma_mul_le(0, rx, bpp);
            lemma_pixel_at_same(after, mid, r * pitch, bpp, rx);
        }
    }
    assert forall|r: int, t: int| 0 <= r < ry + 1 && rect.width * bpp <= t < pitch implies after[#[trigger] row_index(
        r,
        pitch,
        t,
    )] == initial[row_index(r, pitch, t)] by {
        lemma_mul_succ(r, pitch);
        lemma_mul_le(r + 1, ry + 1, pitch);
        lemma_mul_le(0, r, pitch);
        if r < ry {
            lemma_mul_le(r + 1, ry, pitch);
            assert(mid[row_index(r, pitch, t)] == initial[row_index(r, pitch, t)]);
        }
    }
}

/// What decoding a rectangle leaves in the output: every pixel of the
/// rectangle at its place under the row pitch, and every byte outside the
/// rows of the rectangle as it was.
pub open spec fn decoded_rect(
    pf: ProcessPixelsFn,
    to: Channels,
    encoded: Seq<u8>,
    size: Size,
    rect: Rect,
    row_pitch: int,
    before: Seq<u8>,
    after: Seq<u8>,
) -> bool {
    &&& after.len() == before.len()
    &&& rows_decoded(pf, to, encoded, size, rect, row_pitch, after, rect.height as int)
    &&& rows_framed(pf, to, rect, row_pitch, before, after, rect.height as int)
}

/// The first `rows` rows of the rectangle are decoded.
pub open spec fn rows_decoded(
    pf: ProcessPixelsFn,
    to: Channels,
    encoded: Seq<u8>,
    size: Size,
    rect: Rect,
    row_pitch: int,
    after: Seq<u8>,
    rows: int,
) -> bool {
    forall|rx: int, ry: int|
        0 <= rx < rect.width && 0 <= ry < rows ==> #[trigger] pixel_at(
            after,
            ry * row_pitch,
            target_bpp(pf, to),
            rx,
        ) == surface_pixel(pf, to, encoded, size, rect.x + rx, rect.y + ry)
}

/// The bytes between the first `rows` rows of the rectangle, and those
/// after them, are as they were.
pub open spec fn rows_framed(
    pf: ProcessPixelsFn,
    to: Channels,
    rect: Rect,
    row_pitch: int,
    before: Seq<u8>,
    after: Seq<u8>,
    rows: int,
) -> bool {
    &&& forall|ry: int, t: int|
        0 <= ry < rows && rect.width * target_bpp(pf, to) <= t < row_pitch ==> after[#[trigger] row_index(
            ry,
            row_pitch,
            t,
        )] == before[row_index(ry, row_pitch, t)]
    &&& forall|j: int| rows * row_pitch <= j < before.len() ==> #[trigger] after[j] == before[j]
}

/// The index of byte `t` of row `ry` under a row pitch.
pub open spec fn row_index(ry: int, row_pitch: int, t: int) -> int {
    ry * row_pitch + t
}

/// What decoding a surface leaves in the output: every pixel, row by row
/// without gaps.
pub open spec fn decoded_surface(
    pf: ProcessPixelsFn,
    to: Channels,
    encoded: Seq<u8>,
    size: Size,
    after: Seq<u8>,
) -> bool {
    &&& after.len() == size.pixels_spec() * target_bpp(pf, to)
    &&& forall|x: int, y: int|
        0 <= x < size.width && 0 <= y < size.height ==> #[trigger] pixel_at(
            after,
            y * (size.width * target_bpp(pf, to)),
            target_bpp(pf, to),
            x,
        ) == surface_pixel(pf, to, encoded, size, x, y)
}

/// A rectangle of a decoded surface holds the pixels that decoding the
/// rectangle gives.
pub proof fn lemma_rect_is_part_of_surface(
    pf: ProcessPixelsFn,
    to: Channels,
    encoded: Seq<u8>,
    size: Size,
    rect: Rect,
    row_pitch: int,
    full: Seq<u8>,
    before: Seq<u8>,
    part: Seq<u8>,
    rx: int,
    ry: int,
)
    requires
        rect.within(size),
        decoded_surface(pf, to, encoded, size, full),
        decoded_rect(pf, to, encoded, size, rect, row_pitch, before, part),
        0 <= rx < rect.width,
        0 <= ry < rect.height,
    ensures
        pixel_at(part, ry * row_pitch, target_bpp(pf, to), rx) == pixel_at(
            full,
            (rect.y + ry) * (size.width * target_bpp(pf, to)),
            target_bpp(pf, to),
            rect.x + rx,
        ),
{
}

/// Bytes of one encoded row of a surface.
pub fn encoded_row_bytes(format: Format, width: u32) -> (r: u64)
    ensures
        r as nat == row_bytes(format, width as nat),
        r <= 0xFFFF_FFFF * 255,
{
    let shape = format.block_shape_of();
    let blocks: u64 = (width as u64 + shape.width as u64 - 1) / (shape.width as u64);
    proof {
        lemma_fundamental_div_mod(width + shape.width - 1, shape.width as int);
        assert(blocks <= 0xFFFF_FFFF) by (nonlinear_arith)
            requires
                width + shape.width - 1 == shape.width * blocks + (width + shape.width - 1) % (
                shape.width as int),
                0 <= (width + shape.width - 1) % (shape.width as int),
                shape.width >= 1,
                width <= 0xFFFF_FFFF,
        ;
    }
    assert(blocks * shape.bytes <= 0xFFFF_FFFF * 255) by (nonlinear_arith)
        requires
            blocks <= 0xFFFF_FFFF,
            shape.bytes <= 255,
    ;
    blocks * shape.bytes as u64
}

/// A run that starts with block `first` of a row and ends within the row
/// lies within the bytes of the row.
pub proof fn lemma_run_within_row(format: Format, width: nat, first: nat, pixels: nat)
    requires
        first * (format.block_shape().width as nat) + pixels <= width,
    ensures
        first * (format.block_shape().bytes as nat) + run_bytes(format, pixels) <= row_bytes(
            format,
            width,
        ),
{
    let bw = format.block_shape().width as int;
    let bb = format.block_shape().bytes as int;
    assert(bw >= 1 && bb >= 1);
    let total = run_blocks(format, width) as int;
    lemma_fundamental_div_mod(width + bw - 1, bw);
    if pixels == 0 {
        assert(run_blocks(format, 0) == 0) by {
            lemma_fundamental_div_mod_converse(bw - 1, bw, 0, bw - 1);
        }
        assert(first <= total) by (nonlinear_arith)
            requires
                first * bw <= width,
                width + bw - 1 == bw * total + (width + bw - 1) % bw,
                0 <= (width + bw - 1) % bw < bw,
                bw >= 1,
        ;
        lemma_mul_le(first as int, total, bb);
    } else {
        let last = (pixels - 1) as int;
        let ql = last / bw;
        lemma_fundamental_div_mod(last, bw);
        assert((first + ql) * bw + last % bw == first * bw + last) by (nonlinear_arith)
            requires
                last == bw * ql + last % bw,
        ;
        lemma_fundamental_div_mod_converse(first * bw + last, bw, first + ql, last % bw);
        lemma_block_in_run(format, width, (first * bw + last) as nat);
        lemma_fundamental_div_mod(pixels + bw - 1, bw);
        let nb = run_blocks(format, pixels) as int;
        assert(nb == ql + 1) by (nonlinear_arith)
            requires
                last == bw * ql + last % bw,
                0 <= last % bw < bw,
                pixels + bw - 1 == bw * nb + (pixels + bw - 1) % bw,
                0 <= (pixels + bw - 1) % bw < bw,
                last == pixels - 1,
        ;
        assert((first + ql + 1) * bb == first * bb + nb * bb) by (nonlinear_arith)
            requires
                nb == ql + 1,
        ;
    }
}

/// Decodes `pixels` pixels of row `y` of a surface, from block `first` of
/// the row on, and writes them from `dec_start` on in channels `to`.
pub fn decode_row_part(
    pf: ProcessPixelsFn,
    to: Channels,
    encoded: &[u8],
    size: Size,
    first: u32,
    y: u32,
    pixels: usize,
    output: &mut [u8],
    dec_start: usize,
)
    requires
        pf.format.is_plain(),
        first * pf.format.block_shape().width + pixels <= size.width,
        y < size.height,
        plain_surface_bytes(pf.format, size) <= encoded@.len(),
        dec_start + pixels * target_bpp(pf, to) <= old(output)@.len(),
    ensures
        final(output)@.len() == old(output)@.len(),
        forall|i: int|
            0 <= i < pixels ==> #[trigger] pixel_at(
                final(output)@,
                dec_start as int,
                target_bpp(pf, to),
                i,
            ) == surface_pixel(
                pf,
                to,
                encoded@,
                size,
                first * pf.format.block_shape().width + i,
                y as int,
            ),
        forall|j: int|
            0 <= j < dec_start || dec_start + pixels * target_bpp(pf, to) <= j < old(output)@.len()
                ==> #[trigger] final(output)@[j] == old(output)@[j],
{
    let enc_len: usize = encoded.len();
    let shape = pf.format.block_shape_of();
    let row: u64 = encoded_row_bytes(pf.format, size.width);
    let ghost bw = shape.width as int;
    let ghost bb = shape.bytes as int;
    proof {
        // the rows up to and with row `y` lie within the encoded bytes
        lemma_mul_le(y + 1, size.height as int, row as int);
        lemma_mul_succ(y as int, row as int);
        lemma_mul_le(0, y as int, row as int);
        assert(plain_surface_bytes(pf.format, size) == size.height * row) by (nonlinear_arith)
            requires
                plain_surface_bytes(pf.format, size) == (row as nat) * (size.height as nat),
        ;
        lemma_run_within_row(pf.format, size.width as nat, first as nat, pixels as nat);
        lemma_mul_le(0, first as int, bb);
    }
    let enc_start: usize = (y as u64 * row + first as u64 * shape.bytes as u64) as usize;
    let adapter = UncompressedAdapter { process_fn: pf, enc_start, dec_start, pixels };
    adapt(&adapter, encoded, output, pf.format.color().channels, to, pf.precision);
    proof {
        assert forall|i: int| 0 <= i < pixels implies #[trigger] pixel_at(
            output@,
            dec_start as int,
            target_bpp(pf, to),
            i,
        ) == surface_pixel(pf, to, encoded@, size, first * bw + i, y as int) by {
            reveal(surface_pixel);
            lemma_plain_is_not_bcn(pf.format);
            lemma_sub_run(pf, encoded@, y * row, first as int, i);
        }
    }
}

/// Copies `n` bytes from `spos` of `src` to `opos` of `out`.
pub fn copy_bytes(src: &[u8], spos: usize, out: &mut [u8], opos: usize, n: usize)
    requires
        spos + n <= src@.len(),
        opos + n <= old(out)@.len(),
    ensures
        final(out)@.len() == old(out)@.len(),
        forall|j: int|
            0 <= j < old(out)@.len() ==> #[trigger] final(out)@[j] == (if opos <= j < opos + n {
                src@[spos + (j - opos)]
            } else {
                old(out)@[j]
            }),
{
    let len: usize = out.len();
    let src_len: usize = src.len();
    let mut t: usize = 0;
    while t < n
        invariant
            t <= n,
            len == out@.len(),
            len == old(out)@.len(),
            src_len == src@.len(),
            spos + n <= src_len,
            opos + n <= len,
            forall|j: int|
                0 <= j < len ==> #[trigger] out@[j] == (if opos <= j < opos + t {
                    src@[spos + (j - opos)]
                } else {
                    old(out)@[j]
                }),
        decreases n - t,
    {
        out[opos + t] = src[spos + t];
        t = t + 1;
    }
}

/// Decodes row `ry` of a rectangle into its place under the row pitch.
///
/// Where the rectangle starts with a block the pixels are decoded straight
/// into the output. Where it starts within a block, the row is decoded from
/// the start of that block into `scratch`, and the pixels of the rectangle
/// are copied from there.
pub fn decode_rect_row(
    pf: ProcessPixelsFn,
    to: Channels,
    encoded: &[u8],
    size: Size,
    rect: Rect,
    ry: u32,
    output: &mut [u8],
    row_pitch: usize,
    scratch: &mut [u8],
)
    requires
        pf.format.is_plain(),
        rect.within(size),
        ry < rect.height,
        plain_surface_bytes(pf.format, size) <= encoded@.len(),
        rect.width * target_bpp(pf, to) <= row_pitch,
        row_pitch * rect.height <= old(output)@.len(),
        rect.x % (pf.format.block_shape().width as u32) != 0 ==> (rect.x % (
        pf.format.block_shape().width as u32) + rect.width) * target_bpp(pf, to) <= old(
            scratch,
        )@.len(),
    ensures
        final(output)@.len() == old(output)@.len(),
        final(scratch)@.len() == old(scratch)@.len(),
        forall|rx: int|
            0 <= rx < rect.width ==> #[trigger] pixel_at(
                final(output)@,
                ry * row_pitch,
                target_bpp(pf, to),
                rx,
            ) == surface_pixel(pf, to, encoded@, size, rect.x + rx, rect.y + ry),
        forall|j: int|
            0 <= j < ry * row_pitch || ry * row_pitch + rect.width * target_bpp(pf, to) <= j < old(
                output,
            )@.len() ==> #[trigger] final(output)@[j] == old(output)@[j],
{
    let len: usize = output.len();
    let scratch_len: usize = scratch.len();
    let shape = pf.format.block_shape_of();
    let bpp: usize = (to.count() * pf.precision.size()) as usize;
    let first: u32 = rect.x / shape.width as u32;
    let lead: u32 = rect.x % shape.width as u32;
    let ghost bw = shape.width as int;
    proof {
        lemma_fundamental_div_mod(rect.x as int, bw);
        lemma_mul_le(ry + 1, rect.height as int, row_pitch as int);
        lemma_mul_succ(ry as int, row_pitch as int);
        lemma_mul_le(0, ry as int, row_pitch as int);
        assert(first * bw == bw * first) by (nonlinear_arith);
        assert(row_pitch * rect.height == rect.height * row_pitch) by (nonlinear_arith);
        assert((lead + rect.width) * bpp == lead * bpp + rect.width * bpp) by (nonlinear_arith);
        lemma_mul_le(0, lead as int, bpp as int);
        lemma_mul_le(0, rect.width as int, bpp as int);
    }
    let dec_start: usize = ry as usize * row_pitch;
    if lead == 0 {
        decode_row_part(
            pf,
            to,
            encoded,
            size,
            first,
            rect.y + ry,
            rect.width as usize,
            output,
            dec_start,
        );
    } else {
        let pixels: usize = lead as usize + rect.width as usize;
        decode_row_part(pf, to, encoded, size, first, rect.y + ry, pixels, scratch, 0);
        let ghost before = output@;
        copy_bytes(scratch, lead as usize * bpp, output, dec_start, rect.width as usize * bpp);
        proof {
            assert forall|rx: int| 0 <= rx < rect.width implies #[trigger] pixel_at(
                output@,
                ry * row_pitch,
                bpp as int,
                rx,
            ) == surface_pixel(pf, to, encoded@, size, rect.x + rx, rect.y + ry) by {
                lemma_mul_succ(rx, bpp as int);
                lemma_mul_le(rx + 1, rect.width as int, bpp as int);
                lemma_mul_le(0, rx, bpp as int);
                lemma_mul_succ(lead + rx, bpp as int);
                assert((lead + rx) * bpp == lead * bpp + rx * bpp) by (nonlinear_arith);
                lemma_mul_le(lead + rx + 1, lead + rect.width, bpp as int);
                let a = pixel_at(output@, ry * row_pitch, bpp as int, rx);
                let b = pixel_at(scratch@, 0, bpp as int, lead + rx);
                assert(a.len() == bpp);
                assert(b.len() == bpp);
                assert forall|t: int| 0 <= t < bpp implies a[t] == b[t] by {
                    assert(a[t] == output@[ry * row_pitch + rx * bpp + t]);
                    assert(b[t] == scratch@[(lead + rx) * bpp + t]);
                }
                assert(pixel_at(output@, ry * row_pitch, bpp as int, rx) =~= pixel_at(
                    scratch@,
                    0,
                    bpp as int,
                    lead + rx,
                ));
            }
        }
    }
}

/// How many pixels of a block lie in front of a rectangle in its rows.
pub open spec fn lead_pixels(format: Format, rect: Rect) -> nat {
    (rect.x as nat) % (format.block_shape().width as nat)
}

/// Bytes of the scratch row that decoding a rectangle takes: none where the
/// rectangle starts with a block.
pub open spec fn rect_scratch_bytes(pf: ProcessPixelsFn, to: Channels, rect: Rect) -> nat {
    if lead_pixels(pf.format, rect) == 0 {
        0
    } else {
        ((lead_pixels(pf.format, rect) + rect.width) * target_bpp(pf, to)) as nat
    }
}

/// What decoding a rectangle of a surface gives: the decoded rectangle
/// where the encoded bytes hold the whole surface and the scratch row fits
/// into the memory that is left, else the error and the output as it was.
pub open spec fn rect_outcome(
    pf: ProcessPixelsFn,
    to: Channels,
    encoded: Seq<u8>,
    size: Size,
    rect: Rect,
    row_pitch: int,
    memory_limit: usize,
    before: Seq<u8>,
    after: Seq<u8>,
    r: Result<(), DecodeError>,
) -> bool {
    &&& after.len() == before.len()
    &&& if encoded.len() < plain_surface_bytes(pf.format, size) {
        r == Err::<(), DecodeError>(DecodeError::UnexpectedEof) && after == before
    } else if rect_scratch_bytes(pf, to, rect) > memory_limit {
        r == Err::<(), DecodeError>(DecodeError::MemoryLimitExceeded) && after == before
    } else {
        r == Ok::<(), DecodeError>(()) && decoded_rect(
            pf,
            to,
            encoded,
            size,
            rect,
            row_pitch,
            before,
            after,
        )
    }
}

/// Decodes a rectangle of a surface into an output buffer with a row
/// pitch. Only the rows and columns of the rectangle are decoded.
pub fn for_each_pixel_rect_untyped(
    encoded: &[u8],
    output: &mut [u8],
    row_pitch: usize,
    context: DecodeContext,
    rect: Rect,
    native_color: ColorFormat,
    pixel_size: PixelSize,
    process_fn: ProcessPixelsFn,
) -> (r: Result<(), DecodeError>)
    requires
        process_fn.format.is_plain(),
        context.color.precision == process_fn.precision,
        rect.within(context.size),
        rect.width * context.color.bpp() <= row_pitch,
        row_pitch * rect.height <= old(output)@.len(),
    ensures
        rect_outcome(
            process_fn,
            context.color.channels,
            encoded@,
            context.size,
            rect,
            row_pitch as int,
            context.memory_limit,
            old(output)@,
            final(output)@,
            r,
        ),
{
    let pf = process_fn;
    let to = context.color.channels;
    let size = context.size;
    let len: usize = output.len();
    let enc_len: usize = encoded.len();
    let shape = pf.format.block_shape_of();
    let bpp: usize = context.color.bytes_per_pixel() as usize;
    // the encoded bytes must hold the whole surface
    let row: u64 = encoded_row_bytes(pf.format, size.width);
    assert(row * size.height <= 0xFFFF_FFFF * 255 * 0xFFFF_FFFF) by (nonlinear_arith)
        requires
            row <= 0xFFFF_FFFF * 255,
            size.height <= 0xFFFF_FFFF,
    ;
    if (enc_len as u128) < row as u128 * size.height as u128 {
        return Err(DecodeError::UnexpectedEof);
    }
    // a rectangle that starts within a block takes a scratch row
    let lead: u32 = rect.x % shape.width as u32;
    assert(lead <= rect.x) by {
        lemma_fundamental_div_mod(rect.x as int, shape.width as int);
        lemma_mul_le(0, rect.x as int / (shape.width as int), shape.width as int);
    }
    let mut context = context;
    let mut scratch: Vec<u8> = if lead == 0 {
        Vec::new()
    } else {
        match context.alloc_zeroed(lead as usize + rect.width as usize, bpp) {
            Ok(buffer) => buffer,
            Err(e) => {
                return Err(e);
            },
        }
    };
    let ghost pitch = row_pitch as int;
    let mut ry: u32 = 0;
    while ry < rect.height
        invariant
            ry <= rect.height,
            pf.format.is_plain(),
            to == context.color.channels,
            size == context.size,
            bpp == target_bpp(pf, to),
            rect.within(size),
            plain_surface_bytes(pf.format, size) <= encoded@.len(),
            rect.width * bpp <= row_pitch,
            row_pitch * rect.height <= len,
            pitch == row_pitch,
            len == output@.len(),
            len == old(output)@.len(),
            lead == rect.x % (pf.format.block_shape().width as u32),
            lead != 0 ==> (lead + rect.width) * bpp <= scratch@.len(),
            rows_decoded(pf, to, encoded@, size, rect, pitch, output@, ry as int),
            rows_framed(pf, to, rect, pitch, old(output)@, output@, ry as int),
        decreases rect.height - ry,
    {
        let ghost mid = output@;
        decode_rect_row(pf, to, encoded, size, rect, ry, output, row_pitch, scratch.as_mut_slice());
        proof {
            lemma_rows_step(
                pf,
                to,
                encoded@,
                size,
                rect,
                pitch,
                old(output)@,
                mid,
                output@,
                ry as int,
            );
        }
        ry = ry + 1;
    }
    Ok(())
}

/// Decodes a whole surface, row by row without gaps.
pub fn for_each_pixel_untyped(
    encoded: &[u8],
    output: &mut [u8],
    context: DecodeContext,
    native_color: ColorFormat,
    pixel_size: PixelSize,
    process_fn: ProcessPixelsFn,
) -> (r: Result<(), DecodeError>)
    requires
        process_fn.format.is_plain(),
        context.color.precision == process_fn.precision,
        old(output)@.len() == context.size.pixels_spec() * context.color.bpp(),
    ensures
        final(output)@.len() == old(output)@.len(),
        encoded@.len() < plain_surface_bytes(process_fn.format, context.size) ==> r == Err::<
            (),
            DecodeError,
        >(DecodeError::UnexpectedEof) && final(output)@ == old(output)@,
        encoded@.len() >= plain_surface_bytes(process_fn.format, context.size) ==> r == Ok::<
            (),
            DecodeError,
        >(()) && decoded_surface(
            process_fn,
            context.color.channels,
            encoded@,
            context.size,
            final(output)@,
        ),
{
    let size = context.size;
    let len: usize = output.len();
    let bpp = context.color.bytes_per_pixel();
    let rect = Rect { x: 0, y: 0, width: size.width, height: size.height };
    proof {
        assert(size.pixels_spec() * context.color.bpp() == (size.width * bpp) * size.height)
            by (nonlinear_arith)
            requires
                size.pixels_spec() == (size.width as nat) * (size.height as nat),
                context.color.bpp() == bpp,
        ;
        lemma_fundamental_div_mod_converse(0, process_fn.format.block_shape().width as int, 0, 0);
    }
    if size.height == 0 {
        // nothing to decode, and no byte is needed
        assert(row_bytes(process_fn.format, size.width as nat) * 0 == 0) by (nonlinear_arith);
        return Ok(());
    }
    proof {
        assert(size.width * bpp <= (size.width * bpp) * size.height) by (nonlinear_arith)
            requires
                size.height >= 1,
                size.width * bpp >= 0,
        ;
    }
    let row_pitch: usize = size.width as usize * bpp as usize;
    for_each_pixel_rect_untyped(
        encoded,
        output,
        row_pitch,
        context,
        rect,
        native_color,
        pixel_size,
        process_fn,
    )
}

} // verus!
