//! Which bytes of an encoded surface a rectangle needs: the rows of blocks
//! that hold its pixels. The rows before them can be skipped, and the rows
//! after them need not be read.

use vstd::prelude::*;
use vstd::arithmetic::div_mod::{lemma_fundamental_div_mod, lemma_fundamental_div_mod_converse};
use crate::decode::block_surface::{block_rows, block_start, block_surface_bytes};
use crate::decode::decoder::surface_bytes;
use crate::decode::read_write::{lemma_block_in_run, lemma_mul_le, lemma_mul_succ, lemma_sub_run,
    run_blocks, run_bytes, ProcessPixelsFn};
use crate::decode::util::TARGET;
use crate::decode::surface::{encoded_row_bytes, plain_surface_bytes, row_bytes, surface_pixel};
use crate::format::Format;
use crate::pixel::{Channels, Rect, Size};

verus! {

/// The part of an encoded surface to read for a rectangle.
#[derive(Debug, Clone, Copy, PartialEq, Eq, Structural)]
pub struct ReadPlan {
    /// Bytes of the surface in front of the part.
    pub skip: u64,
    /// Bytes of the part.
    pub len: u64,
    /// Bytes of the surface behind the part.
    pub rest: u64,
    /// The size of the surface that the part is on its own: the rows of
    /// pixels of its rows of blocks.
    pub size: Size,
    /// The rectangle within that surface.
    pub rect: Rect,
}

/// The first row of pixels of the rows of blocks that hold a rectangle.
pub open spec fn first_row(format: Format, rect: Rect) -> nat {
    let bh = format.block_shape().height as nat;
    (rect.y as nat / bh) * bh
}

/// The row of pixels behind the rows of blocks that hold a rectangle, but
/// not beyond the surface.
pub open spec fn end_row(format: Format, size: Size, rect: Rect) -> nat {
    let bh = format.block_shape().height as nat;
    let end = ((rect.y + rect.height + bh - 1) as nat / bh) * bh;
    if end > size.height {
        size.height as nat
    } else {
        end
    }
}

/// Bytes of one row of blocks of a surface.
pub open spec fn block_row_bytes(format: Format, size: Size) -> nat {
    run_bytes(format, size.width as nat)
}

/// The part of an encoded surface that holds the rows of blocks of a
/// rectangle.
pub open spec fn read_plan(format: Format, size: Size, rect: Rect) -> ReadPlan {
    let bh = format.block_shape().height as nat;
    let first = rect.y as nat / bh;
    let end = (rect.y + rect.height + bh - 1) as nat / bh;
    let total = (size.height + bh - 1) as nat / bh;
    let row = block_row_bytes(format, size);
    ReadPlan {
        skip: (first * row) as u64,
        len: ((end - first) * row) as u64,
        rest: ((total - end) * row) as u64,
        size: Size {
            width: size.width,
            height: (end_row(format, size, rect) - first_row(format, rect)) as u32,
        },
        rect: Rect {
            x: rect.x,
            y: (rect.y - first_row(format, rect)) as u32,
            width: rect.width,
            height: rect.height,
        },
    }
}

/// The part of an encoded surface to read for a rectangle that holds a
/// pixel: the rows of blocks that hold pixels of the rectangle.
pub fn rect_read_plan(format: Format, size: Size, rect: Rect) -> (plan: ReadPlan)
    requires
        rect.within(size),
        rect.height > 0,
        run_bytes(format, size.width as nat) * ((size.height + format.block_shape().height
            - 1) as nat / (format.block_shape().height as nat)) <= u64::MAX,
    ensures
        plan == read_plan(format, size, rect),
        plan.rect.within(plan.size),
        plan.skip + plan.len + plan.rest == run_bytes(format, size.width as nat) * ((size.height
            + format.block_shape().height - 1) as nat / (format.block_shape().height as nat)),
{
    let shape = format.block_shape_of();
    let bh: u64 = shape.height as u64;
    let row: u64 = encoded_row_bytes(format, size.width);
    let first: u64 = rect.y as u64 / bh;
    let end: u64 = (rect.y as u64 + rect.height as u64 + bh - 1) / bh;
    let total: u64 = (size.height as u64 + bh - 1) / bh;
    proof {
        lemma_fundamental_div_mod(rect.y as int, bh as int);
        lemma_fundamental_div_mod(rect.y + rect.height + bh - 1, bh as int);
        lemma_fundamental_div_mod(size.height + bh - 1, bh as int);
        assert(first <= end <= total && total <= 0xFFFF_FFFF) by (nonlinear_arith)
            requires
                rect.y as int == bh * first + rect.y as int % (bh as int),
                0 <= rect.y as int % (bh as int) < bh,
                rect.y + rect.height + bh - 1 == bh * end + (rect.y + rect.height + bh - 1) % (
                bh as int),
                0 <= (rect.y + rect.height + bh - 1) % (bh as int) < bh,
                size.height + bh - 1 == bh * total + (size.height + bh - 1) % (bh as int),
                0 <= (size.height + bh - 1) % (bh as int) < bh,
                rect.y + rect.height <= size.height,
                size.height <= 0xFFFF_FFFF,
                rect.height > 0,
                bh >= 1,
        ;
        assert(first * bh <= rect.y && end * bh >= rect.y + rect.height && end * bh <= 0xFFFF_FFFF
            + 255) by (nonlinear_arith)
            requires
                rect.y as int == bh * first + rect.y as int % (bh as int),
                0 <= rect.y as int % (bh as int) < bh,
                rect.y + rect.height + bh - 1 == bh * end + (rect.y + rect.height + bh - 1) % (
                bh as int),
                0 <= (rect.y + rect.height + bh - 1) % (bh as int) < bh,
                rect.y + rect.height <= 0xFFFF_FFFF,
                bh <= 255,
        ;
        lemma_mul_le(first as int, total as int, row as int);
        lemma_mul_le(end as int, total as int, row as int);
        lemma_mul_le((end - first) as int, total as int, row as int);
        lemma_mul_le((total - end) as int, total as int, row as int);
        lemma_mul_le(0, first as int, row as int);
        assert(row * total == total * row) by (nonlinear_arith);
        assert(first * row + (end - first) * row + (total - end) * row == total * row)
            by (nonlinear_arith);
    }
    let first_row: u64 = first * bh;
    let last_row: u64 = if end * bh > size.height as u64 {
        size.height as u64
    } else {
        end * bh
    };
    ReadPlan {
        skip: first * row,
        len: (end - first) * row,
        rest: (total - end) * row,
        size: Size { width: size.width, height: (last_row - first_row) as u32 },
        rect: Rect {
            x: rect.x,
            y: (rect.y as u64 - first_row) as u32,
            width: rect.width,
            height: rect.height,
        },
    }
}

/// Whether a rectangle of a surface has a read plan: it holds a row of
/// pixels, lies within the surface, and the length of the encoded surface
/// is a number of 64 bits.
pub open spec fn has_read_plan(format: Format, size: Size, rect: Rect) -> bool {
    &&& rect.within(size)
    &&& rect.height > 0
    &&& run_bytes(format, size.width as nat) * ((size.height + format.block_shape().height
        - 1) as nat / (format.block_shape().height as nat)) <= u64::MAX
}

/// The read plan of a rectangle that has one.
pub fn checked_rect_read_plan(format: Format, size: Size, rect: Rect) -> (r: Option<ReadPlan>)
    ensures
        r == if has_read_plan(format, size, rect) {
            Some(read_plan(format, size, rect))
        } else {
            None
        },
        r matches Some(plan) ==> plan.rect.within(plan.size) && plan.rect.height == rect.height,
{
    if !rect.is_within_bounds(size) || rect.height == 0 {
        return None;
    }
    let shape = format.block_shape_of();
    let bh: u64 = shape.height as u64;
    let row: u64 = encoded_row_bytes(format, size.width);
    let total: u64 = (size.height as u64 + bh - 1) / bh;
    proof {
        lemma_fundamental_div_mod(size.height + bh - 1, bh as int);
        assert(total <= 0xFFFF_FFFF) by (nonlinear_arith)
            requires
                size.height + bh - 1 == bh * total + (size.height + bh - 1) % (bh as int),
                0 <= (size.height + bh - 1) % (bh as int),
                size.height <= 0xFFFF_FFFF,
                bh >= 1,
        ;
        assert(row * total <= 0xFFFF_FFFF * 255 * 0xFFFF_FFFF) by (nonlinear_arith)
            requires
                row <= 0xFFFF_FFFF * 255,
                total <= 0xFFFF_FFFF,
        ;
    }
    let bytes: u128 = row as u128 * total as u128;
    if bytes > u64::MAX as u128 {
        return None;
    }
    Some(rect_read_plan(format, size, rect))
}

/// The stripe of a surface that starts at row `y`, for a surface that is
/// decoded stripe by stripe: all columns, and as many rows of blocks as
/// fit into the bytes of a chunk, but one row of blocks at least, and not
/// more than the surface has left.
pub open spec fn stripe_rect(format: Format, size: Size, y: u32) -> Rect {
    let row = block_row_bytes(format, size);
    let block_rows: nat = if row == 0 || row > TARGET {
        1
    } else {
        TARGET as nat / row
    };
    let rows = block_rows * (format.block_shape().height as nat);
    let height: nat = if y >= size.height {
        0
    } else if rows > size.height - y {
        (size.height - y) as nat
    } else {
        rows
    };
    Rect { x: 0, y, width: size.width, height: height as u32 }
}

/// The read plan of the stripe of a surface that starts at row `y`, `None`
/// where the surface has no such row or the stripe has no read plan.
pub fn stripe_read_plan(format: Format, size: Size, y: u32) -> (r: Option<ReadPlan>)
    ensures
        r == if has_read_plan(format, size, stripe_rect(format, size, y)) {
            Some(read_plan(format, size, stripe_rect(format, size, y)))
        } else {
            None
        },
        r matches Some(plan) ==> plan.rect.within(plan.size) && y + plan.rect.height
            <= size.height && plan.rect.height >= 1,
{
    let shape = format.block_shape_of();
    let row: u64 = encoded_row_bytes(format, size.width);
    let block_rows: u64 = if row == 0 || row > TARGET as u64 {
        1
    } else {
        TARGET as u64 / row
    };
    proof {
        if !(row == 0 || row > TARGET) {
            lemma_fundamental_div_mod(TARGET as int, row as int);
            assert(block_rows <= TARGET) by (nonlinear_arith)
                requires
                    TARGET == row * block_rows + TARGET as int % (row as int),
                    0 <= TARGET as int % (row as int),
                    row >= 1,
                    block_rows >= 0,
            ;
        }
        assert(block_rows * shape.height <= 65536 * 255) by (nonlinear_arith)
            requires
                block_rows <= 65536,
                shape.height <= 255,
        ;
    }
    let rows: u64 = block_rows * shape.height as u64;
    let height: u32 = if y >= size.height {
        0
    } else if rows > (size.height - y) as u64 {
        size.height - y
    } else {
        rows as u32
    };
    let rect = Rect { x: 0, y, width: size.width, height };
    assert(rect == stripe_rect(format, size, y));
    checked_rect_read_plan(format, size, rect)
}

/// The rows of blocks of a rectangle, in numbers: with `first` the first
/// row of blocks, `end` the one behind the last and `total` the number of
/// rows of blocks of the surface.
pub open spec fn plan_rows(bh: int, y0: int, height: int, surface_height: int) -> (int, int, int) {
    (y0 / bh, (y0 + height + bh - 1) / bh, (surface_height + bh - 1) / bh)
}

/// The rows of blocks of a rectangle lie within the rows of blocks of the
/// surface, and a row of pixels of the part lies in the row of blocks that
/// its number within the part says.
proof fn lemma_plan_rows(bh: int, y0: int, height: int, surface_height: int, y: int)
    requires
        bh >= 1,
        0 <= y0,
        height > 0,
        y0 + height <= surface_height,
        0 <= y,
        y0 / bh * bh + y < surface_height,
        y0 / bh * bh + y < (y0 + height + bh - 1) / bh * bh,
    ensures
        ({
            let (first, end, total) = plan_rows(bh, y0, height, surface_height);
            &&& 0 <= first < end <= total
            &&& first * bh <= y0
            &&& end * bh >= y0 + height
            &&& (first * bh + y) / bh == first + y / bh
            &&& (first * bh + y) % bh == y % bh
            &&& 0 <= y / bh < end - first
        }),
{
    let (first, end, total) = plan_rows(bh, y0, height, surface_height);
    lemma_fundamental_div_mod(y0, bh);
    lemma_fundamental_div_mod(y0 + height + bh - 1, bh);
    lemma_fundamental_div_mod(surface_height + bh - 1, bh);
    lemma_fundamental_div_mod(y, bh);
    assert(0 <= first < end <= total && first * bh <= y0 && end * bh >= y0 + height)
        by (nonlinear_arith)
        requires
            y0 == bh * first + y0 % bh,
            0 <= y0 % bh < bh,
            y0 + height + bh - 1 == bh * end + (y0 + height + bh - 1) % bh,
            0 <= (y0 + height + bh - 1) % bh < bh,
            surface_height + bh - 1 == bh * total + (surface_height + bh - 1) % bh,
            0 <= (surface_height + bh - 1) % bh < bh,
            y0 + height <= surface_height,
            height > 0,
            0 <= y0,
            bh >= 1,
    ;
    let by = y / bh;
    assert(first * bh + y == (first + by) * bh + y % bh) by (nonlinear_arith)
        requires
            y == bh * by + y % bh,
    ;
    lemma_fundamental_div_mod_converse(first * bh + y, bh, first + by, y % bh);
    assert(0 <= by < end - first) by (nonlinear_arith)
        requires
            first * bh + y < end * bh,
            y == bh * by + y % bh,
            0 <= y % bh < bh,
            0 <= y,
            bh >= 1,
    ;
}

/// What a read plan holds, in numbers.
proof fn lemma_plan_fields(format: Format, size: Size, rect: Rect)
    requires
        rect.within(size),
        rect.height > 0,
        run_bytes(format, size.width as nat) * ((size.height + format.block_shape().height
            - 1) as nat / (format.block_shape().height as nat)) <= u64::MAX,
    ensures
        ({
            let bh = format.block_shape().height as int;
            let (first, end, total) = plan_rows(
                bh,
                rect.y as int,
                rect.height as int,
                size.height as int,
            );
            let row = block_row_bytes(format, size) as int;
            let plan = read_plan(format, size, rect);
            &&& plan.skip == first * row
            &&& plan.len == (end - first) * row
            &&& plan.skip + plan.len == end * row
            &&& end * row <= total * row
            &&& first_row(format, rect) == first * bh
            &&& plan.size.width == size.width
            &&& first * bh + plan.size.height <= size.height
            &&& first * bh + plan.size.height <= end * bh
            &&& first * bh + plan.size.height == size.height || first * bh + plan.size.height
                == end * bh
        }),
{
    let bh = format.block_shape().height as int;
    let (first, end, total) = plan_rows(bh, rect.y as int, rect.height as int, size.height as int);
    let row = block_row_bytes(format, size) as int;
    assert(bh >= 1);
    lemma_fundamental_div_mod(rect.y as int, bh);
    assert(first * bh <= rect.y) by (nonlinear_arith)
        requires
            rect.y as int == bh * first + rect.y as int % bh,
            0 <= rect.y as int % bh,
    ;
    lemma_fundamental_div_mod(rect.y + rect.height + bh - 1, bh);
    lemma_fundamental_div_mod(size.height + bh - 1, bh);
    assert(0 <= first < end <= total && end * bh >= rect.y + rect.height) by (nonlinear_arith)
        requires
            rect.y as int == bh * first + rect.y as int % bh,
            0 <= rect.y as int % bh < bh,
            rect.y + rect.height + bh - 1 == bh * end + (rect.y + rect.height + bh - 1) % bh,
            0 <= (rect.y + rect.height + bh - 1) % bh < bh,
            size.height + bh - 1 == bh * total + (size.height + bh - 1) % bh,
            0 <= (size.height + bh - 1) % bh < bh,
            rect.y + rect.height <= size.height,
            rect.height > 0,
            bh >= 1,
    ;
    lemma_mul_le(first, total, row);
    lemma_mul_le(end, total, row);
    lemma_mul_le(end - first, total, row);
    lemma_mul_le(0, first, row);
    lemma_mul_le(0, end - first, row);
    assert(first * row + (end - first) * row == end * row) by (nonlinear_arith);
    assert(row * total == total * row) by (nonlinear_arith);
}

/// A block of a part of the encoded bytes is the block of the encoded bytes
/// at its place.
proof fn lemma_block_of_part(encoded: Seq<u8>, skip: int, len: int, inner: int, bytes: int)
    requires
        0 <= skip,
        0 <= inner,
        0 <= bytes,
        inner + bytes <= len,
        skip + len <= encoded.len(),
    ensures
        encoded.subrange(skip, skip + len).subrange(inner, inner + bytes) == encoded.subrange(
            skip + inner,
            skip + inner + bytes,
        ),
{
    assert(encoded.subrange(skip, skip + len).subrange(inner, inner + bytes) =~= encoded.subrange(
        skip + inner,
        skip + inner + bytes,
    ));
}

/// A format with a pixel processor has blocks of one row of pixels.
proof fn lemma_plain_shape(format: Format)
    requires
        format.is_plain(),
    ensures
        format.block_shape().height == 1,
        format.block_shape().width >= 1,
        format.block_shape().bytes >= 1,
{
}

/// Where the block `bx` of the row `y` of a part lies that starts with the
/// row `first` of a surface.
proof fn lemma_plain_block(first: int, end: int, y: int, row: int, bx: int, bytes: int)
    requires
        0 <= first,
        0 <= y < end - first,
        0 <= bx,
        0 <= bytes,
        (bx + 1) * bytes <= row,
    ensures
        0 <= y * row + bx * bytes,
        y * row + bx * bytes + bytes <= (end - first) * row,
        (first + y) * row + bx * bytes == first * row + (y * row + bx * bytes),
        (first + y) * row + (bx + 1) * bytes == first * row + (y * row + bx * bytes) + bytes,
{
    assert(0 <= row) by (nonlinear_arith)
        requires
            (bx + 1) * bytes <= row,
            0 <= bx,
            0 <= bytes,
    ;
    assert((bx + 1) * bytes == bx * bytes + bytes) by (nonlinear_arith);
    assert(0 <= bx * bytes) by (nonlinear_arith)
        requires
            0 <= bx,
            0 <= bytes,
    ;
    assert(0 <= y * row) by (nonlinear_arith)
        requires
            0 <= y,
            0 <= row,
    ;
    assert((y + 1) * row <= (end - first) * row) by (nonlinear_arith)
        requires
            y + 1 <= end - first,
            0 <= row,
    ;
    assert((y + 1) * row == y * row + row) by (nonlinear_arith);
    assert((first + y) * row == first * row + y * row) by (nonlinear_arith);
}

/// Two surfaces of a format with a pixel processor that hold the same bytes
/// in the block of a pixel give the same pixel.
proof fn lemma_plain_pixels_agree(
    pf: ProcessPixelsFn,
    to: Channels,
    part: Seq<u8>,
    part_size: Size,
    part_y: int,
    encoded: Seq<u8>,
    size: Size,
    y: int,
    x: int,
    row: int,
    bx: int,
    bytes: int,
)
    requires
        pf.format.is_plain(),
        part_size.width == size.width,
        row == row_bytes(pf.format, size.width as nat),
        bx == x / (pf.format.block_shape().width as int),
        bytes == pf.format.block_shape().bytes,
        part.subrange(part_y * row + bx * bytes, part_y * row + (bx + 1) * bytes)
            == encoded.subrange(y * row + bx * bytes, y * row + (bx + 1) * bytes),
    ensures
        surface_pixel(pf, to, part, part_size, x, part_y) == surface_pixel(
            pf,
            to,
            encoded,
            size,
            x,
            y,
        ),
{
    crate::decode::surface::lemma_plain_is_not_bcn(pf.format);
    reveal(surface_pixel);
}

/// What a pixel of a block-compressed surface is.
proof fn lemma_block_surface_pixel(
    pf: ProcessPixelsFn,
    to: Channels,
    encoded: Seq<u8>,
    size: Size,
    x: int,
    y: int,
    start: int,
)
    requires
        pf.format.is_bcn(),
        start == block_start(pf.format, size, x, y),
    ensures
        surface_pixel(pf, to, encoded, size, x, y) == crate::decode::adapt::adapted_pixel(
            pf.format.channels_spec(),
            to,
            pf.precision,
            crate::decode::block_surface::texel_bytes(
                pf.format,
                pf.precision,
                encoded.subrange(start, start + pf.format.block_shape().bytes),
                ((y % 4) * 4 + x % 4) as nat,
            ),
        ),
{
    reveal(surface_pixel);
}

/// A part of the rows of a surface of a format with a pixel processor holds
/// the pixels of its rows as the whole surface does.
proof fn lemma_plain_part(
    pf: ProcessPixelsFn,
    to: Channels,
    encoded: Seq<u8>,
    size: Size,
    part_size: Size,
    skip: int,
    len: int,
    first: int,
    end: int,
    x: int,
    y: int,
)
    requires
        pf.format.is_plain(),
        part_size.width == size.width,
        0 <= first,
        skip == first * row_bytes(pf.format, size.width as nat),
        len == (end - first) * row_bytes(pf.format, size.width as nat),
        skip + len <= encoded.len(),
        0 <= x < size.width,
        0 <= y < end - first,
    ensures
        surface_pixel(pf, to, encoded.subrange(skip, skip + len), part_size, x, y)
            == surface_pixel(pf, to, encoded, size, x, first + y),
{
    let format = pf.format;
    let bytes = format.block_shape().bytes as int;
    let bw = format.block_shape().width as int;
    let row = row_bytes(format, size.width as nat) as int;
    let bx = x / bw;
    lemma_block_in_run(format, size.width as nat, x as nat);
    lemma_plain_block(first, end, y, row, bx, bytes);
    let inner = y * row + bx * bytes;
    assert(0 <= skip) by (nonlinear_arith)
        requires
            skip == first * row,
            0 <= first,
            0 <= row,
    ;
    let part = encoded.subrange(skip, skip + len);
    lemma_block_of_part(encoded, skip, len, inner, bytes);
    assert((first + y) * row + bx * bytes == skip + inner);
    assert((first + y) * row + (bx + 1) * bytes == skip + inner + bytes);
    assert(y * row + (bx + 1) * bytes == inner + bytes);
    lemma_plain_pixels_agree(pf, to, part, part_size, y, encoded, size, first + y, x, row, bx, bytes);
}

/// The part that a read plan names holds the pixels of its rows as the
/// whole surface does: a pixel decoded from the part alone is the pixel of
/// the surface that lies `first_row` rows further down. This is the case of
/// the formats with a pixel processor.
proof fn lemma_plan_keeps_plain_pixels(
    pf: ProcessPixelsFn,
    to: Channels,
    encoded: Seq<u8>,
    size: Size,
    rect: Rect,
    x: int,
    y: int,
)
    requires
        pf.format.is_plain(),
        rect.within(size),
        rect.height > 0,
        plain_surface_bytes(pf.format, size) <= encoded.len(),
        encoded.len() <= u64::MAX,
        0 <= x < size.width,
        0 <= y < read_plan(pf.format, size, rect).size.height,
    ensures
        surface_pixel(
            pf,
            to,
            encoded.subrange(
                read_plan(pf.format, size, rect).skip as int,
                read_plan(pf.format, size, rect).skip + read_plan(pf.format, size, rect).len,
            ),
            read_plan(pf.format, size, rect).size,
            x,
            y,
        ) == surface_pixel(pf, to, encoded, size, x, first_row(pf.format, rect) + y),
{
    let format = pf.format;
    let plan = read_plan(format, size, rect);
    let row = block_row_bytes(format, size) as int;
    let (first, end, total) = plan_rows(1, rect.y as int, rect.height as int, size.height as int);
    lemma_plain_shape(format);
    assert(row * size.height == total * row) by (nonlinear_arith)
        requires
            total == size.height,
    ;
    lemma_plan_fields(format, size, rect);
    assert(first == rect.y && end == rect.y + rect.height && total == size.height);
    let bh = format.block_shape().height as int;
    assert(first * bh == first && end * bh == end) by (nonlinear_arith)
        requires
            bh == 1,
    ;
    lemma_plain_part(
        pf,
        to,
        encoded,
        size,
        plan.size,
        plan.skip as int,
        plan.len as int,
        first,
        end,
        x,
        y,
    );
}

/// The same for the block-compressed formats.
proof fn lemma_plan_keeps_block_pixels(
    pf: ProcessPixelsFn,
    to: Channels,
    encoded: Seq<u8>,
    size: Size,
    rect: Rect,
    x: int,
    y: int,
)
    requires
        pf.format.is_bcn(),
        rect.within(size),
        rect.height > 0,
        block_surface_bytes(pf.format, size) <= encoded.len(),
        encoded.len() <= u64::MAX,
        0 <= x < size.width,
        0 <= y < read_plan(pf.format, size, rect).size.height,
    ensures
        surface_pixel(
            pf,
            to,
            encoded.subrange(
                read_plan(pf.format, size, rect).skip as int,
                read_plan(pf.format, size, rect).skip + read_plan(pf.format, size, rect).len,
            ),
            read_plan(pf.format, size, rect).size,
            x,
            y,
        ) == surface_pixel(pf, to, encoded, size, x, first_row(pf.format, rect) + y),
{
    let format = pf.format;
    let plan = read_plan(format, size, rect);
    let bytes = format.block_shape().bytes as int;
    let per_row = run_blocks(format, size.width as nat) as int;
    let row = block_row_bytes(format, size) as int;
    let (first, end, total) = plan_rows(4, rect.y as int, rect.height as int, size.height as int);
    assert(format.block_shape().height == 4 && format.block_shape().width == 4);
    assert(run_blocks(format, size.width as nat) * block_rows(size.height as nat) * (
    bytes as nat) == total * row) by (nonlinear_arith)
        requires
            block_rows(size.height as nat) == total,
            row == run_blocks(format, size.width as nat) * (bytes as nat),
    ;
    assert(row * total == total * row) by (nonlinear_arith);
    lemma_plan_fields(format, size, rect);
    lemma_plan_rows(4, rect.y as int, rect.height as int, size.height as int, y);
    let by = y / 4;
    let bx = x / 4;
    lemma_mul_succ(by, row);
    lemma_mul_le(by + 1, end - first, row);
    lemma_mul_le(0, by, row);
    lemma_block_in_run(format, size.width as nat, x as nat);
    lemma_mul_succ(bx, bytes);
    lemma_mul_le(0, bx, bytes);
    let inner = block_start(format, plan.size, x, y);
    let outer = block_start(format, size, x, first * 4 + y);
    assert(inner == by * row + bx * bytes) by (nonlinear_arith)
        requires
            inner == (by * per_row + bx) * bytes,
            row == per_row * bytes,
    ;
    assert(outer == first * row + inner) by (nonlinear_arith)
        requires
            inner == (by * per_row + bx) * bytes,
            outer == ((first + by) * per_row + bx) * bytes,
            row == per_row * bytes,
    ;
    let part = encoded.subrange(plan.skip as int, plan.skip + plan.len);
    lemma_block_of_part(encoded, plan.skip as int, plan.len as int, inner, bytes);
    lemma_block_surface_pixel(pf, to, part, plan.size, x, y, inner);
    lemma_block_surface_pixel(pf, to, encoded, size, x, first * 4 + y, outer);
}

/// The part that a read plan names holds the pixels of its rows as the
/// whole surface does: a pixel decoded from the part alone is the pixel of
/// the surface that lies `first_row` rows further down.
pub proof fn lemma_plan_keeps_pixels(
    pf: ProcessPixelsFn,
    to: Channels,
    encoded: Seq<u8>,
    size: Size,
    rect: Rect,
    x: int,
    y: int,
)
    requires
        pf.format.is_plain() || pf.format.is_bcn(),
        rect.within(size),
        rect.height > 0,
        surface_bytes(pf.format, size) <= encoded.len(),
        encoded.len() <= u64::MAX,
        0 <= x < size.width,
        0 <= y < read_plan(pf.format, size, rect).size.height,
    ensures
        surface_pixel(
            pf,
            to,
            encoded.subrange(
                read_plan(pf.format, size, rect).skip as int,
                read_plan(pf.format, size, rect).skip + read_plan(pf.format, size, rect).len,
            ),
            read_plan(pf.format, size, rect).size,
            x,
            y,
        ) == surface_pixel(pf, to, encoded, size, x, first_row(pf.format, rect) + y),
{
    if pf.format.is_bcn() {
        lemma_plan_keeps_block_pixels(pf, to, encoded, size, rect, x, y);
    } else {
        crate::decode::surface::lemma_plain_is_not_bcn(pf.format);
        lemma_plan_keeps_plain_pixels(pf, to, encoded, size, rect, x, y);
    }
}

/// The parts of the rows of an encoded surface to read for a rectangle, in
/// a format whose blocks are one row of pixels high: of every row of the
/// rectangle, the blocks that hold its pixels.
#[derive(Debug, Clone, Copy, PartialEq, Eq, Structural)]
pub struct RowPlan {
    /// Bytes of the surface in front of the part of the first row.
    pub lead: u64,
    /// Bytes of the part of one row.
    pub len: u64,
    /// Bytes between the parts of two rows.
    pub gap: u64,
    /// Number of rows.
    pub rows: u32,
    /// Bytes of the surface behind the part of the last row.
    pub rest: u64,
    /// The size of the surface that the parts are, one after the other.
    pub size: Size,
    /// The rectangle within that surface.
    pub rect: Rect,
}

/// The first column of the blocks that hold a rectangle.
pub open spec fn first_column(format: Format, rect: Rect) -> nat {
    let bw = format.block_shape().width as nat;
    (rect.x as nat / bw) * bw
}

/// The parts of the rows of an encoded surface that hold a rectangle.
pub open spec fn row_plan(format: Format, size: Size, rect: Rect) -> RowPlan {
    let bw = format.block_shape().width as nat;
    let bytes = format.block_shape().bytes as nat;
    let pitch = run_bytes(format, size.width as nat);
    let first = rect.x as nat / bw;
    let end = (rect.x + rect.width + bw - 1) as nat / bw;
    let end_column = if end * bw > size.width {
        size.width as nat
    } else {
        end * bw
    };
    let len = (end - first) * bytes;
    RowPlan {
        lead: (rect.y * pitch + first * bytes) as u64,
        len: len as u64,
        gap: (pitch - len) as u64,
        rows: rect.height,
        rest: ((size.height - rect.y - rect.height) * pitch + (pitch - first * bytes - len)) as u64,
        size: Size { width: (end_column - first * bw) as u32, height: rect.height },
        rect: Rect {
            x: (rect.x - first * bw) as u32,
            y: 0,
            width: rect.width,
            height: rect.height,
        },
    }
}

/// Whether a rectangle of a surface has a plan by rows: the blocks of the
/// format are one row high, the rectangle holds a pixel and lies within
/// the surface, and the length of the encoded surface is a number of 64
/// bits.
pub open spec fn has_row_plan(format: Format, size: Size, rect: Rect) -> bool {
    &&& format.is_plain()
    &&& rect.within(size)
    &&& rect.width > 0
    &&& rect.height > 0
    &&& run_bytes(format, size.width as nat) * size.height <= u64::MAX
}

/// What a plan by rows holds, in numbers: `first` is the first block of a
/// row that is read and `end` the block behind the last.
proof fn lemma_row_plan_numbers(bw: int, x0: int, width: int, surface_width: int)
    requires
        bw >= 1,
        0 <= x0,
        width > 0,
        x0 + width <= surface_width,
    ensures
        ({
            let first = x0 / bw;
            let end = (x0 + width + bw - 1) / bw;
            let blocks = (surface_width + bw - 1) / bw;
            let end_column = if end * bw > surface_width {
                surface_width
            } else {
                end * bw
            };
            &&& 0 <= first < end <= blocks
            &&& first * bw <= x0
            &&& x0 + width <= end_column <= surface_width
            &&& end * bw <= surface_width + bw - 1
            &&& (end_column - first * bw + bw - 1) / bw == end - first
        }),
{
    let first = x0 / bw;
    let end = (x0 + width + bw - 1) / bw;
    let blocks = (surface_width + bw - 1) / bw;
    lemma_fundamental_div_mod(x0, bw);
    lemma_fundamental_div_mod(x0 + width + bw - 1, bw);
    lemma_fundamental_div_mod(surface_width + bw - 1, bw);
    let r1 = (x0 + width + bw - 1) % bw;
    let r2 = (surface_width + bw - 1) % bw;
    assert(0 <= first < end <= blocks && first * bw <= x0 && end * bw >= x0 + width)
        by (nonlinear_arith)
        requires
            x0 == bw * first + x0 % bw,
            0 <= x0 % bw < bw,
            x0 + width + bw - 1 == bw * end + r1,
            0 <= r1 < bw,
            surface_width + bw - 1 == bw * blocks + r2,
            0 <= r2 < bw,
            x0 + width <= surface_width,
            width > 0,
            0 <= x0,
            bw >= 1,
    ;
    assert(end * bw == bw * end && first * bw == bw * first && blocks * bw == bw * blocks)
        by (nonlinear_arith);
    assert(bw * end <= bw * blocks) by (nonlinear_arith)
        requires
            end <= blocks,
            bw >= 1,
    ;
    assert((end - first) * bw == end * bw - first * bw) by (nonlinear_arith);
    if end * bw > surface_width {
        // the last block of the row is not full
        assert(end == blocks) by (nonlinear_arith)
            requires
                end <= blocks,
                end * bw > surface_width,
                surface_width + bw - 1 == bw * blocks + r2,
                0 <= r2,
                bw >= 1,
        ;
        lemma_fundamental_div_mod_converse(
            surface_width - first * bw + bw - 1,
            bw,
            end - first,
            r2,
        );
    } else {
        lemma_fundamental_div_mod_converse(
            end * bw - first * bw + bw - 1,
            bw,
            end - first,
            bw - 1,
        );
    }
}

/// The plan by rows of a rectangle that has one.
pub fn checked_row_plan(format: Format, size: Size, rect: Rect) -> (r: Option<RowPlan>)
    ensures
        r == if has_row_plan(format, size, rect) {
            Some(row_plan(format, size, rect))
        } else {
            None
        },
        r matches Some(plan) ==> plan.rect.within(plan.size) && plan.rows * plan.len
            <= u64::MAX && plan.lead + plan.rows * plan.len + (plan.rows - 1) * plan.gap
            + plan.rest == run_bytes(format, size.width as nat) * size.height && plan.len
            == run_bytes(format, plan.size.width as nat),
{
    if !format.has_processor() || !rect.is_within_bounds(size) || rect.width == 0 || rect.height
        == 0 {
        return None;
    }
    let shape = format.block_shape_of();
    let bw: u64 = shape.width as u64;
    let bytes: u64 = shape.bytes as u64;
    let pitch: u64 = encoded_row_bytes(format, size.width);
    proof {
        lemma_plain_shape(format);
        assert(pitch * size.height <= 0xFFFF_FFFF * 255 * 0xFFFF_FFFF) by (nonlinear_arith)
            requires
                pitch <= 0xFFFF_FFFF * 255,
                size.height <= 0xFFFF_FFFF,
        ;
    }
    let total: u128 = pitch as u128 * size.height as u128;
    if total > u64::MAX as u128 {
        return None;
    }
    let first: u64 = rect.x as u64 / bw;
    let end: u64 = (rect.x as u64 + rect.width as u64 + bw - 1) / bw;
    proof {
        lemma_row_plan_numbers(bw as int, rect.x as int, rect.width as int, size.width as int);
        let blocks = run_blocks(format, size.width as nat) as int;
        assert(pitch == blocks * bytes);
        lemma_mul_le(end as int, blocks, bytes as int);
        lemma_mul_le(first as int, end as int, bytes as int);
        lemma_mul_le(0, first as int, bytes as int);
        assert((end - first) * bytes == end * bytes - first * bytes) by (nonlinear_arith);
        assert(pitch * rect.y + pitch * rect.height + pitch * (size.height - rect.y - rect.height)
            == pitch * size.height) by (nonlinear_arith);
        assert(pitch * rect.y == rect.y * pitch) by (nonlinear_arith);
        assert(pitch * (size.height - rect.y - rect.height) == (size.height - rect.y
            - rect.height) * pitch) by (nonlinear_arith);
        lemma_mul_le(0, rect.y as int, pitch as int);
        lemma_mul_le(0, size.height - rect.y - rect.height, pitch as int);
        lemma_mul_le(1, rect.height as int, pitch as int);
        assert(pitch * rect.height == rect.height * pitch) by (nonlinear_arith);
        assert(end * bw <= 0xFFFF_FFFF + 255);
        lemma_mul_le(0, first as int, bw as int);
        let len = (end - first) * bytes;
        assert(rect.height * len <= rect.height * pitch) by (nonlinear_arith)
            requires
                len <= pitch,
                rect.height >= 0,
        ;
        assert((rect.height - 1) * (pitch - len) == rect.height * pitch - pitch - rect.height
            * len + len) by (nonlinear_arith);
    }
    let len: u64 = (end - first) * bytes;
    let end_column: u64 = if end * bw > size.width as u64 {
        size.width as u64
    } else {
        end * bw
    };
    let behind: u64 = (size.height as u64 - rect.y as u64 - rect.height as u64) * pitch;
    let plan = RowPlan {
        lead: rect.y as u64 * pitch + first * bytes,
        len,
        gap: pitch - len,
        rows: rect.height,
        rest: behind + (pitch - first * bytes - len),
        size: Size { width: (end_column - first * bw) as u32, height: rect.height },
        rect: Rect {
            x: (rect.x as u64 - first * bw) as u32,
            y: 0,
            width: rect.width,
            height: rect.height,
        },
    };
    proof {
        lemma_run_of_width(format, plan.size.width as nat, (end - first) as nat);
    }
    Some(plan)
}

/// A run of pixels that takes a number of blocks has the bytes of these
/// blocks.
proof fn lemma_run_of_width(format: Format, width: nat, blocks: nat)
    requires
        (width + format.block_shape().width - 1) as nat / (format.block_shape().width as nat)
            == blocks,
    ensures
        run_bytes(format, width) == blocks * format.block_shape().bytes,
{
}

/// The bytes that a plan by rows names, one row after the other.
pub open spec fn gathered(encoded: Seq<u8>, plan: RowPlan) -> Seq<u8> {
    Seq::new(
        (plan.rows * plan.len) as nat,
        |i: int| encoded[plan.lead + (i / (plan.len as int)) * (plan.len + plan.gap) + i % (plan.len as int)],
    )
}

/// A stretch of bytes within a row of the gathered bytes is a stretch of
/// the encoded bytes.
proof fn lemma_gathered_stretch(encoded: Seq<u8>, plan: RowPlan, y: int, at: int, n: int)
    requires
        0 <= y < plan.rows,
        0 <= at,
        0 <= n,
        at + n <= plan.len,
        plan.lead + plan.rows * (plan.len + plan.gap) <= encoded.len() + plan.gap,
    ensures
        gathered(encoded, plan).subrange(y * plan.len + at, y * plan.len + at + n)
            == encoded.subrange(
            plan.lead + y * (plan.len + plan.gap) + at,
            plan.lead + y * (plan.len + plan.gap) + at + n,
        ),
{
    let len = plan.len as int;
    let pitch = plan.len + plan.gap;
    lemma_mul_succ(y, len);
    lemma_mul_le(y + 1, plan.rows as int, len);
    lemma_mul_le(0, y, len);
    lemma_mul_succ(y, pitch);
    lemma_mul_le(y + 1, plan.rows as int, pitch);
    lemma_mul_le(0, y, pitch);
    let a = gathered(encoded, plan).subrange(y * len + at, y * len + at + n);
    let b = encoded.subrange(plan.lead + y * pitch + at, plan.lead + y * pitch + at + n);
    assert forall|j: int| 0 <= j < n implies a[j] == b[j] by {
        let i = y * len + at + j;
        lemma_fundamental_div_mod_converse(i, len, y, at + j);
    }
    assert(a =~= b);
}

/// What a pixel of a surface of a format with a pixel processor is: a
/// pixel of the run that is its row.
proof fn lemma_plain_pixel_of_run(
    pf: ProcessPixelsFn,
    to: Channels,
    encoded: Seq<u8>,
    size: Size,
    x: int,
    y: int,
)
    requires
        pf.format.is_plain(),
    ensures
        surface_pixel(pf, to, encoded, size, x, y) == crate::decode::adapt::adapted_pixel(
            pf.format.channels_spec(),
            to,
            pf.precision,
            crate::decode::read_write::encoded_pixel(
                pf,
                encoded,
                y * row_bytes(pf.format, size.width as nat),
                x,
            ),
        ),
{
    crate::decode::surface::lemma_plain_is_not_bcn(pf.format);
    reveal(surface_pixel);
}

/// What a plan by rows holds, in numbers.
proof fn lemma_row_plan_fields(format: Format, size: Size, rect: Rect)
    requires
        has_row_plan(format, size, rect),
    ensures
        ({
            let bw = format.block_shape().width as int;
            let bytes = format.block_shape().bytes as int;
            let pitch = run_bytes(format, size.width as nat) as int;
            let first = rect.x as int / bw;
            let end = (rect.x + rect.width + bw - 1) / bw;
            let plan = row_plan(format, size, rect);
            &&& 0 <= first < end
            &&& first_column(format, rect) == first * bw
            &&& first * bw + plan.size.width <= size.width
            &&& plan.len == (end - first) * bytes
            &&& plan.len == run_bytes(format, plan.size.width as nat)
            &&& plan.len + plan.gap == pitch
            &&& plan.lead == rect.y * pitch + first * bytes
            &&& plan.rows == rect.height
            &&& plan.size.height == rect.height
            &&& plan.lead + plan.rows * pitch <= pitch * size.height + plan.gap
        }),
{
    let bw = format.block_shape().width as int;
    let bytes = format.block_shape().bytes as int;
    let pitch = run_bytes(format, size.width as nat) as int;
    let first = rect.x as int / bw;
    let end = (rect.x + rect.width + bw - 1) / bw;
    let len = (end - first) * bytes;
    lemma_plain_shape(format);
    lemma_row_plan_numbers(bw, rect.x as int, rect.width as int, size.width as int);
    let blocks = run_blocks(format, size.width as nat) as int;
    lemma_mul_le(end, blocks, bytes);
    lemma_mul_le(first, end, bytes);
    lemma_mul_le(0, first, bytes);
    assert((end - first) * bytes == end * bytes - first * bytes) by (nonlinear_arith);
    lemma_mul_le(0, rect.y as int, pitch);
    lemma_mul_le(rect.y + rect.height, size.height as int, pitch);
    assert((rect.y + rect.height) * pitch == rect.y * pitch + rect.height * pitch)
        by (nonlinear_arith);
    assert(pitch * size.height == size.height * pitch) by (nonlinear_arith);
    lemma_mul_le(1, rect.height as int, pitch);
    lemma_mul_le(0, first, bw);
    let end_column = if end * bw > size.width {
        size.width as int
    } else {
        end * bw
    };
    lemma_run_of_width(format, (end_column - first * bw) as nat, (end - first) as nat);
}

/// A pixel decoded from the gathered bytes of rows is the pixel of the
/// surface at its place: `first` is the first block of a row that is
/// gathered, and `top` the first row.
proof fn lemma_row_part(
    pf: ProcessPixelsFn,
    to: Channels,
    encoded: Seq<u8>,
    size: Size,
    plan: RowPlan,
    first: int,
    top: int,
    x: int,
    y: int,
)
    requires
        pf.format.is_plain(),
        0 <= first,
        0 <= top,
        plan.len == run_bytes(pf.format, plan.size.width as nat),
        plan.len + plan.gap == run_bytes(pf.format, size.width as nat),
        plan.lead == top * run_bytes(pf.format, size.width as nat) + first * pf.format.block_shape().bytes,
        plan.lead + plan.rows * (plan.len + plan.gap) <= encoded.len() + plan.gap,
        0 <= x < plan.size.width,
        0 <= y < plan.rows,
    ensures
        surface_pixel(pf, to, gathered(encoded, plan), plan.size, x, y) == surface_pixel(
            pf,
            to,
            encoded,
            size,
            first * pf.format.block_shape().width + x,
            top + y,
        ),
{
    let format = pf.format;
    let bw = format.block_shape().width as int;
    let bytes = format.block_shape().bytes as int;
    let pitch = run_bytes(format, size.width as nat) as int;
    lemma_plain_shape(format);
    // the block of the pixel within its row of the gathered bytes
    let bx = x / bw;
    lemma_block_in_run(format, plan.size.width as nat, x as nat);
    lemma_mul_succ(bx, bytes);
    lemma_gathered_stretch(encoded, plan, y, bx * bytes, bytes);
    // the same block within its row of the surface
    lemma_sub_run(pf, encoded, (top + y) * pitch, first, x);
    assert((top + y) * pitch == top * pitch + y * pitch) by (nonlinear_arith);
    lemma_plain_pixel_of_run(pf, to, gathered(encoded, plan), plan.size, x, y);
    lemma_plain_pixel_of_run(pf, to, encoded, size, first * bw + x, top + y);
    assert(y * (plan.len + plan.gap) == y * pitch);
}

/// The bytes that a plan by rows names hold the pixels of their blocks as
/// the whole surface does: a pixel decoded from the gathered bytes alone is
/// the pixel of the surface that lies `first_column` columns further right
/// and `rect.y` rows further down.
pub proof fn lemma_row_plan_keeps_pixels(
    pf: ProcessPixelsFn,
    to: Channels,
    encoded: Seq<u8>,
    size: Size,
    rect: Rect,
    x: int,
    y: int,
)
    requires
        has_row_plan(pf.format, size, rect),
        run_bytes(pf.format, size.width as nat) * size.height <= encoded.len(),
        0 <= x < row_plan(pf.format, size, rect).size.width,
        0 <= y < rect.height,
    ensures
        surface_pixel(
            pf,
            to,
            gathered(encoded, row_plan(pf.format, size, rect)),
            row_plan(pf.format, size, rect).size,
            x,
            y,
        ) == surface_pixel(pf, to, encoded, size, first_column(pf.format, rect) + x, rect.y + y),
{
    let format = pf.format;
    let plan = row_plan(format, size, rect);
    let bw = format.block_shape().width as int;
    let first = rect.x as int / bw;
    lemma_row_plan_fields(format, size, rect);
    lemma_row_part(pf, to, encoded, size, plan, first, rect.y as int, x, y);
}

} // verus!
