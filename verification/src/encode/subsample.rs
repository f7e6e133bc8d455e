//! Encoders for the formats whose blocks hold more than one pixel of a
//! line, for pixels of every colour format.
//!
//! The pixels of a line are turned into red, green, blue and alpha as
//! single-precision numbers, and every block is made from the numbers of
//! its pixels. A block at the end of a line that the line does not fill is
//! filled up with the last pixel of the line.

use vstd::prelude::*;
use vstd::arithmetic::div_mod::{lemma_fundamental_div_mod, lemma_fundamental_div_mod_converse};
use crate::decode::convert::fp;
use crate::decode::read_write::{lemma_mul_le, lemma_mul_succ, lemma_pixels_step, pixel_at};
use crate::encode::mean::{rgbg, to_rgbg};
use crate::encode::uncompressed::append_bytes;
use crate::encode::universal::{convert_to_rgba_bits, holds_rgba, rgba_channel};
use crate::format::Format;
use crate::pixel::ColorFormat;

verus! {

impl Format {
    /// Whether the format has an encoder for every colour format that
    /// works block by block.
    pub open spec fn has_universal_subsample(self) -> bool {
        self == Format::R1_UNORM || self == Format::R8G8_B8G8_UNORM || self
            == Format::G8R8_G8B8_UNORM
    }

    /// Whether the format has an encoder for every colour format that
    /// works block by block.
    pub fn is_universal_subsample(self) -> (b: bool)
        ensures
            b == self.has_universal_subsample(),
    {
        matches!(self, Format::R1_UNORM | Format::R8G8_B8G8_UNORM | Format::G8R8_G8B8_UNORM)
    }
}

/// The byte of eight pixels of one bit each, the first pixel in the
/// highest bit. The bit of a pixel is its red, rounded to 0 or 1.
pub open spec fn r1_byte(rgba: Seq<u32>) -> u8 {
    (fp::unorm_spec(rgba[0], 1) * 128 + fp::unorm_spec(rgba[4], 1) * 64 + fp::unorm_spec(
        rgba[8],
        1,
    ) * 32 + fp::unorm_spec(rgba[12], 1) * 16 + fp::unorm_spec(rgba[16], 1) * 8 + fp::unorm_spec(
        rgba[20],
        1,
    ) * 4 + fp::unorm_spec(rgba[24], 1) * 2 + fp::unorm_spec(rgba[28], 1)) as u8
}

/// The encoded block of a format for the numbers of its pixels: red,
/// green, blue and alpha of the first pixel, then of the second, and so on.
pub open spec fn subsample_block(format: Format, rgba: Seq<u32>) -> Seq<u8> {
    match format {
        Format::R1_UNORM => seq![r1_byte(rgba)],
        Format::R8G8_B8G8_UNORM => rgbg(rgba),
        Format::G8R8_G8B8_UNORM => seq![rgbg(rgba)[1], rgbg(rgba)[0], rgbg(rgba)[3], rgbg(rgba)[2]],
        _ => Seq::empty(),
    }
}

/// Encodes the numbers of the pixels of one block at `at`.
pub fn encode_block(format: Format, rgba: &[u32; 32], out: &mut [u8], at: usize)
    requires
        format.has_universal_subsample(),
        at + format.block_shape().bytes <= old(out)@.len(),
    ensures
        final(out)@.len() == old(out)@.len(),
        forall|j: int|
            0 <= j < old(out)@.len() ==> #[trigger] final(out)@[j] == (if at <= j < at
                + format.block_shape().bytes {
                subsample_block(
                    format,
                    rgba@.subrange(0, 4 * format.block_shape().width),
                )[j - at]
            } else {
                old(out)@[j]
            }),
{
    let len: usize = out.len();
    match format {
        Format::R8G8_B8G8_UNORM => {
            let block = to_rgbg(rgba);
            out[at] = block[0];
            out[at + 1] = block[1];
            out[at + 2] = block[2];
            out[at + 3] = block[3];
            return ;
        },
        Format::G8R8_G8B8_UNORM => {
            let block = to_rgbg(rgba);
            out[at] = block[1];
            out[at + 1] = block[0];
            out[at + 2] = block[3];
            out[at + 3] = block[2];
            return ;
        },
        _ => {},
    }
    let b0 = fp::to_unorm(rgba[0], 1) as u8;
    let b1 = fp::to_unorm(rgba[4], 1) as u8;
    let b2 = fp::to_unorm(rgba[8], 1) as u8;
    let b3 = fp::to_unorm(rgba[12], 1) as u8;
    let b4 = fp::to_unorm(rgba[16], 1) as u8;
    let b5 = fp::to_unorm(rgba[20], 1) as u8;
    let b6 = fp::to_unorm(rgba[24], 1) as u8;
    let b7 = fp::to_unorm(rgba[28], 1) as u8;
    out[at] = b0 * 128 + b1 * 64 + b2 * 32 + b3 * 16 + b4 * 8 + b5 * 4 + b6 * 2 + b7;
}

/// The pixel of a line of `n` pixels that stands at place `k` of block `b`:
/// behind the end of the line, the last pixel of the line.
pub open spec fn block_source(n: int, bw: int, b: int, k: int) -> int {
    if b * bw + k < n {
        b * bw + k
    } else {
        n - 1
    }
}

/// The numbers of the pixels of block `b` of a line of `n` pixels.
pub open spec fn padded_block(numbers: Seq<u32>, n: int, bw: int, b: int) -> Seq<u32> {
    Seq::new((4 * bw) as nat, |i: int| numbers[4 * block_source(n, bw, b, i / 4) + i % 4])
}

/// Number of blocks of `bw` pixels that hold `n` pixels.
pub open spec fn block_count(n: int, bw: int) -> int {
    (n + bw - 1) / bw
}

/// No pixels take no blocks.
pub proof fn lemma_no_blocks(bw: int)
    requires
        bw >= 1,
    ensures
        block_count(0, bw) == 0,
{
    lemma_fundamental_div_mod_converse(bw - 1, bw, 0, bw - 1);
}

/// Number of blocks of `bw` pixels that hold `n` pixels.
fn blocks_of(n: usize, bw: usize) -> (blocks: usize)
    requires
        bw == 1 || bw == 2 || bw == 4 || bw == 8,
    ensures
        blocks == block_count(n as int, bw as int),
        blocks <= n,
        n <= blocks * bw,
        n >= 1 ==> (blocks - 1) * bw < n,
{
    let full: usize = n / bw;
    let rest: usize = n % bw;
    proof {
        lemma_fundamental_div_mod(n as int, bw as int);
        assert(full <= n) by (nonlinear_arith)
            requires
                n == bw * full + rest,
                bw >= 1,
                rest >= 0,
                full >= 0,
        ;
        assert(bw * (full + 1) == bw * full + bw) by (nonlinear_arith);
        assert(full * bw == bw * full) by (nonlinear_arith);
        assert((full + 1) * bw == bw * full + bw) by (nonlinear_arith);
        if rest == 0 {
            lemma_fundamental_div_mod_converse(n + bw - 1, bw as int, full as int, bw - 1);
            assert((full - 1) * bw == bw * full - bw) by (nonlinear_arith);
        } else {
            lemma_fundamental_div_mod_converse(n + bw - 1, bw as int, full + 1, rest - 1);
        }
    }
    if rest == 0 {
        full
    } else {
        full + 1
    }
}

/// Encodes the blocks of a line of `n` pixels, given as numbers, four to
/// the pixel. The last block is filled up with the last pixel.
pub fn process_subsample(format: Format, numbers: &[u32], n: usize, out: &mut [u8])
    requires
        format.has_universal_subsample(),
        1 <= n,
        4 * n <= numbers@.len(),
        block_count(n as int, format.block_shape().width as int) * format.block_shape().bytes
            <= old(out)@.len(),
    ensures
        final(out)@.len() == old(out)@.len(),
        forall|b: int|
            0 <= b < block_count(n as int, format.block_shape().width as int)
                ==> #[trigger] pixel_at(final(out)@, 0, format.block_shape().bytes as int, b)
                == subsample_block(
                format,
                padded_block(numbers@, n as int, format.block_shape().width as int, b),
            ),
{
    let shape = format.block_shape_of();
    let bw: usize = shape.width as usize;
    let bytes: usize = shape.bytes as usize;
    let len: usize = out.len();
    let count: usize = numbers.len();
    let blocks: usize = blocks_of(n, bw);
    let mut b: usize = 0;
    while b < blocks
        invariant
            b <= blocks,
            format.has_universal_subsample(),
            bw == format.block_shape().width,
            bytes == format.block_shape().bytes,
            bw == 1 || bw == 2 || bw == 4 || bw == 8,
            blocks == block_count(n as int, bw as int),
            blocks <= n,
            (blocks - 1) * bw < n,
            1 <= n,
            4 * n <= count,
            count == numbers@.len(),
            blocks * bytes <= len,
            len == out@.len(),
            len == old(out)@.len(),
            forall|i: int|
                0 <= i < b ==> #[trigger] pixel_at(out@, 0, bytes as int, i) == subsample_block(
                    format,
                    padded_block(numbers@, n as int, bw as int, i),
                ),
            forall|j: int| b * bytes <= j < len ==> #[trigger] out@[j] == old(out)@[j],
        decreases blocks - b,
    {
        proof {
            lemma_mul_succ(b as int, bytes as int);
            lemma_mul_le(b + 1, blocks as int, bytes as int);
            lemma_mul_le(0, b as int, bytes as int);
            lemma_mul_le(b as int, blocks - 1, bw as int);
            lemma_mul_le(0, b as int, bw as int);
        }
        let block = gather(numbers, n, bw, b);
        let ghost before = out@;
        encode_block(format, &block, out, b * bytes);
        proof {
            let pixel = subsample_block(format, padded_block(numbers@, n as int, bw as int, b as int));
            assert(pixel.len() == bytes);
            lemma_pixels_step(pixel, old(out)@, before, out@, 0, bytes as int, b as int);
        }
        b = b + 1;
    }
}

/// The numbers of the pixels of block `b` of a line of `n` pixels, at the
/// start of an array that has room for the widest block.
fn gather(numbers: &[u32], n: usize, bw: usize, b: usize) -> (block: [u32; 32])
    requires
        bw == 1 || bw == 2 || bw == 4 || bw == 8,
        1 <= n,
        4 * n <= numbers@.len(),
        b * bw < n,
    ensures
        block@.subrange(0, 4 * bw) == padded_block(numbers@, n as int, bw as int, b as int),
{
    let count: usize = numbers.len();
    let mut block: [u32; 32] = [0u32; 32];
    let mut k: usize = 0;
    while k < bw
        invariant
            k <= bw,
            bw == 1 || bw == 2 || bw == 4 || bw == 8,
            1 <= n,
            4 * n <= count,
            count == numbers@.len(),
            b * bw < n,
            forall|i: int|
                0 <= i < 4 * k ==> #[trigger] block@[i] == numbers@[4 * block_source(
                    n as int,
                    bw as int,
                    b as int,
                    i / 4,
                ) + i % 4],
        decreases bw - k,
    {
        let x: usize = if b * bw + k < n {
            b * bw + k
        } else {
            n - 1
        };
        block[4 * k] = numbers[4 * x];
        block[4 * k + 1] = numbers[4 * x + 1];
        block[4 * k + 2] = numbers[4 * x + 2];
        block[4 * k + 3] = numbers[4 * x + 3];
        k = k + 1;
    }
    assert(block@.subrange(0, 4 * bw) =~= padded_block(numbers@, n as int, bw as int, b as int));
    block
}

/// The numbers of the pixels of block `b` of the line of `width` pixels
/// that starts at pixel `first` of the data.
pub open spec fn line_block(
    color: ColorFormat,
    data: Seq<u8>,
    first: int,
    width: int,
    bw: int,
    b: int,
) -> Seq<u32> {
    Seq::new(
        (4 * bw) as nat,
        |i: int|
            rgba_channel(
                color,
                pixel_at(data, 0, color.bpp() as int, first + block_source(width, bw, b, i / 4)),
                i % 4,
            ),
    )
}

/// Block `g` of an encoded surface whose lines have `width` pixels, counted
/// line by line.
pub open spec fn surface_block(format: Format, color: ColorFormat, data: Seq<u8>, width: int, g: int) -> Seq<
    u8,
> {
    let bw = format.block_shape().width as int;
    let per_row = block_count(width, bw);
    subsample_block(format, line_block(color, data, (g / per_row) * width, width, bw, g % per_row))
}

/// What encoding appends to the output: the first `count` blocks of the
/// surface, one after the other, behind what the output held.
pub open spec fn blocks_appended(
    format: Format,
    color: ColorFormat,
    data: Seq<u8>,
    width: int,
    before: Seq<u8>,
    after: Seq<u8>,
    count: int,
) -> bool {
    let bytes = format.block_shape().bytes as int;
    &&& after.len() == before.len() + count * bytes
    &&& after.subrange(0, before.len() as int) == before
    &&& forall|g: int|
        0 <= g < count ==> #[trigger] pixel_at(after, before.len() as int, bytes, g)
            == surface_block(format, color, data, width, g)
}

/// Where a pixel of a block of a chunk of a line stands in the line: the
/// chunk starts with a block and either ends with one or ends the line.
proof fn lemma_chunk_source(width: int, bw: int, done: int, n: int, first: int, j: int, k: int)
    requires
        bw >= 1,
        0 <= first,
        done == first * bw,
        1 <= n,
        done + n <= width,
        n % bw == 0 || done + n == width,
        0 <= j,
        j * bw < n,
        0 <= k < bw,
    ensures
        0 <= block_source(n, bw, j, k) < n,
        done + block_source(n, bw, j, k) == block_source(width, bw, first + j, k),
{
    assert((first + j) * bw == first * bw + j * bw) by (nonlinear_arith);
    assert(0 <= j * bw) by (nonlinear_arith)
        requires
            0 <= j,
            bw >= 1,
    ;
    if n % bw == 0 {
        lemma_fundamental_div_mod(n, bw);
        let q = n / bw;
        assert(j < q) by (nonlinear_arith)
            requires
                j * bw < n,
                n == bw * q,
                bw >= 1,
        ;
        assert(j * bw + bw <= n) by (nonlinear_arith)
            requires
                j + 1 <= q,
                n == bw * q,
                bw >= 1,
        ;
    }
}

/// The blocks of a chunk of a line are blocks of the line.
proof fn lemma_chunk_block(
    color: ColorFormat,
    data: Seq<u8>,
    line: Seq<u8>,
    numbers: Seq<u32>,
    width: int,
    bw: int,
    start: int,
    done: int,
    n: int,
    first: int,
    j: int,
)
    requires
        bw >= 1,
        0 <= first,
        0 <= start,
        done == first * bw,
        1 <= n,
        done + n <= width,
        n % bw == 0 || done + n == width,
        0 <= j,
        j * bw < n,
        (start + done + n) * color.bpp() <= data.len(),
        line == data.subrange((start + done) * color.bpp(), (start + done + n) * color.bpp()),
        holds_rgba(numbers, color, line, n),
    ensures
        padded_block(numbers, n, bw, j) == line_block(color, data, start, width, bw, first + j),
{
    let bpp = color.bpp() as int;
    let a = padded_block(numbers, n, bw, j);
    let b = line_block(color, data, start, width, bw, first + j);
    assert forall|i: int| 0 <= i < 4 * bw implies a[i] == b[i] by {
        let k = i / 4;
        let x = block_source(n, bw, j, k);
        lemma_chunk_source(width, bw, done, n, first, j, k);
        lemma_mul_succ(x, bpp);
        lemma_mul_le(x + 1, n, bpp);
        lemma_mul_le(0, x, bpp);
        assert((start + done + x) * bpp == (start + done) * bpp + x * bpp) by (nonlinear_arith);
        assert((start + done + x + 1) * bpp == (start + done) * bpp + (x + 1) * bpp)
            by (nonlinear_arith);
        assert((start + done + n) * bpp == (start + done) * bpp + n * bpp) by (nonlinear_arith);
        lemma_mul_le(0, start + done, bpp);
        assert(pixel_at(line, 0, bpp, x) =~= pixel_at(data, 0, bpp, start + done + x));
        assert(numbers[4 * x + i % 4] == rgba_channel(color, pixel_at(line, 0, bpp, x), i % 4));
    }
    assert(a =~= b);
}

/// Block `first + j` of line `y` is block `y * per_row + first + j` of the
/// surface.
proof fn lemma_block_of_line(y: int, per_row: int, b: int)
    requires
        0 <= y,
        0 <= b < per_row,
    ensures
        (y * per_row + b) / per_row == y,
        (y * per_row + b) % per_row == b,
{
    lemma_fundamental_div_mod_converse(y * per_row + b, per_row, y, b);
}

/// Blocks appended behind blocks: the blocks before stay, and the new
/// blocks follow them.
proof fn lemma_blocks_follow(
    before: Seq<u8>,
    buffer: Seq<u8>,
    after: Seq<u8>,
    start: int,
    bytes: int,
    count: int,
    m: int,
)
    requires
        0 <= start,
        0 <= bytes,
        0 <= count,
        0 <= m,
        before.len() == start + count * bytes,
        m * bytes <= buffer.len(),
        after == before + buffer.subrange(0, m * bytes),
    ensures
        after.len() == start + (count + m) * bytes,
        after.subrange(0, start) == before.subrange(0, start),
        forall|g: int|
            0 <= g < count ==> #[trigger] pixel_at(after, start, bytes, g) == pixel_at(
                before,
                start,
                bytes,
                g,
            ),
        forall|j: int|
            0 <= j < m ==> #[trigger] pixel_at(after, start, bytes, count + j) == pixel_at(
                buffer,
                0,
                bytes,
                j,
            ),
{
    assert((count + m) * bytes == count * bytes + m * bytes) by (nonlinear_arith);
    lemma_mul_le(0, count, bytes);
    lemma_mul_le(0, m, bytes);
    assert(after.subrange(0, start) =~= before.subrange(0, start));
    assert forall|g: int| 0 <= g < count implies #[trigger] pixel_at(after, start, bytes, g)
        == pixel_at(before, start, bytes, g) by {
        lemma_mul_succ(g, bytes);
        lemma_mul_le(g + 1, count, bytes);
        lemma_mul_le(0, g, bytes);
        assert(pixel_at(after, start, bytes, g) =~= pixel_at(before, start, bytes, g));
    }
    assert forall|j: int| 0 <= j < m implies #[trigger] pixel_at(after, start, bytes, count + j)
        == pixel_at(buffer, 0, bytes, j) by {
        lemma_mul_succ(j, bytes);
        lemma_mul_le(j + 1, m, bytes);
        lemma_mul_le(0, j, bytes);
        assert((count + j) * bytes == count * bytes + j * bytes) by (nonlinear_arith);
        assert((count + j + 1) * bytes == count * bytes + (j + 1) * bytes) by (nonlinear_arith);
        assert(pixel_at(after, start, bytes, count + j) =~= pixel_at(buffer, 0, bytes, j));
    }
}

/// The blocks of a chunk that starts with a block follow the blocks before
/// the chunk.
proof fn lemma_chunk_blocks(bw: int, first: int, done: int, n: int, width: int)
    requires
        bw >= 1,
        0 <= first,
        done == first * bw,
        1 <= n,
        done + n <= width,
    ensures
        block_count(done + n, bw) == first + block_count(n, bw),
        block_count(done + n, bw) <= block_count(width, bw),
        block_count(n, bw) >= 1,
        (block_count(n, bw) - 1) * bw < n,
{
    let m = block_count(n, bw);
    lemma_fundamental_div_mod(n + bw - 1, bw);
    let r = (n + bw - 1) % bw;
    assert(done + n + bw - 1 == (first + m) * bw + r) by (nonlinear_arith)
        requires
            done == first * bw,
            n + bw - 1 == bw * m + r,
    ;
    assert(m >= 1 && (m - 1) * bw < n) by (nonlinear_arith)
        requires
            n + bw - 1 == bw * m + r,
            0 <= r < bw,
            n >= 1,
            bw >= 1,
    ;
    lemma_fundamental_div_mod_converse(done + n + bw - 1, bw, first + m, r);
    vstd::arithmetic::div_mod::lemma_div_is_ordered(done + n + bw - 1, width + bw - 1, bw);
}

/// Pixels of a chunk: the buffers of a chunk hold that many pixels as
/// numbers, and the encoded blocks of as many pixels.
pub const CHUNK_PIXELS: usize = 512;

/// Encodes one chunk of a line through the two buffers and appends the
/// encoded blocks to the output. The chunk starts with a block, and it ends
/// with a block or with the line.
fn subsample_chunk(
    format: Format,
    data: &[u8],
    color: ColorFormat,
    width: usize,
    y: usize,
    done: usize,
    n: usize,
    out: &mut Vec<u8>,
    Ghost(initial): Ghost<Seq<u8>>,
)
    requires
        format.has_universal_subsample(),
        1 <= n <= CHUNK_PIXELS,
        done % CHUNK_PIXELS == 0,
        done + n <= width,
        n == CHUNK_PIXELS || done + n == width,
        (y * width + done + n) * color.bpp() <= data@.len(),
        blocks_appended(
            format,
            color,
            data@,
            width as int,
            initial,
            old(out)@,
            y * block_count(width as int, format.block_shape().width as int) + block_count(
                done as int,
                format.block_shape().width as int,
            ),
        ),
    ensures
        blocks_appended(
            format,
            color,
            data@,
            width as int,
            initial,
            final(out)@,
            y * block_count(width as int, format.block_shape().width as int) + block_count(
                done + n,
                format.block_shape().width as int,
            ),
        ),
{
    let data_len: usize = data.len();
    let bpp: usize = color.bytes_per_pixel() as usize;
    let shape = format.block_shape_of();
    let bw: usize = shape.width as usize;
    let bytes: usize = shape.bytes as usize;
    let mut numbers: [u32; 2048] = [0u32; 2048];
    let mut encoded: [u8; 8192] = [0u8; 8192];
    let m: usize = blocks_of(n, bw);
    let ghost per_row = block_count(width as int, bw as int);
    let ghost first = done as int / (bw as int);
    let ghost start = y * width;
    proof {
        lemma_whole_blocks(done as int, bw as int);
        lemma_whole_blocks(CHUNK_PIXELS as int, bw as int);
        lemma_chunk_blocks(bw as int, first, done as int, n as int, width as int);
        lemma_mul_le(0, y as int, width as int);
        assert(start + done + n <= (start + done + n) * bpp) by (nonlinear_arith)
            requires
                bpp >= 1,
                start + done + n >= 0,
        ;
        assert((start + done + n) * bpp == (start + done) * bpp + n * bpp) by (nonlinear_arith);
        lemma_mul_le(0, start + done, bpp as int);
        lemma_mul_le(0, n as int, bpp as int);
        lemma_mul_le(m as int, 512, bytes as int);
        lemma_mul_le(0, m as int, bytes as int);
    }
    let line = vstd::slice::slice_subrange(data, (y * width + done) * bpp, (y * width + done + n) * bpp);
    convert_to_rgba_bits(color, line, &mut numbers, n);
    process_subsample(format, &numbers, n, &mut encoded);
    let ghost before = out@;
    append_bytes(out, &encoded, m * bytes);
    proof {
        let count = y * per_row + first;
        lemma_blocks_follow(
            before,
            encoded@,
            out@,
            initial.len() as int,
            bytes as int,
            count,
            m as int,
        );
        assert(out@.subrange(0, initial.len() as int) =~= initial);
        assert forall|g: int| 0 <= g < count + m implies #[trigger] pixel_at(
            out@,
            initial.len() as int,
            bytes as int,
            g,
        ) == surface_block(format, color, data@, width as int, g) by {
            if g >= count {
                let j = g - count;
                assert(g == count + j);
                lemma_mul_le(j, m - 1, bw as int);
                lemma_block_of_line(y as int, per_row, first + j);
                lemma_chunk_block(
                    color,
                    data@,
                    line@,
                    numbers@,
                    width as int,
                    bw as int,
                    start,
                    done as int,
                    n as int,
                    first,
                    j,
                );
                assert(pixel_at(out@, initial.len() as int, bytes as int, count + j) == pixel_at(
                    encoded@,
                    0,
                    bytes as int,
                    j,
                ));
            }
        }
    }
}

/// A number of pixels that is a multiple of the pixels of a chunk is a
/// number of whole blocks.
proof fn lemma_whole_blocks(done: int, bw: int)
    requires
        done >= 0,
        done % 512 == 0,
        bw == 1 || bw == 2 || bw == 4 || bw == 8,
    ensures
        done == (done / bw) * bw,
        done % bw == 0,
        0 <= done / bw,
        block_count(done, bw) == done / bw,
{
    lemma_fundamental_div_mod(done, 512);
    let t = done / 512;
    let q = 512int / bw;
    assert(512 == q * bw);
    assert(done == (t * q) * bw) by (nonlinear_arith)
        requires
            done == 512 * t,
            512 == q * bw,
    ;
    assert(0 <= t * q) by (nonlinear_arith)
        requires
            0 <= t,
            0 <= q,
    ;
    lemma_fundamental_div_mod_converse(done, bw, t * q, 0);
    lemma_fundamental_div_mod_converse(done + bw - 1, bw, t * q, bw - 1);
}

/// Encodes the lines of a surface block by block, for pixels of any colour
/// format. Every line is worked on chunk by chunk: the pixels of a chunk
/// are turned into red, green, blue and alpha as single-precision numbers,
/// the blocks are made from these in a buffer, and the buffer is appended
/// to the output.
pub fn uncompressed_universal_subsample(
    data: &[u8],
    color: ColorFormat,
    width: usize,
    rows: usize,
    format: Format,
    out: &mut Vec<u8>,
)
    requires
        format.has_universal_subsample(),
        1 <= width,
        rows * width * color.bpp() <= data@.len(),
    ensures
        blocks_appended(
            format,
            color,
            data@,
            width as int,
            old(out)@,
            final(out)@,
            rows * block_count(width as int, format.block_shape().width as int),
        ),
{
    let ghost bw = format.block_shape().width as int;
    let ghost per_row = block_count(width as int, bw);
    proof {
        assert(out@.subrange(0, out@.len() as int) =~= out@);
        assert(0 * per_row == 0) by (nonlinear_arith);
    }
    let mut y: usize = 0;
    while y < rows
        invariant
            y <= rows,
            format.has_universal_subsample(),
            1 <= width,
            rows * width * color.bpp() <= data@.len(),
            bw == format.block_shape().width,
            per_row == block_count(width as int, bw),
            blocks_appended(format, color, data@, width as int, old(out)@, out@, y * per_row),
        decreases rows - y,
    {
        let mut done: usize = 0;
        proof {
            lemma_whole_blocks(0, bw);
        }
        while done < width
            invariant
                done <= width,
                done % CHUNK_PIXELS == 0 || done == width,
                y < rows,
                format.has_universal_subsample(),
                1 <= width,
                rows * width * color.bpp() <= data@.len(),
                bw == format.block_shape().width,
                per_row == block_count(width as int, bw),
                blocks_appended(
                    format,
                    color,
                    data@,
                    width as int,
                    old(out)@,
                    out@,
                    y * per_row + block_count(done as int, bw),
                ),
            decreases width - done,
        {
            let n: usize = if width - done < CHUNK_PIXELS {
                width - done
            } else {
                CHUNK_PIXELS
            };
            proof {
                lemma_mul_succ(y as int, width as int);
                lemma_mul_le(y + 1, rows as int, width as int);
                lemma_mul_le(y * width + done + n, rows * width, color.bpp() as int);
                if n == CHUNK_PIXELS {
                    lemma_fundamental_div_mod(done as int, 512);
                    lemma_fundamental_div_mod_converse(done + n, 512, done as int / 512 + 1, 0);
                }
            }
            subsample_chunk(format, data, color, width, y, done, n, out, Ghost(old(out)@));
            done = done + n;
        }
        proof {
            lemma_mul_succ(y as int, per_row);
        }
        y = y + 1;
    }
}

} // verus!
