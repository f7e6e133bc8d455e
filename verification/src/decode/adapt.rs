//! The channel adapter: brings the pixels that a pixel processor decodes in
//! the native channels of a format into the channels that a caller asks for.
//!
//! It is the only place where channels are reshaped. Channels that the
//! source lacks are filled: alpha with 1, colours with 0. A colour source
//! gives its red channel for grayscale.

use vstd::prelude::*;
use vstd::arithmetic::div_mod::lemma_fundamental_div_mod_converse;
use crate::decode::channel::one_value;
use crate::decode::read_write::{encoded_pixel, lemma_block_in_run, lemma_mul_le, lemma_mul_succ,
    lemma_pixel_at_same, lemma_pixel_at_shift, lemma_pixels_step, lemma_sub_run, native_bpp,
    pixel_at,
    process_pixels, run_blocks, run_bytes, store_value, value_byte, ProcessPixelsFn};
use crate::pixel::{Channels, Precision};

verus! {

/// Number of pixels that are decoded into the staging buffer at a time.
pub const BUFFER_PIXELS: usize = 64;

/// Bytes of the staging buffer: 64 pixels of the largest pixel size.
pub const BUFFER_BYTES: usize = 1024;

/// Where a channel of an adapted pixel comes from.
#[derive(Debug, Clone, Copy, PartialEq, Eq, Structural)]
pub enum Source {
    /// The channel of the source pixel with this index.
    Channel(u8),
    /// The constant 0.
    Zero,
    /// The constant 1.
    One,
}

/// Where channel `k` of a pixel with channels `to` comes from, given a
/// source pixel with channels `from`.
pub open spec fn channel_source(from: Channels, to: Channels, k: nat) -> Source {
    match (from, to) {
        (Channels::Grayscale, Channels::Grayscale)
        | (Channels::Alpha, Channels::Alpha)
        | (Channels::Rgb, Channels::Rgb)
        | (Channels::Rgba, Channels::Rgba) => Source::Channel(k as u8),
        (Channels::Grayscale, Channels::Alpha) | (Channels::Rgb, Channels::Alpha) => Source::One,
        (Channels::Alpha, Channels::Grayscale) | (Channels::Alpha, Channels::Rgb) => Source::Zero,
        (Channels::Grayscale, Channels::Rgb) => Source::Channel(0),
        (Channels::Grayscale, Channels::Rgba) => if k < 3 {
            Source::Channel(0)
        } else {
            Source::One
        },
        (Channels::Alpha, Channels::Rgba) => if k < 3 {
            Source::Zero
        } else {
            Source::Channel(0)
        },
        (Channels::Rgb, Channels::Grayscale) => Source::Channel(0),
        (Channels::Rgb, Channels::Rgba) => if k < 3 {
            Source::Channel(k as u8)
        } else {
            Source::One
        },
        (Channels::Rgba, Channels::Grayscale) => Source::Channel(0),
        (Channels::Rgba, Channels::Alpha) => Source::Channel(3),
        (Channels::Rgba, Channels::Rgb) => Source::Channel(k as u8),
    }
}

/// Byte `b` of channel `k` of the adapted pixel.
pub open spec fn adapted_byte(
    from: Channels,
    to: Channels,
    precision: Precision,
    src: Seq<u8>,
    k: nat,
    b: int,
) -> u8 {
    match channel_source(from, to, k) {
        Source::Channel(i) => src[i * precision.size_spec() + b],
        Source::Zero => 0,
        Source::One => value_byte(one_value(precision), b),
    }
}

/// The pixel `src`, which has channels `from`, in channels `to`.
pub open spec fn adapted_pixel(from: Channels, to: Channels, precision: Precision, src: Seq<u8>) -> Seq<
    u8,
> {
    let size = precision.size_spec() as int;
    Seq::new(
        to.count_spec() * precision.size_spec(),
        |j: int| adapted_byte(from, to, precision, src, (j / size) as nat, j % size),
    )
}

/// An adapter between equal channels hands the pixel on as it is.
pub proof fn lemma_adapt_identity(channels: Channels, precision: Precision, src: Seq<u8>)
    requires
        src.len() == channels.count_spec() * precision.size_spec(),
    ensures
        adapted_pixel(channels, channels, precision, src) == src,
{
    let size = precision.size_spec() as int;
    let out = adapted_pixel(channels, channels, precision, src);
    assert forall|j: int| 0 <= j < src.len() implies out[j] == src[j] by {
        vstd::arithmetic::div_mod::lemma_fundamental_div_mod(j, size);
        assert(0 <= j / size < 4);
        assert((j / size) as nat as u8 as int * size == size * (j / size)) by (nonlinear_arith)
            requires
                0 <= j / size < 4,
        ;
    }
    assert(out =~= src);
}

/// Where channel `k` of a pixel with channels `to` comes from.
pub fn source_of(from: Channels, to: Channels, k: u8) -> (s: Source)
    requires
        k < to.count_spec(),
    ensures
        s == channel_source(from, to, k as nat),
        s matches Source::Channel(i) ==> i < from.count_spec(),
{
    match (from, to) {
        (Channels::Grayscale, Channels::Grayscale)
        | (Channels::Alpha, Channels::Alpha)
        | (Channels::Rgb, Channels::Rgb)
        | (Channels::Rgba, Channels::Rgba) => Source::Channel(k),
        (Channels::Grayscale, Channels::Alpha) | (Channels::Rgb, Channels::Alpha) => Source::One,
        (Channels::Alpha, Channels::Grayscale) | (Channels::Alpha, Channels::Rgb) => Source::Zero,
        (Channels::Grayscale, Channels::Rgb) => Source::Channel(0),
        (Channels::Grayscale, Channels::Rgba) => if k < 3 {
            Source::Channel(0)
        } else {
            Source::One
        },
        (Channels::Alpha, Channels::Rgba) => if k < 3 {
            Source::Zero
        } else {
            Source::Channel(0)
        },
        (Channels::Rgb, Channels::Grayscale) => Source::Channel(0),
        (Channels::Rgb, Channels::Rgba) => if k < 3 {
            Source::Channel(k)
        } else {
            Source::One
        },
        (Channels::Rgba, Channels::Grayscale) => Source::Channel(0),
        (Channels::Rgba, Channels::Alpha) => Source::Channel(3),
        (Channels::Rgba, Channels::Rgb) => Source::Channel(k),
    }
}

/// 1 in a precision.
pub fn one_of(precision: Precision) -> (v: u32)
    ensures
        v == one_value(precision),
{
    match precision {
        Precision::U8 => 255,
        Precision::U16 => 65535,
        Precision::F32 => 0x3F80_0000,
    }
}

/// Writes at `opos` the pixel at `spos` of `src`, which has channels
/// `from`, in channels `to`.
pub fn convert_pixel(
    from: Channels,
    to: Channels,
    precision: Precision,
    src: &[u8],
    spos: usize,
    out: &mut [u8],
    opos: usize,
)
    requires
        spos + from.count_spec() * precision.size_spec() <= src@.len(),
        opos + to.count_spec() * precision.size_spec() <= old(out)@.len(),
    ensures
        final(out)@.len() == old(out)@.len(),
        forall|j: int|
            0 <= j < old(out)@.len() ==> #[trigger] final(out)@[j] == (if opos <= j < opos
                + to.count_spec() * precision.size_spec() {
                adapted_pixel(
                    from,
                    to,
                    precision,
                    src@.subrange(
                        spos as int,
                        spos + from.count_spec() * precision.size_spec(),
                    ),
                )[j - opos]
            } else {
                old(out)@[j]
            }),
{
    let len: usize = out.len();
    let src_len: usize = src.len();
    let count: u8 = to.count();
    let from_count: u8 = from.count();
    let size: u8 = precision.size();
    let ghost pixel = src@.subrange(spos as int, spos + from_count * size);
    let ghost adapted = adapted_pixel(from, to, precision, pixel);
    let mut k: u8 = 0;
    let mut at: usize = opos;
    while k < count
        invariant
            k <= count,
            count as nat == to.count_spec(),
            from_count as nat == from.count_spec(),
            size as nat == precision.size_spec(),
            spos + from_count * size <= src@.len(),
            src_len == src@.len(),
            pixel == src@.subrange(spos as int, spos + from_count * size),
            adapted == adapted_pixel(from, to, precision, pixel),
            out@.len() == old(out)@.len(),
            len == out@.len(),
            opos + count * size <= len,
            at == opos + k * size,
            forall|j: int|
                0 <= j < len ==> #[trigger] out@[j] == (if opos <= j < at {
                    adapted[j - opos]
                } else {
                    old(out)@[j]
                }),
        decreases count - k,
    {
        proof {
            lemma_mul_succ(k as int, size as int);
            lemma_mul_le(k + 1, count as int, size as int);
        }
        let ghost before = out@;
        match source_of(from, to, k) {
            Source::Channel(i) => {
                proof {
                    lemma_mul_succ(i as int, size as int);
                    lemma_mul_le(i + 1, from_count as int, size as int);
                    lemma_mul_le(0, i as int, size as int);
                }
                let from_at: usize = spos + (i as usize) * (size as usize);
                let mut b: usize = 0;
                while b < size as usize
                    invariant
                        b <= size,
                        len == out@.len(),
                        len == before.len(),
                        at + size <= len,
                        from_at + size <= src@.len(),
                        src_len == src@.len(),
                        forall|j: int|
                            0 <= j < len ==> #[trigger] out@[j] == (if at <= j < at + b {
                                src@[from_at + (j - at)]
                            } else {
                                before[j]
                            }),
                    decreases size - b,
                {
                    out[at + b] = src[from_at + b];
                    b = b + 1;
                }
            },
            Source::Zero => {
                store_value(out, at, 0, precision);
            },
            Source::One => {
                store_value(out, at, one_of(precision), precision);
            },
        }
        proof {
            assert forall|j: int| 0 <= j < len implies #[trigger] out@[j] == (if opos <= j < at
                + size {
                adapted[j - opos]
            } else {
                old(out)@[j]
            }) by {
                if at <= j < at + size {
                    lemma_fundamental_div_mod_converse(j - opos, size as int, k as int, j - at);
                    assert(adapted[j - opos] == adapted_byte(
                        from,
                        to,
                        precision,
                        pixel,
                        k as nat,
                        j - at,
                    ));
                }
            }
        }
        at = at + size as usize;
        k = k + 1;
    }
}

/// A per-pixel mapping between two channel sets.
#[derive(Debug, Clone, Copy, PartialEq, Eq, Structural)]
pub enum PixelMap {
    AlphaToRgba,
    GrayscaleToRgb,
    GrayscaleToRgba,
    RgbToGrayscale,
    RgbToRgba,
    RgbaToGrayscale,
    RgbaToAlpha,
    RgbaToRgb,
}

impl PixelMap {
    /// The channels of the pixels that the mapping takes.
    pub open spec fn source(self) -> Channels {
        match self {
            PixelMap::AlphaToRgba => Channels::Alpha,
            PixelMap::GrayscaleToRgb | PixelMap::GrayscaleToRgba => Channels::Grayscale,
            PixelMap::RgbToGrayscale | PixelMap::RgbToRgba => Channels::Rgb,
            PixelMap::RgbaToGrayscale | PixelMap::RgbaToAlpha | PixelMap::RgbaToRgb => Channels::Rgba,
        }
    }

    /// The channels of the pixels that the mapping gives.
    pub open spec fn target(self) -> Channels {
        match self {
            PixelMap::RgbToGrayscale | PixelMap::RgbaToGrayscale => Channels::Grayscale,
            PixelMap::RgbaToAlpha => Channels::Alpha,
            PixelMap::GrayscaleToRgb | PixelMap::RgbaToRgb => Channels::Rgb,
            PixelMap::AlphaToRgba | PixelMap::GrayscaleToRgba | PixelMap::RgbToRgba => Channels::Rgba,
        }
    }
}

/// What a per-pixel mapping leaves in the output: the adapted pixel at
/// `opos`, and every other byte as it was.
pub open spec fn pixel_mapped(
    from: Channels,
    to: Channels,
    precision: Precision,
    src: Seq<u8>,
    spos: int,
    before: Seq<u8>,
    after: Seq<u8>,
    opos: int,
) -> bool {
    &&& after.len() == before.len()
    &&& forall|j: int|
        0 <= j < before.len() ==> #[trigger] after[j] == (if opos <= j < opos + to.count_spec()
            * precision.size_spec() {
            adapted_pixel(
                from,
                to,
                precision,
                src.subrange(spos, spos + from.count_spec() * precision.size_spec()),
            )[j - opos]
        } else {
            before[j]
        })
}

/// Alpha becomes black with that alpha.
pub fn alpha_to_rgba(precision: Precision, src: &[u8], spos: usize, out: &mut [u8], opos: usize)
    requires
        spos + precision.size_spec() <= src@.len(),
        opos + 4 * precision.size_spec() <= old(out)@.len(),
    ensures
        pixel_mapped(
            Channels::Alpha,
            Channels::Rgba,
            precision,
            src@,
            spos as int,
            old(out)@,
            final(out)@,
            opos as int,
        ),
{
    convert_pixel(Channels::Alpha, Channels::Rgba, precision, src, spos, out, opos)
}

/// Gray becomes that gray in red, green and blue.
pub fn grayscale_to_rgb(precision: Precision, src: &[u8], spos: usize, out: &mut [u8], opos: usize)
    requires
        spos + precision.size_spec() <= src@.len(),
        opos + 3 * precision.size_spec() <= old(out)@.len(),
    ensures
        pixel_mapped(
            Channels::Grayscale,
            Channels::Rgb,
            precision,
            src@,
            spos as int,
            old(out)@,
            final(out)@,
            opos as int,
        ),
{
    convert_pixel(Channels::Grayscale, Channels::Rgb, precision, src, spos, out, opos)
}

/// Gray becomes that gray in red, green and blue, with an alpha of 1.
pub fn grayscale_to_rgba(precision: Precision, src: &[u8], spos: usize, out: &mut [u8], opos: usize)
    requires
        spos + precision.size_spec() <= src@.len(),
        opos + 4 * precision.size_spec() <= old(out)@.len(),
    ensures
        pixel_mapped(
            Channels::Grayscale,
            Channels::Rgba,
            precision,
            src@,
            spos as int,
            old(out)@,
            final(out)@,
            opos as int,
        ),
{
    convert_pixel(Channels::Grayscale, Channels::Rgba, precision, src, spos, out, opos)
}

/// A colour becomes its red channel.
pub fn rgb_to_grayscale(precision: Precision, src: &[u8], spos: usize, out: &mut [u8], opos: usize)
    requires
        spos + 3 * precision.size_spec() <= src@.len(),
        opos + precision.size_spec() <= old(out)@.len(),
    ensures
        pixel_mapped(
            Channels::Rgb,
            Channels::Grayscale,
            precision,
            src@,
            spos as int,
            old(out)@,
            final(out)@,
            opos as int,
        ),
{
    convert_pixel(Channels::Rgb, Channels::Grayscale, precision, src, spos, out, opos)
}

/// A colour gets an alpha of 1.
pub fn rgb_to_rgba(precision: Precision, src: &[u8], spos: usize, out: &mut [u8], opos: usize)
    requires
        spos + 3 * precision.size_spec() <= src@.len(),
        opos + 4 * precision.size_spec() <= old(out)@.len(),
    ensures
        pixel_mapped(
            Channels::Rgb,
            Channels::Rgba,
            precision,
            src@,
            spos as int,
            old(out)@,
            final(out)@,
            opos as int,
        ),
{
    convert_pixel(Channels::Rgb, Channels::Rgba, precision, src, spos, out, opos)
}

/// A colour with alpha becomes its red channel.
pub fn rgba_to_grayscale(precision: Precision, src: &[u8], spos: usize, out: &mut [u8], opos: usize)
    requires
        spos + 4 * precision.size_spec() <= src@.len(),
        opos + precision.size_spec() <= old(out)@.len(),
    ensures
        pixel_mapped(
            Channels::Rgba,
            Channels::Grayscale,
            precision,
            src@,
            spos as int,
            old(out)@,
            final(out)@,
            opos as int,
        ),
{
    convert_pixel(Channels::Rgba, Channels::Grayscale, precision, src, spos, out, opos)
}

/// A colour with alpha becomes its alpha.
pub fn rgba_to_alpha(precision: Precision, src: &[u8], spos: usize, out: &mut [u8], opos: usize)
    requires
        spos + 4 * precision.size_spec() <= src@.len(),
        opos + precision.size_spec() <= old(out)@.len(),
    ensures
        pixel_mapped(
            Channels::Rgba,
            Channels::Alpha,
            precision,
            src@,
            spos as int,
            old(out)@,
            final(out)@,
            opos as int,
        ),
{
    convert_pixel(Channels::Rgba, Channels::Alpha, precision, src, spos, out, opos)
}

/// A colour with alpha loses its alpha.
pub fn rgba_to_rgb(precision: Precision, src: &[u8], spos: usize, out: &mut [u8], opos: usize)
    requires
        spos + 4 * precision.size_spec() <= src@.len(),
        opos + 3 * precision.size_spec() <= old(out)@.len(),
    ensures
        pixel_mapped(
            Channels::Rgba,
            Channels::Rgb,
            precision,
            src@,
            spos as int,
            old(out)@,
            final(out)@,
            opos as int,
        ),
{
    convert_pixel(Channels::Rgba, Channels::Rgb, precision, src, spos, out, opos)
}

/// Applies a per-pixel mapping to the pixel at `spos` of `src`.
pub fn apply_map(
    map: PixelMap,
    precision: Precision,
    src: &[u8],
    spos: usize,
    out: &mut [u8],
    opos: usize,
)
    requires
        spos + map.source().count_spec() * precision.size_spec() <= src@.len(),
        opos + map.target().count_spec() * precision.size_spec() <= old(out)@.len(),
    ensures
        pixel_mapped(
            map.source(),
            map.target(),
            precision,
            src@,
            spos as int,
            old(out)@,
            final(out)@,
            opos as int,
        ),
{
    match map {
        PixelMap::AlphaToRgba => alpha_to_rgba(precision, src, spos, out, opos),
        PixelMap::GrayscaleToRgb => grayscale_to_rgb(precision, src, spos, out, opos),
        PixelMap::GrayscaleToRgba => grayscale_to_rgba(precision, src, spos, out, opos),
        PixelMap::RgbToGrayscale => rgb_to_grayscale(precision, src, spos, out, opos),
        PixelMap::RgbToRgba => rgb_to_rgba(precision, src, spos, out, opos),
        PixelMap::RgbaToGrayscale => rgba_to_grayscale(precision, src, spos, out, opos),
        PixelMap::RgbaToAlpha => rgba_to_alpha(precision, src, spos, out, opos),
        PixelMap::RgbaToRgb => rgba_to_rgb(precision, src, spos, out, opos),
    }
}

/// Number of channels that a per-pixel mapping gives.
pub fn target_count(map: PixelMap) -> (n: u8)
    ensures
        n as nat == map.target().count_spec(),
{
    match map {
        PixelMap::RgbToGrayscale | PixelMap::RgbaToGrayscale | PixelMap::RgbaToAlpha => 1,
        PixelMap::GrayscaleToRgb | PixelMap::RgbaToRgb => 3,
        PixelMap::AlphaToRgba | PixelMap::GrayscaleToRgba | PixelMap::RgbToRgba => 4,
    }
}

/// Bytes of a decoded pixel with channels `to`.
pub open spec fn target_bpp(pf: ProcessPixelsFn, to: Channels) -> int {
    (to.count_spec() * pf.precision.size_spec()) as int
}

/// What an adapter leaves in the output: pixel `x` of the run, decoded and
/// brought into channels `to`, at pixel `x` of the output from `dec_start`
/// on, and every other byte as it was.
pub open spec fn adapted_run(
    pf: ProcessPixelsFn,
    to: Channels,
    encoded: Seq<u8>,
    enc_start: int,
    before: Seq<u8>,
    after: Seq<u8>,
    dec_start: int,
    pixels: int,
) -> bool {
    &&& after.len() == before.len()
    &&& forall|x: int|
        0 <= x < pixels ==> #[trigger] pixel_at(after, dec_start, target_bpp(pf, to), x)
            == adapted_pixel(
            pf.format.channels_spec(),
            to,
            pf.precision,
            encoded_pixel(pf, encoded, enc_start, x),
        )
    &&& forall|j: int|
        0 <= j < dec_start || dec_start + pixels * target_bpp(pf, to) <= j < before.len()
            ==> #[trigger] after[j] == before[j]
}

/// Two adapted runs in a row are one adapted run, where the first one is of
/// whole blocks.
pub proof fn lemma_adapted_run_join(
    pf: ProcessPixelsFn,
    to: Channels,
    encoded: Seq<u8>,
    enc_start: int,
    before: Seq<u8>,
    mid: Seq<u8>,
    after: Seq<u8>,
    dec_start: int,
    blocks: int,
    n: int,
)
    requires
        blocks >= 0,
        n >= 0,
        dec_start >= 0,
        dec_start + (blocks * (pf.format.block_shape().width as int) + n) * target_bpp(pf, to)
            <= before.len(),
        adapted_run(
            pf,
            to,
            encoded,
            enc_start,
            before,
            mid,
            dec_start,
            blocks * (pf.format.block_shape().width as int),
        ),
        adapted_run(
            pf,
            to,
            encoded,
            enc_start + blocks * (pf.format.block_shape().bytes as int),
            mid,
            after,
            dec_start + blocks * (pf.format.block_shape().width as int) * target_bpp(pf, to),
            n,
        ),
    ensures
        adapted_run(
            pf,
            to,
            encoded,
            enc_start,
            before,
            after,
            dec_start,
            blocks * (pf.format.block_shape().width as int) + n,
        ),
{
    let width = pf.format.block_shape().width as int;
    let bytes = pf.format.block_shape().bytes as int;
    let bpp = target_bpp(pf, to);
    let done = blocks * width;
    assert(width >= 1);
    lemma_mul_le(0, blocks, width);
    lemma_mul_le(0, done, bpp);
    assert((done + n) * bpp == done * bpp + n * bpp) by (nonlinear_arith);
    lemma_mul_le(0, n, bpp);
    assert forall|x: int| 0 <= x < done + n implies #[trigger] pixel_at(after, dec_start, bpp, x)
        == adapted_pixel(
        pf.format.channels_spec(),
        to,
        pf.precision,
        encoded_pixel(pf, encoded, enc_start, x),
    ) by {
        if x < done {
            lemma_mul_succ(x, bpp);
            lemma_mul_le(x + 1, done, bpp);
            lemma_pixel_at_same(after, mid, dec_start, bpp, x);
        } else {
            let i = x - done;
            lemma_pixel_at_shift(after, dec_start, bpp, done, i);
            lemma_sub_run(pf, encoded, enc_start, blocks, i);
            assert(pixel_at(after, dec_start + done * bpp, bpp, i) == adapted_pixel(
                pf.format.channels_spec(),
                to,
                pf.precision,
                encoded_pixel(pf, encoded, enc_start + blocks * bytes, i),
            ));
        }
    }
}

/// A run of pixels to decode: the pixel processor, where the encoded run
/// starts, where the decoded pixels go, and how many there are.
#[derive(Debug, Clone, Copy)]
pub struct UncompressedAdapter {
    pub process_fn: ProcessPixelsFn,
    pub enc_start: usize,
    pub dec_start: usize,
    pub pixels: usize,
}

/// Decodes at most 64 pixels into a staging buffer and applies a per-pixel
/// mapping from there to the output.
#[verifier::rlimit(40)]
fn map_chunk(
    pf: ProcessPixelsFn,
    map: PixelMap,
    encoded: &[u8],
    enc_start: usize,
    decoded: &mut [u8],
    dec_start: usize,
    n: usize,
)
    requires
        n <= BUFFER_PIXELS,
        pf.format.is_plain(),
        map.source() == pf.format.channels_spec(),
        enc_start + run_bytes(pf.format, n as nat) <= encoded@.len(),
        dec_start + n * target_bpp(pf, map.target()) <= old(decoded)@.len(),
    ensures
        adapted_run(
            pf,
            map.target(),
            encoded@,
            enc_start as int,
            old(decoded)@,
            final(decoded)@,
            dec_start as int,
            n as int,
        ),
{
    let len: usize = decoded.len();
    let size: usize = pf.precision.size() as usize;
    let from_bpp: usize = pf.format.color().channels.count() as usize * size;
    let to_bpp: usize = target_count(map) as usize * size;
    let ghost from = map.source();
    let ghost to = map.target();
    let ghost start = dec_start as int;
    // Since the largest pixel has 16 bytes, 1024 bytes hold 64 pixels.
    let mut buffer: [u8; 1024] = [0u8; 1024];
    proof {
        lemma_mul_le(n as int, 64, from_bpp as int);
    }
    // decode pixels into the buffer
    process_pixels(pf, encoded, enc_start, &mut buffer, 0, n);
    // convert pixels
    let mut i: usize = 0;
    let mut spos: usize = 0;
    let mut dpos: usize = dec_start;
    while i < n
        invariant
            i <= n,
            n <= 64,
            size as nat == pf.precision.size_spec(),
            from_bpp == native_bpp(pf),
            from_bpp <= 16,
            to_bpp == target_bpp(pf, to),
            from == map.source(),
            to == map.target(),
            from == pf.format.channels_spec(),
            len == decoded@.len(),
            len == old(decoded)@.len(),
            start == dec_start,
            start + n * to_bpp <= len,
            buffer@.len() == 1024,
            spos == i * from_bpp,
            dpos == start + i * to_bpp,
            forall|x: int|
                0 <= x < n ==> #[trigger] pixel_at(buffer@, 0, from_bpp as int, x)
                    == encoded_pixel(pf, encoded@, enc_start as int, x),
            forall|x: int|
                0 <= x < i ==> #[trigger] pixel_at(decoded@, start, to_bpp as int, x)
                    == adapted_pixel(
                    from,
                    to,
                    pf.precision,
                    encoded_pixel(pf, encoded@, enc_start as int, x),
                ),
            forall|j: int|
                0 <= j < start || start + i * to_bpp <= j < len ==> #[trigger] decoded@[j] == old(
                    decoded,
                )@[j],
        decreases n - i,
    {
        proof {
            lemma_mul_succ(i as int, from_bpp as int);
            lemma_mul_le(i + 1, 64, from_bpp as int);
            lemma_mul_le(0, i as int, from_bpp as int);
            lemma_mul_succ(i as int, to_bpp as int);
            lemma_mul_le(i + 1, n as int, to_bpp as int);
            lemma_mul_le(0, i as int, to_bpp as int);
        }
        let ghost before = decoded@;
        apply_map(map, pf.precision, &buffer, spos, decoded, dpos);
        proof {
            assert(buffer@.subrange(spos as int, spos + from_bpp) == pixel_at(
                buffer@,
                0,
                from_bpp as int,
                i as int,
            ));
            lemma_pixels_step(
                adapted_pixel(
                    from,
                    to,
                    pf.precision,
                    encoded_pixel(pf, encoded@, enc_start as int, i as int),
                ),
                old(decoded)@,
                before,
                decoded@,
                start,
                to_bpp as int,
                i as int,
            );
        }
        i = i + 1;
        spos = spos + from_bpp;
        dpos = dpos + to_bpp;
    }
}

impl UncompressedAdapter {
    /// The run lies within the encoded bytes, and its pixels in channels `to`
    /// lie within the output.
    pub open spec fn fits(self, to: Channels, encoded: Seq<u8>, decoded: Seq<u8>) -> bool {
        &&& self.process_fn.format.is_plain()
        &&& self.enc_start + run_bytes(self.process_fn.format, self.pixels as nat) <= encoded.len()
        &&& self.dec_start + self.pixels * target_bpp(self.process_fn, to) <= decoded.len()
    }

    /// What the adapter leaves in the output when it has brought its run
    /// into channels `to`.
    pub open spec fn adapted(self, to: Channels, encoded: Seq<u8>, before: Seq<u8>, after: Seq<u8>) -> bool {
        adapted_run(
            self.process_fn,
            to,
            encoded,
            self.enc_start as int,
            before,
            after,
            self.dec_start as int,
            self.pixels as int,
        )
    }

    /// Decodes straight into the output.
    pub fn direct(&self, encoded: &[u8], decoded: &mut [u8])
        requires
            self.fits(self.process_fn.format.channels_spec(), encoded@, old(decoded)@),
        ensures
            self.adapted(
                self.process_fn.format.channels_spec(),
                encoded@,
                old(decoded)@,
                final(decoded)@,
            ),
    {
        process_pixels(
            self.process_fn,
            encoded,
            self.enc_start,
            decoded,
            self.dec_start,
            self.pixels,
        );
        proof {
            let pf = self.process_fn;
            let from = pf.format.channels_spec();
            assert(target_bpp(pf, from) == native_bpp(pf) as int);
            assert forall|x: int| 0 <= x < self.pixels implies #[trigger] pixel_at(
                decoded@,
                self.dec_start as int,
                target_bpp(pf, from),
                x,
            ) == adapted_pixel(
                from,
                from,
                pf.precision,
                encoded_pixel(pf, encoded@, self.enc_start as int, x),
            ) by {
                lemma_adapt_identity(
                    from,
                    pf.precision,
                    encoded_pixel(pf, encoded@, self.enc_start as int, x),
                );
                assert(pixel_at(decoded@, self.dec_start as int, native_bpp(pf) as int, x)
                    == encoded_pixel(pf, encoded@, self.enc_start as int, x));
            }
        }
    }

    /// Decodes into a small staging buffer, 64 pixels at a time, and applies
    /// a per-pixel mapping from there to the output.
    #[verifier::rlimit(40)]
    pub fn map(&self, encoded: &[u8], decoded: &mut [u8], map: PixelMap)
        requires
            map.source() == self.process_fn.format.channels_spec(),
            self.fits(map.target(), encoded@, old(decoded)@),
        ensures
            self.adapted(map.target(), encoded@, old(decoded)@, final(decoded)@),
    {
        let pf = self.process_fn;
        let len: usize = decoded.len();
        let enc_len: usize = encoded.len();
        let shape = pf.format.block_shape_of();
        let to_bpp: usize = target_count(map) as usize * pf.precision.size() as usize;
        let per_chunk: usize = BUFFER_PIXELS / shape.width as usize;
        assert(per_chunk * shape.bytes <= 64 * 255) by (nonlinear_arith)
            requires
                per_chunk <= 64,
                shape.bytes <= 255,
        ;
        let chunk_bytes: usize = per_chunk * (shape.bytes as usize);
        let ghost to = map.target();
        let ghost start = self.dec_start as int;
        let ghost width = shape.width as int;
        let ghost bytes = shape.bytes as int;
        let ghost per = 64int / width;
        let mut done: usize = 0;
        let mut epos: usize = self.enc_start;
        let mut dpos: usize = self.dec_start;
        let ghost mut block: int = 0;
        proof {
            if width == 1 {
                assert(per == 64);
            } else if width == 2 {
                lemma_fundamental_div_mod_converse(64, width, 32, 0);
            } else if width == 4 {
                lemma_fundamental_div_mod_converse(64, width, 16, 0);
            } else {
                lemma_fundamental_div_mod_converse(64, width, 8, 0);
            }
            assert(per * width == 64 && per >= 1) by (nonlinear_arith)
                requires
                    (per == 64 && width == 1) || (per == 32 && width == 2) || (per == 16 && width
                        == 4) || (per == 8 && width == 8),
            ;
            assert(chunk_bytes == per * bytes);
        }
        while done < self.pixels
            invariant
                done <= self.pixels,
                pf == self.process_fn,
                pf.format.is_plain(),
                map.source() == pf.format.channels_spec(),
                shape == pf.format.block_shape(),
                width == shape.width,
                bytes == shape.bytes,
                per * width == 64,
                per >= 1,
                chunk_bytes == per * bytes,
                bytes >= 1,
                to_bpp == target_bpp(pf, to),
                to == map.target(),
                len == decoded@.len(),
                len == old(decoded)@.len(),
                enc_len == encoded@.len(),
                start == self.dec_start,
                self.enc_start + run_bytes(pf.format, self.pixels as nat) <= enc_len,
                start + self.pixels * to_bpp <= len,
                block >= 0,
                done == block * width,
                epos == self.enc_start + block * bytes,
                dpos == start + done * to_bpp,
                adapted_run(
                    pf,
                    to,
                    encoded@,
                    self.enc_start as int,
                    old(decoded)@,
                    decoded@,
                    start,
                    done as int,
                ),
            decreases self.pixels - done,
        {
            let n: usize = if self.pixels - done < BUFFER_PIXELS {
                self.pixels - done
            } else {
                BUFFER_PIXELS
            };
            proof {
                // the chunk lies within the run
                lemma_block_in_run(pf.format, self.pixels as nat, (done + n - 1) as nat);
                lemma_block_in_run(pf.format, n as nat, (n - 1) as nat);
                let last = (n - 1) as int;
                let ql = last / width;
                vstd::arithmetic::div_mod::lemma_fundamental_div_mod(last, width);
                assert((block + ql) * width + last % width == done + last) by (nonlinear_arith)
                    requires
                        done == block * width,
                        last == width * ql + last % width,
                ;
                lemma_fundamental_div_mod_converse(done + last, width, block + ql, last % width);
                vstd::arithmetic::div_mod::lemma_fundamental_div_mod(n + width - 1, width);
                let nb = run_blocks(pf.format, n as nat) as int;
                assert(nb == ql + 1) by (nonlinear_arith)
                    requires
                        last == width * ql + last % width,
                        0 <= last % width < width,
                        n + width - 1 == width * nb + (n + width - 1) % width,
                        0 <= (n + width - 1) % width < width,
                        last == n - 1,
                ;
                assert((block + ql + 1) * bytes == block * bytes + nb * bytes) by (nonlinear_arith)
                    requires
                        nb == ql + 1,
                ;
                lemma_mul_le(0, block, bytes);
                assert((done + n) * to_bpp == done * to_bpp + n * to_bpp) by (nonlinear_arith);
                lemma_mul_le(done + n, self.pixels as int, to_bpp as int);
                lemma_mul_le(0, done as int, to_bpp as int);
            }
            let ghost mid = decoded@;
            map_chunk(pf, map, encoded, epos, decoded, dpos, n);
            proof {
                assert(done * to_bpp == block * width * to_bpp) by (nonlinear_arith)
                    requires
                        done == block * width,
                ;
                lemma_adapted_run_join(
                    pf,
                    to,
                    encoded@,
                    self.enc_start as int,
                    old(decoded)@,
                    mid,
                    decoded@,
                    start,
                    block,
                    n as int,
                );
            }
            done = done + n;
            dpos = dpos + n * to_bpp;
            if done < self.pixels {
                proof {
                    assert((block + per) * width == block * width + 64) by (nonlinear_arith)
                        requires
                            per * width == 64,
                    ;
                    assert((block + per) * bytes == block * bytes + per * bytes) by (nonlinear_arith);
                    // a further pixel follows, so the next chunk starts
                    // within the run
                    lemma_block_in_run(pf.format, self.pixels as nat, done as nat);
                    lemma_fundamental_div_mod_converse(done as int, width, block + per, 0);
                    lemma_mul_succ(block + per, bytes);
                    block = block + per;
                }
                epos = epos + chunk_bytes;
            } else {
                proof {
                    // the run is done: name its last block so that the
                    // invariant on whole blocks holds
                    assert(done == self.pixels);
                }
                return ;
            }
        }
    }

    /// Fills the output with a constant, 1 or 0, without decoding anything.
    pub fn fill(&self, encoded: &[u8], decoded: &mut [u8], one: bool, to: Channels)
        requires
            self.fits(to, encoded@, old(decoded)@),
            forall|k: nat|
                k < to.count_spec() ==> #[trigger] channel_source(
                    self.process_fn.format.channels_spec(),
                    to,
                    k,
                ) == (if one {
                    Source::One
                } else {
                    Source::Zero
                }),
        ensures
            self.adapted(to, encoded@, old(decoded)@, final(decoded)@),
    {
        let len: usize = decoded.len();
        let precision = self.process_fn.precision;
        let size: usize = precision.size() as usize;
        let count: usize = to.count() as usize;
        let value: u32 = if one {
            one_of(precision)
        } else {
            0
        };
        let ghost bpp = (count * size) as int;
        let ghost from = self.process_fn.format.channels_spec();
        let ghost start = self.dec_start as int;
        let mut x: usize = 0;
        let mut at: usize = self.dec_start;
        while x < self.pixels
            invariant
                x <= self.pixels,
                len == decoded@.len(),
                len == old(decoded)@.len(),
                size as nat == precision.size_spec(),
                count as nat == to.count_spec(),
                bpp == count * size,
                start == self.dec_start,
                start + self.pixels * bpp <= len,
                at == start + x * bpp,
                value == (if one {
                    one_value(precision)
                } else {
                    0u32
                }),
                forall|j: int|
                    start <= j < at ==> #[trigger] decoded@[j] == value_byte(
                        value,
                        (j - start) % (size as int),
                    ),
                forall|j: int|
                    0 <= j < start || at <= j < len ==> #[trigger] decoded@[j] == old(decoded)@[j],
            decreases self.pixels - x,
        {
            proof {
                lemma_mul_succ(x as int, bpp);
                lemma_mul_le(x + 1, self.pixels as int, bpp);
                lemma_mul_le(0, x as int, bpp);
                lemma_mul_le(0, count as int, size as int);
            }
            let mut k: usize = 0;
            let ghost pixel_start = at;
            while k < count
                invariant
                    k <= count,
                    len == decoded@.len(),
                    len == old(decoded)@.len(),
                    size as nat == precision.size_spec(),
                    bpp == count * size,
                    pixel_start == start + x * bpp,
                    pixel_start + bpp <= len,
                    at == pixel_start + k * size,
                    0 <= start <= pixel_start <= at <= pixel_start + bpp,
                    value == (if one {
                        one_value(precision)
                    } else {
                        0u32
                    }),
                    forall|j: int|
                        start <= j < at ==> #[trigger] decoded@[j] == value_byte(
                            value,
                            (j - start) % (size as int),
                        ),
                    forall|j: int|
                        0 <= j < start || at <= j < len ==> #[trigger] decoded@[j] == old(
                            decoded,
                        )@[j],
                decreases count - k,
            {
                proof {
                    lemma_mul_succ(k as int, size as int);
                    lemma_mul_le(k + 1, count as int, size as int);
                }
                store_value(decoded, at, value, precision);
                proof {
                    assert forall|j: int| at <= j < at + size implies #[trigger] decoded@[j]
                        == value_byte(value, (j - start) % (size as int)) by {

                        assert((x * count + k) * size == x * bpp + k * size) by (nonlinear_arith)
                            requires
                                bpp == count * size,
                        ;
                        lemma_fundamental_div_mod_converse(
                            j - start,
                            size as int,
                            x * count + k,
                            j - at,
                        );
                    }
                }
                at = at + size;
                k = k + 1;
            }
            x = x + 1;
        }
        proof {
            assert forall|i: int| 0 <= i < self.pixels implies #[trigger] pixel_at(
                decoded@,
                start,
                bpp,
                i,
            ) == adapted_pixel(
                from,
                to,
                precision,
                encoded_pixel(self.process_fn, encoded@, self.enc_start as int, i),
            ) by {
                lemma_mul_succ(i, bpp);
                lemma_mul_le(i + 1, self.pixels as int, bpp);
                lemma_mul_le(0, i, bpp);
                let got = pixel_at(decoded@, start, bpp, i);
                let want = adapted_pixel(
                    from,
                    to,
                    precision,
                    encoded_pixel(self.process_fn, encoded@, self.enc_start as int, i),
                );
                assert forall|t: int| 0 <= t < bpp implies got[t] == want[t] by {
                    vstd::arithmetic::div_mod::lemma_fundamental_div_mod(t, size as int);
                    assert(0 <= t / (size as int) < count) by (nonlinear_arith)
                        requires
                            0 <= t < count * size,
                            size > 0,
                            t == size * (t / (size as int)) + t % (size as int),
                            0 <= t % (size as int) < size,
                    ;
                    assert((i * count + t / (size as int)) * size + t % (size as int) == i * bpp
                        + t) by (nonlinear_arith)
                        requires
                            bpp == count * size,
                            t == size * (t / (size as int)) + t % (size as int),
                    ;
                    lemma_fundamental_div_mod_converse(
                        i * bpp + t,
                        size as int,
                        i * count + t / (size as int),
                        t % (size as int),
                    );
                    assert(channel_source(from, to, (t / (size as int)) as nat) == (if one {
                        Source::One
                    } else {
                        Source::Zero
                    }));
                }
                assert(got =~= want);
            }
        }
    }
}

/// Decodes the run of an adapter and brings its pixels from the native
/// channels `from` into the channels `to`.
pub fn adapt(
    adapter: &UncompressedAdapter,
    encoded: &[u8],
    decoded: &mut [u8],
    from: Channels,
    to: Channels,
    precision: Precision,
)
    requires
        from == adapter.process_fn.format.channels_spec(),
        precision == adapter.process_fn.precision,
        adapter.fits(to, encoded@, old(decoded)@),
    ensures
        adapter.adapted(to, encoded@, old(decoded)@, final(decoded)@),
{
    if from == to {
        adapter.direct(encoded, decoded);
        return ;
    }
    adapt_for(adapter, encoded, decoded, from, to)
}

/// Decodes the run of an adapter and brings its pixels from the native
/// channels `from` into the channels `to`: straight into the output where the
/// channels are equal, by filling where the target shares no channel with
/// the source, else by a per-pixel mapping.
pub fn adapt_for(
    adapter: &UncompressedAdapter,
    encoded: &[u8],
    decoded: &mut [u8],
    from: Channels,
    to: Channels,
)
    requires
        from == adapter.process_fn.format.channels_spec(),
        adapter.fits(to, encoded@, old(decoded)@),
    ensures
        adapter.adapted(to, encoded@, old(decoded)@, final(decoded)@),
{
    match (from, to) {
        // no conversion needed
        (Channels::Grayscale, Channels::Grayscale)
        | (Channels::Alpha, Channels::Alpha)
        | (Channels::Rgb, Channels::Rgb)
        | (Channels::Rgba, Channels::Rgba) => adapter.direct(encoded, decoded),
        // format without alpha to alpha
        (Channels::Grayscale, Channels::Alpha) | (Channels::Rgb, Channels::Alpha) => {
            adapter.fill(encoded, decoded, true, to);
        },
        // alpha to format without alpha
        (Channels::Alpha, Channels::Grayscale) | (Channels::Alpha, Channels::Rgb) => {
            adapter.fill(encoded, decoded, false, to);
        },
        (Channels::Grayscale, Channels::Rgb) => adapter.map(
            encoded,
            decoded,
            PixelMap::GrayscaleToRgb,
        ),
        (Channels::Grayscale, Channels::Rgba) => adapter.map(
            encoded,
            decoded,
            PixelMap::GrayscaleToRgba,
        ),
        (Channels::Alpha, Channels::Rgba) => adapter.map(encoded, decoded, PixelMap::AlphaToRgba),
        (Channels::Rgb, Channels::Grayscale) => adapter.map(
            encoded,
            decoded,
            PixelMap::RgbToGrayscale,
        ),
        (Channels::Rgb, Channels::Rgba) => adapter.map(encoded, decoded, PixelMap::RgbToRgba),
        (Channels::Rgba, Channels::Grayscale) => adapter.map(
            encoded,
            decoded,
            PixelMap::RgbaToGrayscale,
        ),
        (Channels::Rgba, Channels::Alpha) => adapter.map(encoded, decoded, PixelMap::RgbaToAlpha),
        (Channels::Rgba, Channels::Rgb) => adapter.map(encoded, decoded, PixelMap::RgbaToRgb),
    }
}

} // verus!
