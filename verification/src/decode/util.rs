//! Decoding in tiles: the pixels of a surface are taken in chunks of a
//! bounded number of encoded bytes, so that a caller who reads the encoded
//! bytes from a file needs a buffer of a fixed size only.

use vstd::prelude::*;
use crate::decode::adapt::{adapted_run, lemma_adapted_run_join, target_bpp, UncompressedAdapter};
use crate::decode::read_write::{lemma_mul_le, lemma_run_of_blocks, native_bpp, run_bytes,
    ProcessPixelsFn};

verus! {

/// The encoded bytes that one chunk holds at most: 64 KiB.
pub const TARGET: usize = 65536;

/// The plan of the chunks of a run of pixels: how many pixels a chunk holds,
/// and how many pixels are still to come.
#[derive(Debug, Clone, Copy, PartialEq, Eq, Structural)]
pub struct ReadBuffer {
    pub buf_pixels: usize,
    pub pixels_left: usize,
}

impl ReadBuffer {
    /// The plan for `pixels` pixels of `bytes_per_pixel` encoded bytes each:
    /// a chunk holds as many pixels as fit into 64 KiB, and not more than
    /// there are.
    pub fn new(pixels: usize, bytes_per_pixel: usize) -> (r: ReadBuffer)
        requires
            bytes_per_pixel > 0,
        ensures
            r.pixels_left == pixels,
            r.buf_pixels == if TARGET as int / bytes_per_pixel as int <= pixels {
                (TARGET as int / bytes_per_pixel as int) as usize
            } else {
                pixels
            },
            bytes_per_pixel <= TARGET && pixels > 0 ==> r.buf_pixels > 0,
    {
        let fit: usize = TARGET / bytes_per_pixel;
        proof {
            vstd::arithmetic::div_mod::lemma_fundamental_div_mod(
                TARGET as int,
                bytes_per_pixel as int,
            );
            if bytes_per_pixel <= TARGET {
                assert(fit >= 1) by (nonlinear_arith)
                    requires
                        65536 == bytes_per_pixel * fit + 65536int % (bytes_per_pixel as int),
                        65536int % (bytes_per_pixel as int) < bytes_per_pixel,
                        0 < bytes_per_pixel <= 65536,
                ;
            }
        }
        let buf_pixels: usize = if fit < pixels {
            fit
        } else {
            pixels
        };
        ReadBuffer { buf_pixels, pixels_left: pixels }
    }

    /// The number of pixels of the next chunk: a full chunk, or the pixels
    /// that are left where they are fewer. The pixels of the chunk are then
    /// no longer left.
    pub fn read(&mut self) -> (pixels_to_read: usize)
        ensures
            pixels_to_read == if old(self).buf_pixels < old(self).pixels_left {
                old(self).buf_pixels
            } else {
                old(self).pixels_left
            },
            final(self).pixels_left == old(self).pixels_left - pixels_to_read,
            final(self).buf_pixels == old(self).buf_pixels,
    {
        let pixels_to_read: usize = if self.buf_pixels < self.pixels_left {
            self.buf_pixels
        } else {
            self.pixels_left
        };
        self.pixels_left -= pixels_to_read;
        pixels_to_read
    }
}

/// Decodes a run of pixels of a format with one pixel to a block, chunk by
/// chunk, into their native colour.
pub fn for_each_pixel(pf: ProcessPixelsFn, encoded: &[u8], buf: &mut [u8], pixels: usize)
    requires
        pf.format.is_plain(),
        pf.format.block_shape().width == 1,
        run_bytes(pf.format, pixels as nat) <= encoded@.len(),
        pixels * native_bpp(pf) == old(buf)@.len(),
    ensures
        adapted_run(
            pf,
            pf.format.channels_spec(),
            encoded@,
            0,
            old(buf)@,
            final(buf)@,
            0,
            pixels as int,
        ),
{
    let len: usize = buf.len();
    let enc_len: usize = encoded.len();
    let shape = pf.format.block_shape_of();
    let bytes: usize = shape.bytes as usize;
    let bpp: usize = (pf.format.color().channels.count() * pf.precision.size()) as usize;
    let ghost to = pf.format.channels_spec();
    let mut read_buffer = ReadBuffer::new(pixels, bytes);
    let mut done: usize = 0;
    proof {
        lemma_run_of_blocks(pf.format, pixels as nat);
    }
    while read_buffer.pixels_left > 0
        invariant
            pf.format.is_plain(),
            shape == pf.format.block_shape(),
            shape.width == 1,
            bytes == shape.bytes,
            bpp == target_bpp(pf, to),
            to == pf.format.channels_spec(),
            len == buf@.len(),
            len == old(buf)@.len(),
            enc_len == encoded@.len(),
            pixels * bytes <= enc_len,
            pixels * bpp == len,
            done + read_buffer.pixels_left == pixels,
            read_buffer.buf_pixels > 0 || read_buffer.pixels_left == 0,
            adapted_run(pf, to, encoded@, 0, old(buf)@, buf@, 0, done as int),
        decreases read_buffer.pixels_left,
    {
        let n = read_buffer.read();
        proof {
            lemma_run_of_blocks(pf.format, n as nat);
            lemma_mul_le(done + n, pixels as int, bytes as int);
            lemma_mul_le(done + n, pixels as int, bpp as int);
            assert((done + n) * bytes == done * bytes + n * bytes) by (nonlinear_arith);
            assert((done + n) * bpp == done * bpp + n * bpp) by (nonlinear_arith);
            lemma_mul_le(0, done as int, bytes as int);
            lemma_mul_le(0, done as int, bpp as int);
        }
        let adapter = UncompressedAdapter {
            process_fn: pf,
            enc_start: done * bytes,
            dec_start: done * bpp,
            pixels: n,
        };
        let ghost mid = buf@;
        adapter.direct(encoded, buf);
        proof {
            assert(done * 1 * target_bpp(pf, to) == done * bpp) by (nonlinear_arith)
                requires
                    bpp == target_bpp(pf, to),
            ;
            lemma_adapted_run_join(
                pf,
                to,
                encoded@,
                0,
                old(buf)@,
                mid,
                buf@,
                0,
                done as int,
                n as int,
            );
        }
        done = done + n;
    }
}

} // verus!
