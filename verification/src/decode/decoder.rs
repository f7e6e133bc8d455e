//! The decoder registry: which pixel processors a format has, how one is
//! picked for the colour format that a caller asks for, and the checks that
//! come before any byte is decoded.

use vstd::prelude::*;
use crate::decode::block_surface::{block_rect_outcome, block_surface_bytes, decode_block_rect,
    decode_block_surface};
use crate::decode::read_write::{PixelSize, ProcessPixelsFn};
use crate::decode::surface::{decoded_surface, for_each_pixel_rect_untyped,
    for_each_pixel_untyped, plain_surface_bytes, rect_outcome};
use crate::error::DecodeError;
use crate::format::Format;
use crate::pixel::{Channels, ColorFormat, ColorFormatSet, Precision, Rect, Size};

verus! {

/// Limits for decoding.
#[derive(Debug, Clone, Copy, PartialEq, Eq, Structural)]
pub struct DecodeOptions {
    /// How many bytes of scratch memory decoding may take.
    pub memory_limit: usize,
}

/// What a decoder works towards: the colour format asked for, the size of
/// the surface, and the scratch memory that is left.
#[derive(Debug, Clone, Copy, PartialEq, Eq, Structural)]
pub struct DecodeContext {
    pub color: ColorFormat,
    pub size: Size,
    pub memory_limit: usize,
}

impl DecodeContext {
    /// Takes `bytes` from the memory that is left, or fails where less is
    /// left and takes nothing.
    pub fn reserve_bytes(&mut self, bytes: usize) -> (r: Result<(), DecodeError>)
        ensures
            final(self).color == old(self).color,
            final(self).size == old(self).size,
            old(self).memory_limit >= bytes ==> r == Ok::<(), DecodeError>(())
                && final(self).memory_limit == old(self).memory_limit - bytes,
            old(self).memory_limit < bytes ==> r == Err::<(), DecodeError>(
                DecodeError::MemoryLimitExceeded,
            ) && final(self).memory_limit == old(self).memory_limit,
    {
        if self.memory_limit < bytes {
            return Err(DecodeError::MemoryLimitExceeded);
        }
        self.memory_limit -= bytes;
        Ok(())
    }

    /// A zeroed buffer of `len` elements of `element_size` bytes each,
    /// charged to the memory that is left. Fails where the buffer does not
    /// fit into that memory.
    pub fn alloc_zeroed(&mut self, len: usize, element_size: usize) -> (r: Result<Vec<u8>, DecodeError>)
        ensures
            final(self).color == old(self).color,
            final(self).size == old(self).size,
            len * element_size <= old(self).memory_limit ==> r.is_ok()
                && final(self).memory_limit == old(self).memory_limit - len * element_size
                && r.unwrap()@ == Seq::new((len * element_size) as nat, |i: int| 0u8),
            len * element_size > old(self).memory_limit ==> r == Err::<Vec<u8>, DecodeError>(
                DecodeError::MemoryLimitExceeded,
            ) && final(self).memory_limit == old(self).memory_limit,
    {
        let bytes = match len.checked_mul(element_size) {
            Some(bytes) => bytes,
            None => {
                return Err(DecodeError::MemoryLimitExceeded);
            },
        };
        match self.reserve_bytes(bytes) {
            Ok(()) => {},
            Err(e) => {
                return Err(e);
            },
        }
        let mut buffer: Vec<u8> = Vec::new();
        let mut i: usize = 0;
        while i < bytes
            invariant
                i <= bytes,
                buffer@ == Seq::new(i as nat, |j: int| 0u8),
            decreases bytes - i,
        {
            buffer.push(0);
            i = i + 1;
            assert(buffer@ =~= Seq::new(i as nat, |j: int| 0u8));
        }
        Ok(buffer)
    }

    /// An empty buffer with room for `len` elements of `element_size` bytes
    /// each, charged to the memory that is left.
    pub fn alloc_capacity(&mut self, len: usize, element_size: usize) -> (r: Result<
        Vec<u8>,
        DecodeError,
    >)
        ensures
            final(self).color == old(self).color,
            final(self).size == old(self).size,
            len * element_size <= old(self).memory_limit ==> r.is_ok()
                && final(self).memory_limit == old(self).memory_limit - len * element_size
                && r.unwrap()@.len() == 0,
            len * element_size > old(self).memory_limit ==> r == Err::<Vec<u8>, DecodeError>(
                DecodeError::MemoryLimitExceeded,
            ) && final(self).memory_limit == old(self).memory_limit,
    {
        let bytes = match len.checked_mul(element_size) {
            Some(bytes) => bytes,
            None => {
                return Err(DecodeError::MemoryLimitExceeded);
            },
        };
        match self.reserve_bytes(bytes) {
            Ok(()) => {},
            Err(e) => {
                return Err(e);
            },
        }
        Ok(Vec::with_capacity(bytes))
    }
}

/// The length in bytes of a decoded surface, or the largest number that a
/// length can be where the surface is longer than that.
pub open spec fn decoded_len(size: Size, color: ColorFormat) -> nat {
    let exact = size.pixels_spec() * color.bpp();
    if exact > usize::MAX {
        usize::MAX as nat
    } else {
        exact
    }
}

/// The length in bytes of a decoded surface, exact where `fits` is set.
pub struct SurfaceLen {
    pub len: usize,
    pub fits: bool,
}

/// The length in bytes of a decoded surface.
pub fn surface_len(size: Size, color: ColorFormat) -> (r: SurfaceLen)
    ensures
        r.len as nat == decoded_len(size, color),
        r.fits == (size.pixels_spec() * color.bpp() <= usize::MAX),
{
    let pixels = size.pixels();
    let bpp = color.bytes_per_pixel() as u64;
    assert(pixels * bpp <= 0xFFFF_FFFF * 0xFFFF_FFFF * 16) by (nonlinear_arith)
        requires
            pixels <= 0xFFFF_FFFF * 0xFFFF_FFFF,
            bpp <= 16,
    ;
    let exact: u128 = pixels as u128 * bpp as u128;
    if exact > usize::MAX as u128 {
        SurfaceLen { len: usize::MAX, fits: false }
    } else {
        SurfaceLen { len: exact as usize, fits: true }
    }
}

/// The checked arguments of a decoder of whole surfaces.
#[derive(Debug, Clone, Copy, PartialEq, Eq, Structural)]
pub struct Args(pub DecodeContext);

impl Args {
    /// Checks that an output buffer of `output_len` bytes has the length of
    /// the decoded surface.
    pub fn new(output_len: usize, context: DecodeContext) -> (r: Result<Args, DecodeError>)
        ensures
            output_len == context.size.pixels_spec() * context.color.bpp() ==> r == Ok::<
                Args,
                DecodeError,
            >(Args(context)),
            output_len != context.size.pixels_spec() * context.color.bpp() ==> r == Err::<
                Args,
                DecodeError,
            >(
                DecodeError::UnexpectedBufferSize {
                    expected: decoded_len(context.size, context.color) as usize,
                },
            ),
    {
        let required = surface_len(context.size, context.color);
        if !required.fits || output_len != required.len {
            return Err(DecodeError::UnexpectedBufferSize { expected: required.len });
        }
        Ok(Args(context))
    }

    pub fn color(&self) -> (c: ColorFormat)
        ensures
            c == self.0.color,
    {
        self.0.color
    }
}

/// The smallest row pitch for a rectangle, or the largest number that a
/// length can be where a row is longer than that.
pub open spec fn min_row_pitch(rect: Rect, color: ColorFormat) -> nat {
    let exact = (rect.width as nat) * color.bpp();
    if exact > usize::MAX {
        usize::MAX as nat
    } else {
        exact
    }
}

/// The smallest output buffer for a rectangle under a row pitch, or the
/// largest number that a length can be where the rows are longer than that.
pub open spec fn min_rect_len(rect: Rect, row_pitch: usize) -> nat {
    let exact = (row_pitch as nat) * (rect.height as nat);
    if exact > usize::MAX {
        usize::MAX as nat
    } else {
        exact
    }
}

/// The checked arguments of a decoder of rectangles: the row pitch, the
/// rectangle, and the context.
#[derive(Debug, Clone, Copy, PartialEq, Eq, Structural)]
pub struct RArgs(pub usize, pub Rect, pub DecodeContext);

impl RArgs {
    /// What the check of the arguments of a rectangle decoder gives.
    pub open spec fn check(output_len: usize, row_pitch: usize, rect: Rect, context: DecodeContext) -> Result<
        RArgs,
        DecodeError,
    > {
        if !rect.within(context.size) {
            Err(DecodeError::RectOutOfBounds)
        } else if row_pitch < (rect.width as nat) * context.color.bpp() {
            Err(
                DecodeError::RowPitchTooSmall {
                    required_minimum: min_row_pitch(rect, context.color) as usize,
                },
            )
        } else if output_len < (row_pitch as nat) * (rect.height as nat) {
            Err(
                DecodeError::RectBufferTooSmall {
                    required_minimum: min_rect_len(rect, row_pitch) as usize,
                },
            )
        } else {
            Ok(RArgs(row_pitch, rect, context))
        }
    }

    /// Checks that the rectangle lies within the surface, that the row pitch
    /// holds a row of the rectangle, and that an output buffer of
    /// `output_len` bytes holds all its rows.
    pub fn new(output_len: usize, row_pitch: usize, rect: Rect, context: DecodeContext) -> (r:
        Result<RArgs, DecodeError>)
        ensures
            r == Self::check(output_len, row_pitch, rect, context),
            r.is_ok() ==> (rect.width as nat) * context.color.bpp() <= row_pitch && (
            row_pitch as nat) * (rect.height as nat) <= output_len,
    {
        // Check that the rect is within the bounds of the image.
        if !rect.is_within_bounds(context.size) {
            return Err(DecodeError::RectOutOfBounds);
        }
        // Check row pitch
        let bpp = context.color.bytes_per_pixel();
        assert(rect.width * bpp <= 0xFFFF_FFFF * 16) by (nonlinear_arith)
            requires
                rect.width <= 0xFFFF_FFFF,
                bpp <= 16,
        ;
        let exact_pitch: u64 = rect.width as u64 * bpp as u64;
        let min_row_pitch: usize = if exact_pitch > usize::MAX as u64 {
            usize::MAX
        } else {
            exact_pitch as usize
        };
        if (row_pitch as u128) < exact_pitch as u128 {
            return Err(DecodeError::RowPitchTooSmall { required_minimum: min_row_pitch });
        }
        // Check that the buffer is long enough
        // saturate to usize::MAX on overflow
        assert(row_pitch * rect.height <= usize::MAX * 0xFFFF_FFFF) by (nonlinear_arith)
            requires
                row_pitch <= usize::MAX,
                rect.height <= 0xFFFF_FFFF,
        ;
        let exact_len: u128 = row_pitch as u128 * rect.height as u128;
        let required_bytes: usize = if exact_len > usize::MAX as u128 {
            usize::MAX
        } else {
            exact_len as usize
        };
        if (output_len as u128) < exact_len {
            return Err(DecodeError::RectBufferTooSmall { required_minimum: required_bytes });
        }
        proof {
            assert(exact_pitch as nat == (rect.width as nat) * context.color.bpp());
            assert(exact_len as nat == (row_pitch as nat) * (rect.height as nat));
        }
        Ok(RArgs(row_pitch, rect, context))
    }

    pub fn color(&self) -> (c: ColorFormat)
        ensures
            c == self.2.color,
    {
        self.2.color
    }
}

/// A decoder for a format that stores its channels one by one: a single
/// pixel processor that serves whole surfaces and rectangles alike.
#[derive(Debug, Clone, Copy, PartialEq, Eq, Structural)]
pub struct UncompressedDecoder {
    pub process_fn: ProcessPixelsFn,
    pub native_color: ColorFormat,
    pub pixel_size: PixelSize,
}

impl UncompressedDecoder {
    /// The decoder is consistent: its pixel processor exists, decodes to the
    /// precision of the native colour, the native colour has the native
    /// channels of the format, and the sizes are those of the format and of
    /// the native colour.
    pub open spec fn wf(self) -> bool {
        &&& self.process_fn.format.is_plain()
        &&& self.native_color.precision == self.process_fn.precision
        &&& self.native_color.channels == self.process_fn.format.channels_spec()
        &&& self.pixel_size.encoded_size == self.process_fn.format.block_shape().bytes
        &&& self.pixel_size.decoded_size as nat == self.native_color.bpp()
    }

    /// A decoder that gives pixels of colour `color` by the pixel processor
    /// `process_fn`, from blocks of `encoded_size` bytes to pixels of
    /// `decoded_size` bytes.
    pub fn new(color: ColorFormat, process_fn: ProcessPixelsFn, encoded_size: u8, decoded_size: u8) -> (d:
        UncompressedDecoder)
        requires
            decoded_size as nat == color.bpp(),
        ensures
            d.process_fn == process_fn,
            d.native_color == color,
            d.pixel_size == (PixelSize { encoded_size, decoded_size }),
    {
        UncompressedDecoder {
            process_fn,
            native_color: color,
            pixel_size: PixelSize { encoded_size, decoded_size },
        }
    }
}

/// The decoders of a format that stores its channels one by one: exactly one
/// per precision.
pub struct UncompressedDecoderSet {
    pub decoders: Vec<UncompressedDecoder>,
}

/// Whether the precisions of the first `n` decoders are all different.
pub open spec fn precisions_distinct(decoders: Seq<UncompressedDecoder>, n: int) -> bool {
    forall|i: int, j: int|
        0 <= i < j < n ==> (#[trigger] decoders[i]).native_color.precision
            != (#[trigger] decoders[j]).native_color.precision
}

/// Whether the first `n` decoders decode to the channels of the first one.
pub open spec fn same_channels(decoders: Seq<UncompressedDecoder>, n: int) -> bool {
    forall|i: int|
        0 <= i < n ==> (#[trigger] decoders[i]).native_color.channels
            == decoders[0].native_color.channels
}

/// Whether one of the first `n` decoders has the precision.
pub open spec fn has_precision(decoders: Seq<UncompressedDecoder>, n: int, precision: Precision) -> bool {
    exists|i: int| 0 <= i < n && (#[trigger] decoders[i]).native_color.precision == precision
}

/// What makes a list of decoders a valid set: it holds exactly three
/// decoders, one for each precision, and all of them decode to the same
/// channels, the native channels of the format.
pub open spec fn valid_decoders(decoders: Seq<UncompressedDecoder>) -> bool {
    &&& decoders.len() == 3
    &&& precisions_distinct(decoders, 3)
    &&& same_channels(decoders, 3)
}

/// A valid set has a decoder for every precision.
pub proof fn lemma_every_precision(decoders: Seq<UncompressedDecoder>, precision: Precision)
    requires
        valid_decoders(decoders),
    ensures
        has_precision(decoders, 3, precision),
{
    let a = decoders[0].native_color.precision;
    let b = decoders[1].native_color.precision;
    let c = decoders[2].native_color.precision;
    assert(a != b && a != c && b != c);
    let at: int = if a == precision {
        0
    } else if b == precision {
        1
    } else {
        2
    };
    assert(decoders[at].native_color.precision == precision);
}

impl UncompressedDecoderSet {
    /// The set is valid and every decoder in it is consistent and of one
    /// format.
    pub open spec fn wf(self) -> bool {
        &&& valid_decoders(self.decoders@)
        &&& forall|i: int|
            0 <= i < self.decoders@.len() ==> (#[trigger] self.decoders@[i]).wf()
                && self.decoders@[i].process_fn.format == self.decoders@[0].process_fn.format
    }

    /// The format that the set decodes.
    pub open spec fn format(self) -> Format {
        self.decoders@[0].process_fn.format
    }

    pub fn new(decoders: Vec<UncompressedDecoder>) -> (s: UncompressedDecoderSet)
        requires
            valid_decoders(decoders@),
        ensures
            s.decoders == decoders,
    {
        UncompressedDecoderSet { decoders }
    }

    /// Whether a list of decoders is a valid set: it holds exactly three
    /// decoders, one for each precision, all for the same channels.
    pub fn verify(decoders: &Vec<UncompressedDecoder>) -> (ok: bool)
        ensures
            ok == valid_decoders(decoders@),
    {
        // 1. There are exactly three decoders.
        if decoders.len() != 3 {
            return false;
        }
        // 2. No precision occurs twice, and every decoder decodes to the
        // channels of the first one.
        let channels = decoders[0].native_color.channels;
        let mut has_u8 = false;
        let mut has_u16 = false;
        let mut has_single = false;
        let mut j: usize = 0;
        while j < decoders.len()
            invariant
                j <= decoders@.len(),
                decoders@.len() == 3,
                channels == decoders@[0].native_color.channels,
                precisions_distinct(decoders@, j as int),
                same_channels(decoders@, j as int),
                has_u8 == has_precision(decoders@, j as int, Precision::U8),
                has_u16 == has_precision(decoders@, j as int, Precision::U16),
                has_single == has_precision(decoders@, j as int, Precision::F32),
            decreases decoders@.len() - j,
        {
            let color = decoders[j].native_color;
            if !(color.channels == channels) {
                return false;
            }
            let seen = match color.precision {
                Precision::U8 => has_u8,
                Precision::U16 => has_u16,
                Precision::F32 => has_single,
            };
            if seen {
                proof {
                    let k = choose|k: int|
                        0 <= k < j && (#[trigger] decoders@[k]).native_color.precision
                            == color.precision;
                    assert(decoders@[k].native_color.precision
                        == decoders@[j as int].native_color.precision);
                }
                return false;
            }
            match color.precision {
                Precision::U8 => {
                    has_u8 = true;
                },
                Precision::U16 => {
                    has_u16 = true;
                },
                Precision::F32 => {
                    has_single = true;
                },
            }
            proof {
                lemma_has_precision_step(decoders@, j as int, Precision::U8);
                lemma_has_precision_step(decoders@, j as int, Precision::U16);
                lemma_has_precision_step(decoders@, j as int, Precision::F32);
            }
            j = j + 1;
        }
        true
    }

    /// The native colour of the format: that of the first decoder.
    pub fn native_color(&self) -> (c: ColorFormat)
        requires
            self.wf(),
        ensures
            c == self.decoders@[0].native_color,
    {
        self.decoders[0].native_color
    }

    /// The decoder to use for a colour format: the one with that native
    /// colour where there is one, else the first one of its precision.
    pub fn get_closest_process_fn(&self, color: ColorFormat) -> (d: UncompressedDecoder)
        requires
            self.wf(),
        ensures
            d.wf(),
            d.process_fn.format == self.format(),
            d.native_color.precision == color.precision,
            exists|i: int| 0 <= i < self.decoders@.len() && self.decoders@[i] == d,
            (exists|i: int|
                0 <= i < self.decoders@.len() && (#[trigger] self.decoders@[i]).native_color
                    == color) ==> d.native_color == color,
    {
        // Try to find one that matches the native color exactly
        let mut i: usize = 0;
        while i < self.decoders.len()
            invariant
                i <= self.decoders@.len(),
                self.wf(),
                forall|k: int| 0 <= k < i ==> (#[trigger] self.decoders@[k]).native_color != color,
            decreases self.decoders@.len() - i,
        {
            let d = self.decoders[i];
            if d.native_color == color {
                return d;
            }
            i = i + 1;
        }
        // Find any with the same precision
        let mut j: usize = 0;
        while j < self.decoders.len()
            invariant
                j <= self.decoders@.len(),
                self.wf(),
                forall|k: int|
                    0 <= k < self.decoders@.len() ==> (#[trigger] self.decoders@[k]).native_color
                        != color,
                forall|k: int|
                    0 <= k < j ==> (#[trigger] self.decoders@[k]).native_color.precision
                        != color.precision,
            decreases self.decoders@.len() - j,
        {
            let d = self.decoders[j];
            if d.native_color.precision == color.precision {
                return d;
            }
            j = j + 1;
        }
        proof {
            // every precision occurs in a valid set
            lemma_every_precision(self.decoders@, color.precision);
            let k = choose|k: int|
                0 <= k < 3 && (#[trigger] self.decoders@[k]).native_color.precision
                    == color.precision;
            assert(self.decoders@[k].native_color.precision == color.precision);
            assert(false);
        }
        self.decoders[0]
    }

    /// Decodes a whole surface.
    pub fn decode(&self, encoded: &[u8], output: &mut [u8], args: Args) -> (r: Result<
        (),
        DecodeError,
    >)
        requires
            self.wf(),
            old(output)@.len() == args.0.size.pixels_spec() * args.0.color.bpp(),
        ensures
            final(output)@.len() == old(output)@.len(),
            encoded@.len() < plain_surface_bytes(self.format(), args.0.size) ==> r == Err::<
                (),
                DecodeError,
            >(DecodeError::UnexpectedEof) && final(output)@ == old(output)@,
            encoded@.len() >= plain_surface_bytes(self.format(), args.0.size) ==> r == Ok::<
                (),
                DecodeError,
            >(()) && decoded_surface(
                ProcessPixelsFn { format: self.format(), precision: args.0.color.precision },
                args.0.color.channels,
                encoded@,
                args.0.size,
                final(output)@,
            ),
    {
        let decoder = self.get_closest_process_fn(args.color());
        for_each_pixel_untyped(
            encoded,
            output,
            args.0,
            decoder.native_color,
            decoder.pixel_size,
            decoder.process_fn,
        )
    }

    /// Decodes a rectangle of a surface.
    pub fn decode_rect(&self, encoded: &[u8], output: &mut [u8], args: RArgs) -> (r: Result<
        (),
        DecodeError,
    >)
        requires
            self.wf(),
            args.1.within(args.2.size),
            args.1.width * args.2.color.bpp() <= args.0,
            args.0 * args.1.height <= old(output)@.len(),
        ensures
            rect_outcome(
                ProcessPixelsFn { format: self.format(), precision: args.2.color.precision },
                args.2.color.channels,
                encoded@,
                args.2.size,
                args.1,
                args.0 as int,
                args.2.memory_limit,
                old(output)@,
                final(output)@,
                r,
            ),
    {
        let decoder = self.get_closest_process_fn(args.color());
        for_each_pixel_rect_untyped(
            encoded,
            output,
            args.0,
            args.2,
            args.1,
            decoder.native_color,
            decoder.pixel_size,
            decoder.process_fn,
        )
    }
}

/// A decoder of whole block-compressed surfaces: the format and the
/// precision that it decodes to, in any channels.
#[derive(Debug, Clone, Copy, PartialEq, Eq, Structural)]
pub struct DecodeFn(pub ProcessPixelsFn);

/// A decoder of rectangles of block-compressed surfaces: the format and the
/// precision that it decodes to, in any channels.
#[derive(Debug, Clone, Copy, PartialEq, Eq, Structural)]
pub struct DecodeRectFn(pub ProcessPixelsFn);

/// A decoder that is used as it is, without a channel adapter around it.
#[derive(Debug, Clone, Copy, PartialEq, Eq, Structural)]
pub struct DirectDecoder {
    pub native_color: ColorFormat,
    pub supported_colors: ColorFormatSet,
    pub decode_fn: DecodeFn,
    pub decode_rect_fn: DecodeRectFn,
}

impl DirectDecoder {
    /// The decoder is consistent: it is for a block-compressed format, its
    /// two functions are for the same format and decode to the precision of
    /// the native colour, and it supports the colours of that precision.
    pub open spec fn wf(self) -> bool {
        &&& self.decode_fn.0.format.is_bcn()
        &&& self.decode_rect_fn.0 == self.decode_fn.0
        &&& self.decode_fn.0.precision == self.native_color.precision
        &&& forall|c: ColorFormat|
            self.supported_colors.contains_spec(c) <==> c.precision == self.native_color.precision
    }

    /// A decoder with native colour `color` that supports all channels of
    /// the precision of that colour.
    pub fn new_with_all_channels(color: ColorFormat, decode_fn: DecodeFn, decode_rect_fn: DecodeRectFn) -> (d:
        DirectDecoder)
        ensures
            d.native_color == color,
            d.decode_fn == decode_fn,
            d.decode_rect_fn == decode_rect_fn,
            forall|c: ColorFormat|
                d.supported_colors.contains_spec(c) <==> c.precision == color.precision,
    {
        DirectDecoder {
            native_color: color,
            supported_colors: ColorFormatSet::from_precision(color.precision),
            decode_fn,
            decode_rect_fn,
        }
    }
}

/// The decoders of a block-compressed format: together they support every
/// colour format.
pub struct DirectDecoderSet {
    pub decoders: Vec<DirectDecoder>,
}

/// Whether one of the first `n` decoders supports the colour format.
pub open spec fn supports_color(decoders: Seq<DirectDecoder>, n: int, color: ColorFormat) -> bool {
    exists|i: int| 0 <= i < n && (#[trigger] decoders[i]).supported_colors.contains_spec(color)
}

impl DirectDecoderSet {
    /// The set is not empty, supports every colour format, and every decoder
    /// in it is consistent and of one format.
    pub open spec fn wf(self) -> bool {
        &&& self.decoders@.len() > 0
        &&& forall|c: ColorFormat| supports_color(self.decoders@, self.decoders@.len() as int, c)
        &&& forall|i: int|
            0 <= i < self.decoders@.len() ==> (#[trigger] self.decoders@[i]).wf()
                && self.decoders@[i].decode_fn.0.format == self.decoders@[0].decode_fn.0.format
    }

    /// The format that the set decodes.
    pub open spec fn format(self) -> Format {
        self.decoders@[0].decode_fn.0.format
    }

    pub fn new(decoders: Vec<DirectDecoder>) -> (s: DirectDecoderSet)
        requires
            decoders@.len() > 0,
            forall|c: ColorFormat| supports_color(decoders@, decoders@.len() as int, c),
        ensures
            s.decoders == decoders,
    {
        DirectDecoderSet { decoders }
    }

    /// The native colour of the format: that of the first decoder.
    pub fn native_color(&self) -> (c: ColorFormat)
        requires
            self.wf(),
        ensures
            c == self.decoders@[0].native_color,
    {
        self.decoders[0].native_color
    }

    /// The decoder to use for a colour format: the one with that native
    /// colour where there is one, else the first one that supports it.
    pub fn get_decoder(&self, color: ColorFormat) -> (d: DirectDecoder)
        requires
            self.wf(),
        ensures
            d.wf(),
            d.decode_fn.0.format == self.format(),
            d.decode_fn.0.precision == color.precision,
            exists|i: int| 0 <= i < self.decoders@.len() && self.decoders@[i] == d,
    {
        // try to find an exact match
        let mut i: usize = 0;
        while i < self.decoders.len()
            invariant
                i <= self.decoders@.len(),
                self.wf(),
            decreases self.decoders@.len() - i,
        {
            let d = self.decoders[i];
            if d.native_color == color {
                return d;
            }
            i = i + 1;
        }
        // get any decoder that supports the colour
        let mut j: usize = 0;
        while j < self.decoders.len()
            invariant
                j <= self.decoders@.len(),
                self.wf(),
                forall|k: int|
                    0 <= k < j ==> !(#[trigger] self.decoders@[k]).supported_colors.contains_spec(
                        color,
                    ),
            decreases self.decoders@.len() - j,
        {
            let d = self.decoders[j];
            if d.supported_colors.contains(color) {
                return d;
            }
            j = j + 1;
        }
        proof {
            // all colour formats are supported
            assert(supports_color(self.decoders@, self.decoders@.len() as int, color));
            assert(false);
        }
        self.decoders[0]
    }

    /// Decodes a whole surface.
    pub fn decode(&self, encoded: &[u8], output: &mut [u8], args: Args) -> (r: Result<
        (),
        DecodeError,
    >)
        requires
            self.wf(),
            old(output)@.len() == args.0.size.pixels_spec() * args.0.color.bpp(),
        ensures
            final(output)@.len() == old(output)@.len(),
            args.0.size.height > 0 && encoded@.len() < block_surface_bytes(
                self.format(),
                args.0.size,
            ) ==> r == Err::<(), DecodeError>(DecodeError::UnexpectedEof) && final(output)@
                == old(output)@,
            args.0.size.height == 0 || encoded@.len() >= block_surface_bytes(
                self.format(),
                args.0.size,
            ) ==> r == Ok::<(), DecodeError>(()) && decoded_surface(
                ProcessPixelsFn { format: self.format(), precision: args.0.color.precision },
                args.0.color.channels,
                encoded@,
                args.0.size,
                final(output)@,
            ),
    {
        let decoder = self.get_decoder(args.color());
        decode_block_surface(decoder.decode_fn.0, encoded, output, args.0)
    }

    /// Decodes a rectangle of a surface.
    pub fn decode_rect(&self, encoded: &[u8], output: &mut [u8], args: RArgs) -> (r: Result<
        (),
        DecodeError,
    >)
        requires
            self.wf(),
            args.1.within(args.2.size),
            args.1.width * args.2.color.bpp() <= args.0,
            args.0 * args.1.height <= old(output)@.len(),
        ensures
            block_rect_outcome(
                ProcessPixelsFn { format: self.format(), precision: args.2.color.precision },
                args.2.color.channels,
                encoded@,
                args.2.size,
                args.1,
                args.0 as int,
                old(output)@,
                final(output)@,
                r,
            ),
    {
        let decoder = self.get_decoder(args.color());
        decode_block_rect(decoder.decode_rect_fn.0, encoded, output, args.0, args.2, args.1)
    }
}

/// The two kinds of decoder list.
pub enum Inner {
    List(DirectDecoderSet),
    Uncompressed(UncompressedDecoderSet),
}

/// A decoder for whole surfaces of one colour format that takes the place
/// of the listed decoders for that colour format.
#[derive(Debug, Clone, Copy, PartialEq, Eq, Structural)]
pub struct SpecializedDecodeFn {
    pub decode_fn: DecodeFn,
    pub color: ColorFormat,
}

/// All decoders of a format.
pub struct DecoderSet {
    pub decoders: Inner,
    pub optimized: Option<SpecializedDecodeFn>,
}

/// Bytes of an encoded surface.
pub open spec fn surface_bytes(format: Format, size: Size) -> nat {
    if format.is_bcn() {
        block_surface_bytes(format, size)
    } else {
        plain_surface_bytes(format, size)
    }
}

/// What decoding a surface gives.
///
/// The length of the output is checked first. A surface without pixels is
/// not decoded. Then the encoded bytes must hold the whole surface. Where
/// an error is returned, the output is as it was.
pub open spec fn decode_outcome(
    format: Format,
    color: ColorFormat,
    encoded: Seq<u8>,
    size: Size,
    before: Seq<u8>,
    after: Seq<u8>,
    r: Result<(), DecodeError>,
) -> bool {
    &&& after.len() == before.len()
    &&& if before.len() != size.pixels_spec() * color.bpp() {
        r == Err::<(), DecodeError>(
            DecodeError::UnexpectedBufferSize { expected: decoded_len(size, color) as usize },
        ) && after == before
    } else if size.is_empty_spec() {
        r == Ok::<(), DecodeError>(()) && after == before
    } else if encoded.len() < surface_bytes(format, size) {
        r == Err::<(), DecodeError>(DecodeError::UnexpectedEof) && after == before
    } else {
        r == Ok::<(), DecodeError>(()) && decoded_surface(
            ProcessPixelsFn { format, precision: color.precision },
            color.channels,
            encoded,
            size,
            after,
        )
    }
}

/// What decoding a rectangle of a surface gives.
///
/// The rectangle, the row pitch and the length of the output are checked
/// first. A rectangle without pixels is not decoded. Then the encoded bytes
/// must hold the whole surface, and the scratch row that a rectangle needs
/// where it starts within a block must fit into the memory limit. Where an
/// error is returned, the output is as it was.
pub open spec fn decode_rect_outcome(
    format: Format,
    color: ColorFormat,
    encoded: Seq<u8>,
    size: Size,
    rect: Rect,
    row_pitch: usize,
    memory_limit: usize,
    before: Seq<u8>,
    after: Seq<u8>,
    r: Result<(), DecodeError>,
) -> bool {
    let context = DecodeContext { color, size, memory_limit };
    let pf = ProcessPixelsFn { format, precision: color.precision };
    &&& after.len() == before.len()
    &&& match RArgs::check(before.len() as usize, row_pitch, rect, context) {
        Err(e) => r == Err::<(), DecodeError>(e) && after == before,
        Ok(_) => if rect.width == 0 || rect.height == 0 {
            r == Ok::<(), DecodeError>(()) && after == before
        } else if format.is_bcn() {
            block_rect_outcome(pf, color.channels, encoded, size, rect, row_pitch as int, before, after, r)
        } else {
            rect_outcome(
                pf,
                color.channels,
                encoded,
                size,
                rect,
                row_pitch as int,
                memory_limit,
                before,
                after,
                r,
            )
        },
    }
}

impl DecoderSet {
    /// The list of decoders is valid, and a specialised decoder is for the
    /// same format.
    pub open spec fn wf(self) -> bool {
        &&& match self.decoders {
            Inner::List(list) => list.wf(),
            Inner::Uncompressed(list) => list.wf(),
        }
        &&& match self.optimized {
            Some(f) => f.decode_fn.0.format == self.format() && f.decode_fn.0.format.is_bcn()
                && f.decode_fn.0.precision == f.color.precision,
            None => true,
        }
    }

    /// The format that the set decodes.
    pub open spec fn format(self) -> Format {
        match self.decoders {
            Inner::List(list) => list.format(),
            Inner::Uncompressed(list) => list.format(),
        }
    }

    /// The native colour of the format.
    pub open spec fn native_color_spec(self) -> ColorFormat {
        match self.decoders {
            Inner::List(list) => list.decoders@[0].native_color,
            Inner::Uncompressed(list) => list.decoders@[0].native_color,
        }
    }

    /// A set of decoders that are used as they are.
    pub fn new(decoders: Vec<DirectDecoder>) -> (s: DecoderSet)
        requires
            decoders@.len() > 0,
            forall|c: ColorFormat| supports_color(decoders@, decoders@.len() as int, c),
        ensures
            s.decoders matches Inner::List(list) && list.decoders == decoders,
            s.optimized.is_none(),
    {
        DecoderSet { decoders: Inner::List(DirectDecoderSet::new(decoders)), optimized: None }
    }

    /// A set of decoders of a format that stores its channels one by one.
    pub fn new_uncompressed(decoders: Vec<UncompressedDecoder>) -> (s: DecoderSet)
        requires
            valid_decoders(decoders@),
        ensures
            s.decoders matches Inner::Uncompressed(list) && list.decoders == decoders,
            s.optimized.is_none(),
    {
        DecoderSet {
            decoders: Inner::Uncompressed(UncompressedDecoderSet::new(decoders)),
            optimized: None,
        }
    }

    /// The set with a specialised decoder for one colour format. A set takes
    /// one specialised decoder only.
    pub fn add_specialized(self, channels: Channels, precision: Precision, decode_fn: DecodeFn) -> (s:
        DecoderSet)
        requires
            self.optimized.is_none(),
        ensures
            s.decoders == self.decoders,
            s.optimized == Some(
                SpecializedDecodeFn { decode_fn, color: ColorFormat { channels, precision } },
            ),
    {
        DecoderSet {
            decoders: self.decoders,
            optimized: Some(
                SpecializedDecodeFn { decode_fn, color: ColorFormat::new(channels, precision) },
            ),
        }
    }

    /// The native colour of the format.
    pub fn native_color(&self) -> (c: ColorFormat)
        requires
            self.wf(),
        ensures
            c == self.native_color_spec(),
    {
        match &self.decoders {
            Inner::List(list) => list.native_color(),
            Inner::Uncompressed(list) => list.native_color(),
        }
    }

    /// Decodes a whole surface from its encoded bytes into an output buffer
    /// of exactly the length of the decoded surface.
    pub fn decode(
        &self,
        color: ColorFormat,
        encoded: &[u8],
        size: Size,
        output: &mut [u8],
        options: &DecodeOptions,
    ) -> (r: Result<(), DecodeError>)
        requires
            self.wf(),
        ensures
            decode_outcome(self.format(), color, encoded@, size, old(output)@, final(output)@, r),
    {
        let args = match Args::new(
            output.len(),
            DecodeContext { color, size, memory_limit: options.memory_limit },
        ) {
            Ok(args) => args,
            Err(e) => {
                return Err(e);
            },
        };
        // never decode empty images
        if size.is_empty() {
            return Ok(());
        }
        if let Some(optimized) = &self.optimized {
            if optimized.color == color {
                // some decoder sets have specially optimized full-image decoders
                proof {
                    lemma_kinds(self.format());
                }
                return decode_block_surface(optimized.decode_fn.0, encoded, output, args.0);
            }
        }
        proof {
            lemma_kinds(self.format());
        }
        match &self.decoders {
            Inner::List(list) => list.decode(encoded, output, args),
            Inner::Uncompressed(list) => list.decode(encoded, output, args),
        }
    }

    /// Decodes a rectangle of a surface from the encoded bytes of the
    /// surface into an output buffer with a row pitch.
    pub fn decode_rect(
        &self,
        color: ColorFormat,
        encoded: &[u8],
        size: Size,
        rect: Rect,
        output: &mut [u8],
        row_pitch: usize,
        options: &DecodeOptions,
    ) -> (r: Result<(), DecodeError>)
        requires
            self.wf(),
        ensures
            decode_rect_outcome(
                self.format(),
                color,
                encoded@,
                size,
                rect,
                row_pitch,
                options.memory_limit,
                old(output)@,
                final(output)@,
                r,
            ),
    {
        let args = match RArgs::new(
            output.len(),
            row_pitch,
            rect,
            DecodeContext { color, size, memory_limit: options.memory_limit },
        ) {
            Ok(args) => args,
            Err(e) => {
                return Err(e);
            },
        };
        // never decode empty rects
        if rect.size().is_empty() {
            return Ok(());
        }
        proof {
            lemma_kinds(self.format());
        }
        match &self.decoders {
            Inner::List(list) => list.decode_rect(encoded, output, args),
            Inner::Uncompressed(list) => list.decode_rect(encoded, output, args),
        }
    }
}

/// A format is of one kind at most: block-compressed, or with a pixel
/// processor.
pub proof fn lemma_kinds(format: Format)
    ensures
        !(format.is_bcn() && format.is_plain()),
{
}

/// One more decoder has a precision where it has it itself or the ones
/// before have it.
pub proof fn lemma_has_precision_step(decoders: Seq<UncompressedDecoder>, n: int, precision: Precision)
    requires
        0 <= n < decoders.len(),
    ensures
        has_precision(decoders, n + 1, precision) == (has_precision(decoders, n, precision)
            || decoders[n].native_color.precision == precision),
{
    if has_precision(decoders, n + 1, precision) {
        let i = choose|i: int|
            0 <= i < n + 1 && (#[trigger] decoders[i]).native_color.precision == precision;
        if i < n {
            assert(has_precision(decoders, n, precision));
        }
    }
    if has_precision(decoders, n, precision) {
        let i = choose|i: int|
            0 <= i < n && (#[trigger] decoders[i]).native_color.precision == precision;
        assert(0 <= i < n + 1 && decoders[i].native_color.precision == precision);
    }
    if decoders[n].native_color.precision == precision {
        assert(0 <= n < n + 1 && decoders[n].native_color.precision == precision);
    }
}

} // verus!
