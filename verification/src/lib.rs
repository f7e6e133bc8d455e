//! Decoding and encoding of DirectDraw Surface (DDS) pixel data.
//!
//! The library knows the closed set of surface formats, detects the format
//! that a header names, lays out the surfaces of a file, decodes encoded
//! surfaces into plain pixel arrays of a chosen colour format, and encodes
//! such arrays.

pub mod bits;
pub mod decode;
pub mod detect;
pub mod encode;
pub mod error;
pub mod format;
pub mod header;
pub mod layout;
pub mod pixel;
pub mod util;

use vstd::prelude::*;
use crate::error::DecodeError;
use crate::format::Format;
use crate::header::{Dx10Header, Header, ResourceDimension};
use crate::layout::{DataLayout, PixelInfo};

verus! {

/// How to read and interpret a header.
#[derive(Debug, Clone, Copy, PartialEq, Eq, Structural)]
#[non_exhaustive]
pub struct Options {
    /// Whether the file starts with the header, without the magic bytes
    /// `"DDS "` in front of it.
    pub skip_magic_bytes: bool,
    /// The largest array size that a header may declare. A cube map counts
    /// once. `u32::MAX` switches the limit off.
    pub max_array_size: u32,
    /// Whether headers with wrong values are accepted and repaired. A
    /// repair needs `file_len`.
    pub permissive: bool,
    /// The length of the file in bytes, magic bytes and header included.
    /// Used for repairs only.
    pub file_len: Option<u64>,
}

impl Options {
    /// The default options: magic bytes expected, arrays of up to 4096
    /// elements, no repairs.
    pub open spec fn default_spec() -> Options {
        Options { skip_magic_bytes: false, max_array_size: 4096, permissive: false, file_len: None }
    }
}

impl Default for Options {
    fn default() -> (o: Options)
        ensures
            o == Options::default_spec(),
    {
        Options { skip_magic_bytes: false, max_array_size: 4096, permissive: false, file_len: None }
    }
}

/// A header together with the format and the layout that it describes.
pub struct DdsDecoder {
    header: Header,
    format: Format,
    layout: DataLayout,
}

/// The header with another array size. A DX9 header has none and stays as
/// it is.
pub open spec fn with_array_size(header: Header, array_size: u32) -> Header {
    match header {
        Header::Dx9(h) => header,
        Header::Dx10(h) => Header::Dx10(Dx10Header { array_size, ..h }),
    }
}

/// The header with another number of mipmap levels.
pub open spec fn with_mipmap_count(header: Header, mipmap_count: u32) -> Header {
    match header {
        Header::Dx9(h) => Header::Dx9(crate::header::Dx9Header { mipmap_count, ..h }),
        Header::Dx10(h) => Header::Dx10(Dx10Header { mipmap_count, ..h }),
    }
}

/// Whether the layout of a header has exactly `expected` bytes of data.
pub open spec fn fits(header: Header, info: PixelInfo, expected: u64) -> bool {
    DataLayout::from_header_spec(header, info) matches Ok(layout) && layout.data_len_spec()
        == expected
}

/// The length of the data section that the length of a file leaves: the
/// file without the magic bytes, the header, and the DX10 extension where
/// the header has one. `None` where the length of the file is not known or
/// shorter than that.
pub open spec fn expected_data_len(header: Header, options: Options) -> Option<u64> {
    let non_data: u64 = if header is Dx10 {
        148
    } else {
        128
    };
    match options.file_len {
        Some(len) => if len >= non_data {
            Some((len - non_data) as u64)
        } else {
            None
        },
        None => None,
    }
}

/// Number of bits of `n` without its leading zeros.
pub open spec fn bit_length(n: nat) -> nat
    decreases n,
{
    if n == 0 {
        0
    } else {
        1 + bit_length(n / 2)
    }
}

/// The largest of the dimensions of a header, with 1 for a depth that is
/// not given.
pub open spec fn max_dimension(header: Header) -> u32 {
    let w = header.width_spec();
    let h = header.height_spec();
    let d = match header.depth_spec() {
        Some(d) => d,
        None => 1,
    };
    let wh = if w > h { w } else { h };
    if wh > d {
        wh
    } else {
        d
    }
}

/// Guess `i` for the true number of mipmap levels of a header whose number
/// is wrong: none, a full chain, one less, one more.
pub open spec fn mipmap_guess(header: Header, i: int) -> u32 {
    let mipmap = header.mipmap_count_spec();
    if i == 0 {
        1
    } else if i == 1 {
        bit_length(max_dimension(header) as nat) as u32
    } else if i == 2 {
        if mipmap == 0 {
            0
        } else {
            (mipmap - 1) as u32
        }
    } else if mipmap == u32::MAX {
        u32::MAX
    } else {
        (mipmap + 1) as u32
    }
}

/// The header with the first of the guesses from `i` on that is not 0 and
/// makes the layout fit, or the header as it is where none does.
pub open spec fn first_mipmap_fit(header: Header, info: PixelInfo, expected: u64, i: int) -> Header
    decreases 4 - i,
{
    if i < 0 || i >= 4 {
        header
    } else {
        let guess = mipmap_guess(header, i);
        if guess != 0 && fits(with_mipmap_count(header, guess), info, expected) {
            with_mipmap_count(header, guess)
        } else {
            first_mipmap_fit(header, info, expected, i + 1)
        }
    }
}

/// Whether a header declares an array size of 0.
pub open spec fn is_array_of_none(header: Header) -> bool {
    header matches Header::Dx10(h) && h.array_size == 0
}

/// Whether a header declares the six faces of one cube map as an array
/// size of 6, which should be 1.
pub open spec fn is_cube_of_six(header: Header) -> bool {
    header matches Header::Dx10(h) && h.array_size == 6 && h.resource_dimension
        == ResourceDimension::Texture2D && h.cube_map
}

/// The repaired header for a file with `expected` bytes of data.
///
/// A header that fits stays as it is. An array size of 0 becomes 1 where
/// the file has data, whether that makes the header fit or not. Then the
/// first of these repairs that makes the header fit is taken: an array size
/// of 1 for a cube map that declares 6, and the guesses for the number of
/// mipmap levels in their order.
pub open spec fn repaired(header: Header, info: PixelInfo, expected: u64) -> Header {
    if fits(header, info, expected) {
        header
    } else {
        let sized = if expected > 0 && is_array_of_none(header) {
            with_array_size(header, 1)
        } else {
            header
        };
        if fits(sized, info, expected) {
            sized
        } else if is_cube_of_six(sized) && fits(with_array_size(sized, 1), info, expected) {
            with_array_size(sized, 1)
        } else {
            first_mipmap_fit(sized, info, expected, 0)
        }
    }
}

/// The length of the data section that the length of a file leaves.
pub fn get_expected_data_len(header: &Header, options: &Options) -> (r: Option<u64>)
    ensures
        r == expected_data_len(*header, *options),
{
    let non_data: u64 = Header::MAGIC_LEN + Header::SIZE + match header {
        Header::Dx10(_) => Header::DX10_SIZE,
        Header::Dx9(_) => 0,
    };
    match options.file_len {
        Some(len) => len.checked_sub(non_data),
        None => None,
    }
}

/// A number below `2^k` has at most `k` bits.
pub proof fn lemma_bit_length_bound(n: nat, k: nat)
    requires
        n < vstd::arithmetic::power2::pow2(k),
    ensures
        bit_length(n) <= k,
    decreases n,
{
    if n != 0 {
        if k == 0 {
            vstd::arithmetic::power2::lemma2_to64();
        } else {
            vstd::arithmetic::power2::lemma_pow2_unfold(k);
            lemma_bit_length_bound(n / 2, (k - 1) as nat);
        }
    }
}

/// Number of bits of `n` without its leading zeros.
pub fn bit_length_of(n: u32) -> (r: u32)
    ensures
        r as nat == bit_length(n as nat),
        r <= 32,
{
    let mut rest: u32 = n;
    let mut bits: u32 = 0;
    proof {
        vstd::arithmetic::power2::lemma2_to64();
        lemma_bit_length_bound(n as nat, 32);
    }
    while rest != 0
        invariant
            bit_length(n as nat) == bits + bit_length(rest as nat),
            bit_length(n as nat) <= 32,
        decreases rest,
    {
        rest = rest / 2;
        bits = bits + 1;
    }
    bits
}

/// Guess `i` for the true number of mipmap levels of a header.
fn mipmap_guess_of(header: &Header, i: u32) -> (guess: u32)
    requires
        i < 4,
    ensures
        guess == mipmap_guess(*header, i as int),
{
    let mipmap = header.mipmap_count();
    if i == 0 {
        // it's very common for DDS images to have no mipmaps
        1
    } else if i == 1 {
        // or a full mipmap chain
        let w = header.width();
        let h = header.height();
        let d = match header.depth() {
            Some(d) => d,
            None => 1,
        };
        let wh = if w > h {
            w
        } else {
            h
        };
        bit_length_of(if wh > d {
            wh
        } else {
            d
        })
    } else if i == 2 {
        // otherwise, it could be an off-by-one error
        mipmap.saturating_sub(1)
    } else {
        mipmap.saturating_add(1)
    }
}

/// The header with another number of mipmap levels.
fn set_mipmap_count(header: &Header, mipmap_count: u32) -> (h: Header)
    ensures
        h == with_mipmap_count(*header, mipmap_count),
{
    match header {
        Header::Dx9(h) => Header::Dx9(
            crate::header::Dx9Header {
                height: h.height,
                width: h.width,
                depth: h.depth,
                mipmap_count,
                pixel_format: h.pixel_format,
                cube_map: h.cube_map,
            },
        ),
        Header::Dx10(h) => Header::Dx10(
            Dx10Header {
                height: h.height,
                width: h.width,
                depth: h.depth,
                mipmap_count,
                dxgi_format: h.dxgi_format,
                resource_dimension: h.resource_dimension,
                cube_map: h.cube_map,
                array_size: h.array_size,
                alpha_mode: h.alpha_mode,
            },
        ),
    }
}

/// The header with another array size.
fn set_array_size(header: &Header, array_size: u32) -> (h: Header)
    ensures
        h == with_array_size(*header, array_size),
{
    match header {
        Header::Dx9(h) => Header::Dx9(*h),
        Header::Dx10(h) => Header::Dx10(
            Dx10Header {
                height: h.height,
                width: h.width,
                depth: h.depth,
                mipmap_count: h.mipmap_count,
                dxgi_format: h.dxgi_format,
                resource_dimension: h.resource_dimension,
                cube_map: h.cube_map,
                array_size,
                alpha_mode: h.alpha_mode,
            },
        ),
    }
}

/// The layout of a header where it has exactly `expected` bytes of data.
fn fitting_layout(header: &Header, info: PixelInfo, expected: u64) -> (r: Option<DataLayout>)
    requires
        info.wf(),
    ensures
        r.is_some() == fits(*header, info, expected),
        r matches Some(layout) ==> DataLayout::from_header_spec(*header, info) == Ok::<
            DataLayout,
            DecodeError,
        >(layout) && layout.wf(),
{
    match DataLayout::from_header_with(header, info) {
        Ok(layout) => if layout.data_len() == expected {
            Some(layout)
        } else {
            None
        },
        Err(_) => None,
    }
}

/// Lays out the data of a file and repairs the header where its layout does
/// not have the length that the length of the file leaves for the data.
///
/// Without a known length of the file nothing is repaired.
pub fn create_layout_and_fix_header(header: &mut Header, pixel_info: PixelInfo, options: &Options) -> (r:
    Result<DataLayout, DecodeError>)
    requires
        pixel_info.wf(),
    ensures
        *final(header) == match expected_data_len(*old(header), *options) {
            Some(expected) => repaired(*old(header), pixel_info, expected),
            None => *old(header),
        },
        r == DataLayout::from_header_spec(*final(header), pixel_info),
        r matches Ok(layout) ==> layout.wf(),
{
    let mut current_layout = DataLayout::from_header_with(header, pixel_info);
    let expected_data_len = match get_expected_data_len(header, options) {
        Some(value) => value,
        None => {
            // if we don't know the expected data length, we can't fix the header
            return current_layout;
        },
    };
    // if the header is already correct, we don't need to fix it
    if let Some(layout) = fitting_layout(header, pixel_info, expected_data_len) {
        return Ok(layout);
    }
    // Some writers set an array size of 0 for arrays with one element. This
    // changes the header even if it then does not fit either: a file with
    // data has at least one element.
    if expected_data_len > 0 {
        let zero = match header {
            Header::Dx10(dx10) => dx10.array_size == 0,
            Header::Dx9(_) => false,
        };
        if zero {
            *header = set_array_size(header, 1);
            // update the current layout since we directly changed the header
            current_layout = DataLayout::from_header_with(header, pixel_info);
            if let Some(layout) = fitting_layout(header, pixel_info, expected_data_len) {
                return Ok(layout);
            }
        }
    }
    // Some files with a single cube map have an array size of 6.
    let six = match header {
        Header::Dx10(dx10) => dx10.array_size == 6 && dx10.resource_dimension
            == ResourceDimension::Texture2D && dx10.cube_map,
        Header::Dx9(_) => false,
    };
    if six {
        let new_header = set_array_size(header, 1);
        if let Some(layout) = fitting_layout(&new_header, pixel_info, expected_data_len) {
            *header = new_header;
            return Ok(layout);
        }
    }
    // Sometimes, the mipmap count is incorrect. We can try to fix this by
    // simply guessing the correct mipmap count.
    let ghost sized = *header;
    let ghost goal = repaired(*old(header), pixel_info, expected_data_len);
    assert(goal == first_mipmap_fit(sized, pixel_info, expected_data_len, 0));
    let mut i: u32 = 0;
    while i < 4
        invariant
            i <= 4,
            pixel_info.wf(),
            *header == sized,
            goal == first_mipmap_fit(sized, pixel_info, expected_data_len, 0),
            self::expected_data_len(*old(header), *options) == Some(expected_data_len),
            goal == repaired(*old(header), pixel_info, expected_data_len),
            current_layout == DataLayout::from_header_spec(sized, pixel_info),
            current_layout matches Ok(layout) ==> layout.wf(),
            first_mipmap_fit(sized, pixel_info, expected_data_len, 0) == first_mipmap_fit(
                sized,
                pixel_info,
                expected_data_len,
                i as int,
            ),
        decreases 4 - i,
    {
        let guess = mipmap_guess_of(header, i);
        if guess != 0 {
            let new_header = set_mipmap_count(header, guess);
            if let Some(layout) = fitting_layout(&new_header, pixel_info, expected_data_len) {
                *header = new_header;
                return Ok(layout);
            }
        }
        i = i + 1;
    }
    // sadly, we couldn't fix it
    current_layout
}

impl DdsDecoder {
    /// What a decoder for a header holds: the header, repaired where the
    /// options allow it, with its format and layout. It is an error for the
    /// header to declare a larger array than the options allow, to name a
    /// format that the library does not know, or to have no layout.
    pub open spec fn from_header_spec(header: Header, options: Options) -> Result<
        (Header, Format, DataLayout),
        DecodeError,
    > {
        if header matches Header::Dx10(h) && h.array_size > options.max_array_size {
            Err(DecodeError::ArraySizeTooBig(header->Dx10_0.array_size))
        } else {
            match Format::from_header_spec(header) {
                Err(e) => Err(DecodeError::Format(e)),
                Ok(format) => {
                    let info = PixelInfo { block: format.block_shape() };
                    let fixed = if options.permissive {
                        match expected_data_len(header, options) {
                            Some(expected) => repaired(header, info, expected),
                            None => header,
                        }
                    } else {
                        header
                    };
                    match DataLayout::from_header_spec(fixed, info) {
                        Ok(layout) => Ok((fixed, format, layout)),
                        Err(e) => Err(e),
                    }
                },
            }
        }
    }

    /// The header, the format and the layout of the decoder.
    pub closed spec fn view(self) -> (Header, Format, DataLayout) {
        (self.header, self.format, self.layout)
    }

    /// A decoder for the header at the start of the bytes of a file, under
    /// the default options.
    pub fn new(bytes: &[u8]) -> (r: Result<DdsDecoder, DecodeError>)
        ensures
            match r {
                Ok(d) => Self::new_spec(bytes@, Options::default_spec()) == Ok::<
                    (Header, Format, DataLayout),
                    DecodeError,
                >(d@),
                Err(e) => Self::new_spec(bytes@, Options::default_spec()) == Err::<
                    (Header, Format, DataLayout),
                    DecodeError,
                >(e),
            },
    {
        Self::new_with(bytes, &Options::default())
    }

    /// What a decoder for the header at the start of the bytes of a file
    /// holds.
    pub open spec fn new_spec(bytes: Seq<u8>, options: Options) -> Result<
        (Header, Format, DataLayout),
        DecodeError,
    > {
        match crate::header::read_spec(bytes, options.skip_magic_bytes, options.permissive) {
            Ok(header) => Self::from_header_spec(header, options),
            Err(e) => Err(DecodeError::Header(e)),
        }
    }

    /// A decoder for the header at the start of the bytes of a file. The
    /// data section starts behind the header.
    pub fn new_with(bytes: &[u8], options: &Options) -> (r: Result<DdsDecoder, DecodeError>)
        ensures
            match r {
                Ok(d) => Self::new_spec(bytes@, *options) == Ok::<
                    (Header, Format, DataLayout),
                    DecodeError,
                >(d@),
                Err(e) => Self::new_spec(bytes@, *options) == Err::<
                    (Header, Format, DataLayout),
                    DecodeError,
                >(e),
            },
    {
        match Header::read(bytes, options.skip_magic_bytes, options.permissive) {
            Ok(header) => Self::from_header_with(header, options),
            Err(e) => Err(DecodeError::Header(e)),
        }
    }

    /// A decoder for a header, under the default options.
    pub fn from_header(header: Header) -> (r: Result<DdsDecoder, DecodeError>)
        ensures
            match r {
                Ok(d) => Self::from_header_spec(header, Options::default_spec()) == Ok::<
                    (Header, Format, DataLayout),
                    DecodeError,
                >(d@),
                Err(e) => Self::from_header_spec(header, Options::default_spec()) == Err::<
                    (Header, Format, DataLayout),
                    DecodeError,
                >(e),
            },
    {
        Self::from_header_with(header, &Options::default())
    }

    /// A decoder for a header.
    pub fn from_header_with(header: Header, options: &Options) -> (r: Result<DdsDecoder, DecodeError>)
        ensures
            match r {
                Ok(d) => Self::from_header_spec(header, *options) == Ok::<
                    (Header, Format, DataLayout),
                    DecodeError,
                >(d@),
                Err(e) => Self::from_header_spec(header, *options) == Err::<
                    (Header, Format, DataLayout),
                    DecodeError,
                >(e),
            },
    {
        let mut header = header;
        // enforce `array_size` limit
        if let Header::Dx10(dx10) = &header {
            if dx10.array_size > options.max_array_size {
                return Err(DecodeError::ArraySizeTooBig(dx10.array_size));
            }
        }
        // detect format
        let format = match Format::from_header(&header) {
            Ok(format) => format,
            Err(e) => {
                return Err(DecodeError::Format(e));
            },
        };
        // data layout
        let pixel_info = PixelInfo::from_format(format);
        let layout = if options.permissive {
            create_layout_and_fix_header(&mut header, pixel_info, options)
        } else {
            DataLayout::from_header_with(&header, pixel_info)
        };
        match layout {
            Ok(layout) => Ok(DdsDecoder { header, format, layout }),
            Err(e) => Err(e),
        }
    }

    /// The header, repaired where the options allowed it.
    pub fn header(&self) -> (h: &Header)
        ensures
            *h == self@.0,
    {
        &self.header
    }

    /// The format of the surfaces.
    pub fn format(&self) -> (f: Format)
        ensures
            f == self@.1,
    {
        self.format
    }

    /// Where the surfaces lie in the data section.
    pub fn layout(&self) -> (l: &DataLayout)
        ensures
            *l == self@.2,
    {
        &self.layout
    }

    /// Whether the colours are tagged as sRGB. Only a DX10 header can say
    /// so.
    pub fn is_srgb(&self) -> (b: bool)
        ensures
            b == match self@.0 {
                Header::Dx10(h) => h.dxgi_format.is_srgb_spec(),
                Header::Dx9(_) => false,
            },
    {
        if let Header::Dx10(dx10) = &self.header {
            dx10.dxgi_format.is_srgb()
        } else {
            false
        }
    }
}

} // verus!
