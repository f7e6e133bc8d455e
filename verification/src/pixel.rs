//! Colour layouts of decoded pixels, and the geometry of surfaces.

use vstd::prelude::*;

verus! {

/// The channels a decoded pixel is made of.
#[derive(Debug, Clone, Copy, PartialEq, Eq, Structural, Hash)]
pub enum Channels {
    /// One luma-like value.
    Grayscale,
    /// One transparency value.
    Alpha,
    /// Red, green, blue.
    Rgb,
    /// Red, green, blue, alpha.
    Rgba,
}

impl Channels {
    /// Number of values per pixel.
    pub open spec fn count_spec(self) -> nat {
        match self {
            Channels::Grayscale => 1,
            Channels::Alpha => 1,
            Channels::Rgb => 3,
            Channels::Rgba => 4,
        }
    }

    /// Position in the fixed order grayscale, alpha, RGB, RGBA.
    pub open spec fn index_spec(self) -> nat {
        match self {
            Channels::Grayscale => 0,
            Channels::Alpha => 1,
            Channels::Rgb => 2,
            Channels::Rgba => 3,
        }
    }

    /// Number of values per pixel.
    pub fn count(self) -> (n: u8)
        ensures
            n as nat == self.count_spec(),
    {
        match self {
            Channels::Grayscale => 1,
            Channels::Alpha => 1,
            Channels::Rgb => 3,
            Channels::Rgba => 4,
        }
    }
}

/// The number type of one decoded channel value.
///
/// `U8` and `U16` hold values normalised to the unit interval. `F32` holds an
/// IEEE-754 single: the library moves its four bytes and never interprets
/// them with hardware arithmetic.
#[derive(Debug, Clone, Copy, PartialEq, Eq, Structural, Hash)]
pub enum Precision {
    U8,
    U16,
    F32,
}

impl Precision {
    /// Bytes per channel value.
    pub open spec fn size_spec(self) -> nat {
        match self {
            Precision::U8 => 1,
            Precision::U16 => 2,
            Precision::F32 => 4,
        }
    }

    /// Position in the fixed order U8, U16, F32.
    pub open spec fn index_spec(self) -> nat {
        match self {
            Precision::U8 => 0,
            Precision::U16 => 1,
            Precision::F32 => 2,
        }
    }

    /// Bytes per channel value.
    pub fn size(self) -> (n: u8)
        ensures
            n as nat == self.size_spec(),
    {
        match self {
            Precision::U8 => 1,
            Precision::U16 => 2,
            Precision::F32 => 4,
        }
    }
}

/// A channel set together with a precision.
#[derive(Debug, Clone, Copy, PartialEq, Eq, Structural, Hash)]
pub struct ColorFormat {
    pub channels: Channels,
    pub precision: Precision,
}

impl ColorFormat {
    /// Bytes of one decoded pixel: channel count times channel size.
    pub open spec fn bpp(self) -> nat {
        self.channels.count_spec() * self.precision.size_spec()
    }

    /// The number in `0..12` that identifies the format.
    pub open spec fn key_spec(self) -> nat {
        self.channels.index_spec() * 3 + self.precision.index_spec()
    }

    pub fn new(channels: Channels, precision: Precision) -> (c: ColorFormat)
        ensures
            c.channels == channels,
            c.precision == precision,
    {
        ColorFormat { channels, precision }
    }

    /// Bytes of one decoded pixel.
    pub fn bytes_per_pixel(self) -> (n: u8)
        ensures
            n as nat == self.bpp(),
            1 <= n <= 16,
    {
        self.channels.count() * self.precision.size()
    }

    /// The number in `0..12` that identifies the format.
    pub fn key(self) -> (k: u8)
        ensures
            k as nat == self.key_spec(),
            k < 12,
    {
        let c: u8 = match self.channels {
            Channels::Grayscale => 0,
            Channels::Alpha => 1,
            Channels::Rgb => 2,
            Channels::Rgba => 3,
        };
        let p: u8 = match self.precision {
            Precision::U8 => 0,
            Precision::U16 => 1,
            Precision::F32 => 2,
        };
        c * 3 + p
    }
}

/// Two colour formats with the same key are the same format.
pub proof fn lemma_key_injective(a: ColorFormat, b: ColorFormat)
    requires
        a.key_spec() == b.key_spec(),
    ensures
        a == b,
{
}

/// A set of colour formats, one bit per key.
#[derive(Debug, Clone, Copy, PartialEq, Eq, Structural, Hash)]
pub struct ColorFormatSet {
    pub data: u16,
}

/// The bits of the four channel sets under the first precision.
pub const PRECISION_BITS: u16 = 0x249;

/// The bits of all twelve colour formats.
pub const ALL_BITS: u16 = 0xFFF;

/// Whether the bit of key `key` is set in `data`.
pub open spec fn has_key(data: u16, key: u16) -> bool {
    data & (1u16 << key) != 0
}

proof fn lemma_set_bits(data: u16, other: u16, key: u16, k: u16, p: u16)
    by (bit_vector)
    requires
        key < 12,
        k < 12,
        p < 3,
    ensures
        ((data | other) & (1u16 << k) != 0) <==> (data & (1u16 << k) != 0 || other & (1u16 << k)
            != 0),
        ((1u16 << key) & (1u16 << k) != 0) <==> key == k,
        ((0x249u16 << p) & (1u16 << k) != 0) <==> k % 3 == p,
        0xFFFu16 & (1u16 << k) != 0,
        0u16 & (1u16 << k) == 0,
        data & 0xFFFu16 == 0xFFFu16 ==> data & (1u16 << k) != 0,
{
}

impl ColorFormatSet {
    /// Whether the set holds a colour format.
    pub open spec fn contains_spec(self, color: ColorFormat) -> bool {
        has_key(self.data, color.key_spec() as u16)
    }

    /// Whether the set holds all twelve colour formats.
    pub open spec fn is_all_spec(self) -> bool {
        self.data & 0xFFFu16 == 0xFFFu16
    }

    /// The set without any colour format.
    pub fn empty() -> (s: ColorFormatSet)
        ensures
            forall|c: ColorFormat| !s.contains_spec(c),
    {
        proof {
            assert forall|c: ColorFormat| !has_key(0u16, #[trigger] c.key_spec() as u16) by {
                lemma_set_bits(0, 0, 0, c.key_spec() as u16, 0);
            }
        }
        ColorFormatSet { data: 0 }
    }

    /// The set of all colour formats.
    pub fn all() -> (s: ColorFormatSet)
        ensures
            forall|c: ColorFormat| s.contains_spec(c),
            s.is_all_spec(),
    {
        proof {
            assert forall|c: ColorFormat| has_key(0xFFFu16, #[trigger] c.key_spec() as u16) by {
                lemma_set_bits(0, 0, 0, c.key_spec() as u16, 0);
            }
            assert(0xFFFu16 & 0xFFFu16 == 0xFFFu16) by (bit_vector);
        }
        ColorFormatSet { data: ALL_BITS }
    }

    /// The set of one colour format.
    pub fn from_single(color: ColorFormat) -> (s: ColorFormatSet)
        ensures
            forall|c: ColorFormat| s.contains_spec(c) <==> c == color,
    {
        let key = color.key() as u16;
        proof {
            assert forall|c: ColorFormat|
                has_key(1u16 << key, #[trigger] c.key_spec() as u16) <==> c == color by {
                lemma_set_bits(0, 0, key, c.key_spec() as u16, 0);
                if c.key_spec() == color.key_spec() {
                    lemma_key_injective(c, color);
                }
            }
        }
        ColorFormatSet { data: 1u16 << key }
    }

    /// The set of the four colour formats of a precision.
    pub fn from_precision(precision: Precision) -> (s: ColorFormatSet)
        ensures
            forall|c: ColorFormat| s.contains_spec(c) <==> c.precision == precision,
    {
        let p: u16 = match precision {
            Precision::U8 => 0,
            Precision::U16 => 1,
            Precision::F32 => 2,
        };
        proof {
            assert forall|c: ColorFormat|
                has_key(0x249u16 << p, #[trigger] c.key_spec() as u16) <==> c.precision
                    == precision by {
                lemma_set_bits(0, 0, 0, c.key_spec() as u16, p);
            }
        }
        ColorFormatSet { data: PRECISION_BITS << p }
    }

    /// Whether the set holds a colour format.
    pub fn contains(self, color: ColorFormat) -> (b: bool)
        ensures
            b == self.contains_spec(color),
    {
        self.data & (1u16 << (color.key() as u16)) != 0
    }

    /// The colour formats of either set.
    pub fn union(self, other: ColorFormatSet) -> (s: ColorFormatSet)
        ensures
            forall|c: ColorFormat| s.contains_spec(c) <==> (self.contains_spec(c)
                || other.contains_spec(c)),
    {
        proof {
            assert forall|c: ColorFormat|
                has_key(self.data | other.data, #[trigger] c.key_spec() as u16) <==> (has_key(
                    self.data,
                    c.key_spec() as u16,
                ) || has_key(other.data, c.key_spec() as u16)) by {
                lemma_set_bits(self.data, other.data, 0, c.key_spec() as u16, 0);
            }
        }
        ColorFormatSet { data: self.data | other.data }
    }

    /// Whether the set holds all twelve colour formats.
    pub fn is_all(self) -> (b: bool)
        ensures
            b == self.is_all_spec(),
            b ==> forall|c: ColorFormat| self.contains_spec(c),
    {
        proof {
            if self.is_all_spec() {
                assert forall|c: ColorFormat| has_key(self.data, #[trigger] c.key_spec() as u16) by {
                    lemma_set_bits(self.data, 0, 0, c.key_spec() as u16, 0);
                }
            }
        }
        self.data & ALL_BITS == ALL_BITS
    }
}

/// Width and height of a surface in pixels.
#[derive(Debug, Clone, Copy, PartialEq, Eq, Structural, Hash)]
pub struct Size {
    pub width: u32,
    pub height: u32,
}

impl Size {
    pub open spec fn pixels_spec(self) -> nat {
        (self.width as nat) * (self.height as nat)
    }

    pub open spec fn is_empty_spec(self) -> bool {
        self.width == 0 || self.height == 0
    }

    pub fn new(width: u32, height: u32) -> (s: Size)
        ensures
            s.width == width,
            s.height == height,
    {
        Size { width, height }
    }

    /// Number of pixels of the surface.
    pub fn pixels(self) -> (n: u64)
        ensures
            n as nat == self.pixels_spec(),
            n <= 0xFFFF_FFFF * 0xFFFF_FFFF,
    {
        assert(self.width as nat * self.height as nat <= 0xFFFF_FFFFnat * 0xFFFF_FFFFnat)
            by (nonlinear_arith)
            requires
                self.width <= 0xFFFF_FFFFu32,
                self.height <= 0xFFFF_FFFFu32,
        ;
        self.width as u64 * self.height as u64
    }

    /// Whether the surface holds no pixel.
    pub fn is_empty(self) -> (b: bool)
        ensures
            b == self.is_empty_spec(),
            b <==> self.pixels_spec() == 0,
    {
        assert(self.pixels_spec() == 0 <==> (self.width == 0 || self.height == 0))
            by (nonlinear_arith)
            requires
                self.pixels_spec() == (self.width as nat) * (self.height as nat),
        ;
        self.width == 0 || self.height == 0
    }
}

/// A rectangle of pixels inside a surface.
#[derive(Debug, Clone, Copy, PartialEq, Eq, Structural, Hash)]
pub struct Rect {
    pub x: u32,
    pub y: u32,
    pub width: u32,
    pub height: u32,
}

impl Rect {
    /// The rectangle lies inside a surface of the given size. The far edges
    /// are taken as mathematical sums, which cannot wrap.
    pub open spec fn within(self, size: Size) -> bool {
        &&& self.x + self.width <= size.width
        &&& self.y + self.height <= size.height
    }

    pub fn new(x: u32, y: u32, width: u32, height: u32) -> (r: Rect)
        ensures
            r.x == x,
            r.y == y,
            r.width == width,
            r.height == height,
    {
        Rect { x, y, width, height }
    }

    pub fn size(self) -> (s: Size)
        ensures
            s.width == self.width,
            s.height == self.height,
    {
        Size { width: self.width, height: self.height }
    }

    /// Whether the rectangle lies inside a surface of the given size.
    pub fn is_within_bounds(self, size: Size) -> (b: bool)
        ensures
            b == self.within(size),
    {
        let end_x: u64 = self.x as u64 + self.width as u64;
        let end_y: u64 = self.y as u64 + self.height as u64;
        end_x <= size.width as u64 && end_y <= size.height as u64
    }
}

} // verus!
