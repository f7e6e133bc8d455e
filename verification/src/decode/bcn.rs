//! The block-compressed formats BC1 to BC5: what a texel of a 4x4 block
//! decodes to.
//!
//! A texel has the index `4 * row + column` within its block. All values
//! here are 8-bit normalised values in the native channels of the format.

use vstd::prelude::*;
use crate::decode::convert::{snorm_norm, unorm_round, B5G6R5};
use crate::decode::convert::{n4, s8};
use crate::decode::fields::word;
use crate::format::Format;

verus! {

/// `v` without its `t` lowest digits in a base.
pub open spec fn drop_digits(v: nat, base: nat, t: nat) -> nat
    decreases t,
{
    if t == 0 {
        v
    } else {
        drop_digits(v, base, (t - 1) as nat) / base
    }
}

/// Digit `t` of `v` in a base, the lowest digit first.
pub open spec fn digit(v: nat, base: nat, t: nat) -> nat {
    drop_digits(v, base, t) % base
}

/// The little-endian number of the `n` bytes from `offset` of a block.
pub open spec fn le_number(block: Seq<u8>, offset: int, n: nat) -> nat
    decreases n,
{
    if n == 0 {
        0
    } else {
        block[offset] as nat + 256 * le_number(block, offset + 1, (n - 1) as nat)
    }
}

/// Channel `ch` (red, green, blue) of a 5:6:5 colour at 8 bits.
pub open spec fn color_n8(c: B5G6R5, ch: nat) -> nat {
    if ch == 0 {
        unorm_round(c.r5 as nat, 31, 255)
    } else if ch == 1 {
        unorm_round(c.g6 as nat, 63, 255)
    } else {
        unorm_round(c.b5 as nat, 31, 255)
    }
}

/// Channel `ch` of the 8-bit colour nearest to `a * 2/3 + b * 1/3`.
pub open spec fn color_third(a: B5G6R5, b: B5G6R5, ch: nat) -> nat {
    if ch == 0 {
        unorm_round((2 * a.r5 + b.r5) as nat, 93, 255)
    } else if ch == 1 {
        unorm_round((2 * a.g6 + b.g6) as nat, 189, 255)
    } else {
        unorm_round((2 * a.b5 + b.b5) as nat, 93, 255)
    }
}

/// Channel `ch` of the 8-bit colour nearest to `a * 1/2 + b * 1/2`.
pub open spec fn color_mid(a: B5G6R5, b: B5G6R5, ch: nat) -> nat {
    if ch == 0 {
        unorm_round((a.r5 + b.r5) as nat, 62, 255)
    } else if ch == 1 {
        unorm_round((a.g6 + b.g6) as nat, 126, 255)
    } else {
        unorm_round((a.b5 + b.b5) as nat, 62, 255)
    }
}

/// Channel `ch` (red, green, blue, alpha) of entry `i` of the palette of a
/// colour block with the endpoints `c0` and `c1`.
///
/// The first two entries are the endpoints. With four colours the others lie
/// a third and two thirds of the way between them. With three colours, which
/// is what a BC1 block has unless its first endpoint is the larger number,
/// the third entry lies halfway and the fourth is transparent black.
pub open spec fn palette_channel(c0: nat, c1: nat, four: bool, i: nat, ch: nat) -> nat {
    let a = B5G6R5::unpack(c0);
    let b = B5G6R5::unpack(c1);
    if i == 0 {
        if ch == 3 {
            255
        } else {
            color_n8(a, ch)
        }
    } else if i == 1 {
        if ch == 3 {
            255
        } else {
            color_n8(b, ch)
        }
    } else if four {
        if ch == 3 {
            255
        } else if i == 2 {
            color_third(a, b, ch)
        } else {
            color_third(b, a, ch)
        }
    } else if i == 2 {
        if ch == 3 {
            255
        } else {
            color_mid(a, b, ch)
        }
    } else {
        0
    }
}

/// Channel `ch` of texel `t` of the colour block at `offset` of a block.
/// `always_four` is set for the colour blocks of BC2 and BC3.
pub open spec fn color_texel(block: Seq<u8>, offset: int, always_four: bool, t: nat, ch: nat) -> nat {
    let c0 = word(block, offset, 2);
    let c1 = word(block, offset + 2, 2);
    let indices = word(block, offset + 4, 4);
    palette_channel(c0, c1, always_four || c0 > c1, digit(indices, 4, t), ch)
}

/// The value of a two's complement byte.
pub open spec fn signed_byte(a: nat) -> int {
    if a >= 128 {
        a - 256
    } else {
        a as int
    }
}

/// Entry `i` of the palette between the endpoints `e0` and `e1` of the
/// range `0..=max`, as an 8-bit normalised value.
///
/// With eight values the palette has the endpoints and six values between
/// them. Else it has the endpoints, four values between them, the lowest
/// value and the highest. Values between are rounded to the nearest, halves
/// upwards.
pub open spec fn ramp_entry(e0: nat, e1: nat, eight: bool, max: nat, i: nat) -> nat {
    if i == 0 {
        unorm_round(e0, max, 255)
    } else if i == 1 {
        unorm_round(e1, max, 255)
    } else if eight {
        unorm_round(((8 - i) * e0 + (i - 1) * e1) as nat, 7 * max, 255)
    } else if i < 6 {
        unorm_round(((6 - i) * e0 + (i - 1) * e1) as nat, 5 * max, 255)
    } else if i == 6 {
        0
    } else {
        255
    }
}

/// Entry `i` of the palette of a single-channel block with the endpoint
/// bytes `a0` and `a1`, as an 8-bit normalised value.
///
/// The palette has eight values where the first endpoint is the larger
/// number. In a signed block the endpoints are signed normalised values,
/// compared as signed numbers, and the result is their unsigned form.
pub open spec fn ramp_value(a0: nat, a1: nat, signed: bool, i: nat) -> nat {
    if signed {
        ramp_entry(
            snorm_norm(a0, 127),
            snorm_norm(a1, 127),
            signed_byte(a0) > signed_byte(a1),
            254,
            i,
        )
    } else {
        ramp_entry(a0, a1, a0 > a1, 255, i)
    }
}

/// The value of texel `t` of the single-channel block at `offset`.
pub open spec fn ramp_texel(block: Seq<u8>, offset: int, signed: bool, t: nat) -> nat {
    ramp_value(
        block[offset] as nat,
        block[offset + 1] as nat,
        signed,
        digit(le_number(block, offset + 2, 6), 8, t),
    )
}

/// The alpha of texel `t` of the block of 4-bit alphas at `offset`.
pub open spec fn explicit_alpha_texel(block: Seq<u8>, offset: int, t: nat) -> nat {
    unorm_round(digit(le_number(block, offset, 8), 16, t), 15, 255)
}

/// A colour channel with the premultiplication by alpha undone: the channel
/// divided by alpha, rounded to the nearest and limited to the highest
/// value. With an alpha of 0 the colour is 0.
pub open spec fn unpremultiplied(c: nat, a: nat) -> nat {
    if a == 0 {
        0
    } else {
        let v = (2 * c * 255 + a) / (2 * a);
        if v > 255 {
            255
        } else {
            v
        }
    }
}

/// Channel `ch` of texel `t` of a block, in the native channels of the
/// format.
pub open spec fn texel_channel(format: Format, block: Seq<u8>, t: nat, ch: nat) -> nat {
    match format {
        Format::BC1_UNORM => color_texel(block, 0, false, t, ch),
        Format::BC2_UNORM => if ch == 3 {
            explicit_alpha_texel(block, 0, t)
        } else {
            color_texel(block, 8, true, t, ch)
        },
        Format::BC2_UNORM_PREMULTIPLIED_ALPHA => if ch == 3 {
            explicit_alpha_texel(block, 0, t)
        } else {
            unpremultiplied(color_texel(block, 8, true, t, ch), explicit_alpha_texel(block, 0, t))
        },
        Format::BC3_UNORM => if ch == 3 {
            ramp_texel(block, 0, false, t)
        } else {
            color_texel(block, 8, true, t, ch)
        },
        Format::BC3_UNORM_PREMULTIPLIED_ALPHA => if ch == 3 {
            ramp_texel(block, 0, false, t)
        } else {
            unpremultiplied(color_texel(block, 8, true, t, ch), ramp_texel(block, 0, false, t))
        },
        Format::BC3_UNORM_RXGB => if ch == 0 {
            ramp_texel(block, 0, false, t)
        } else {
            color_texel(block, 8, true, t, ch)
        },
        Format::BC4_UNORM => ramp_texel(block, 0, false, t),
        Format::BC4_SNORM => ramp_texel(block, 0, true, t),
        Format::BC5_UNORM => if ch == 0 {
            ramp_texel(block, 0, false, t)
        } else if ch == 1 {
            ramp_texel(block, 8, false, t)
        } else {
            0
        },
        Format::BC5_SNORM => if ch == 0 {
            ramp_texel(block, 0, true, t)
        } else if ch == 1 {
            ramp_texel(block, 8, true, t)
        } else {
            128
        },
        _ => 0,
    }
}

impl Format {
    /// Whether the format is one of the block-compressed formats that the
    /// library decodes.
    pub open spec fn is_bcn(self) -> bool {
        match self {
            Format::BC1_UNORM
            | Format::BC2_UNORM
            | Format::BC2_UNORM_PREMULTIPLIED_ALPHA
            | Format::BC3_UNORM
            | Format::BC3_UNORM_PREMULTIPLIED_ALPHA
            | Format::BC3_UNORM_RXGB
            | Format::BC4_UNORM
            | Format::BC4_SNORM
            | Format::BC5_UNORM
            | Format::BC5_SNORM => true,
            _ => false,
        }
    }

    /// Whether the format is one of the block-compressed formats that the
    /// library decodes.
    pub fn has_block_decoder(self) -> (b: bool)
        ensures
            b == self.is_bcn(),
    {
        match self {
            Format::BC1_UNORM
            | Format::BC2_UNORM
            | Format::BC2_UNORM_PREMULTIPLIED_ALPHA
            | Format::BC3_UNORM
            | Format::BC3_UNORM_PREMULTIPLIED_ALPHA
            | Format::BC3_UNORM_RXGB
            | Format::BC4_UNORM
            | Format::BC4_SNORM
            | Format::BC5_UNORM
            | Format::BC5_SNORM => true,
            _ => false,
        }
    }
}

/// Reads the little-endian number of the 6 bytes from `pos` on.
pub fn read_number_6(enc: &[u8], pos: usize) -> (v: u64)
    requires
        pos + 6 <= enc@.len(),
    ensures
        v as nat == le_number(enc@, pos as int, 6),
        v < 0x1_0000_0000_0000,
{
    proof {
        reveal_with_fuel(le_number, 7);
    }
    enc[pos] as u64 + 256 * (enc[pos + 1] as u64 + 256 * (enc[pos + 2] as u64 + 256 * (enc[pos
        + 3] as u64 + 256 * (enc[pos + 4] as u64 + 256 * (enc[pos + 5] as u64)))))
}

/// Reads the little-endian number of the 8 bytes from `pos` on.
pub fn read_number_8(enc: &[u8], pos: usize) -> (v: u64)
    requires
        pos + 8 <= enc@.len(),
    ensures
        v as nat == le_number(enc@, pos as int, 8),
{
    proof {
        reveal_with_fuel(le_number, 9);
    }
    enc[pos] as u64 + 256 * (enc[pos + 1] as u64 + 256 * (enc[pos + 2] as u64 + 256 * (enc[pos
        + 3] as u64 + 256 * (enc[pos + 4] as u64 + 256 * (enc[pos + 5] as u64 + 256 * (enc[pos
        + 6] as u64 + 256 * (enc[pos + 7] as u64)))))))
}

/// The 16 lowest digits of `v` in a base.
pub fn digits(v: u64, base: u64) -> (d: [u8; 16])
    requires
        2 <= base <= 16,
    ensures
        forall|t: int|
            0 <= t < 16 ==> (#[trigger] d[t]) as nat == digit(v as nat, base as nat, t as nat),
        forall|t: int| 0 <= t < 16 ==> (#[trigger] d[t]) < base,
{
    let mut d: [u8; 16] = [0u8; 16];
    let mut rest: u64 = v;
    let mut t: usize = 0;
    while t < 16
        invariant
            t <= 16,
            2 <= base <= 16,
            rest as nat == drop_digits(v as nat, base as nat, t as nat),
            forall|i: int|
                0 <= i < t ==> (#[trigger] d[i]) as nat == digit(v as nat, base as nat, i as nat),
            forall|i: int| 0 <= i < t ==> (#[trigger] d[i]) < base,
        decreases 16 - t,
    {
        d[t] = (rest % base) as u8;
        rest = rest / base;
        t = t + 1;
    }
    d
}

/// The palette of a colour block: four entries of red, green, blue and
/// alpha.
pub fn color_palette(c0: u16, c1: u16, four: bool) -> (p: [u8; 16])
    ensures
        forall|i: int, ch: int|
            0 <= i < 4 && 0 <= ch < 4 ==> (#[trigger] p[4 * i + ch]) as nat == palette_channel(
                c0 as nat,
                c1 as nat,
                four,
                i as nat,
                ch as nat,
            ),
{
    let a = B5G6R5::from_u16(c0);
    let b = B5G6R5::from_u16(c1);
    let entry0 = a.to_n8();
    let entry1 = b.to_n8();
    let p: [u8; 16] = if four {
        let entry2 = a.one_third_color_rgb8(b);
        let entry3 = b.one_third_color_rgb8(a);
        [
            entry0[0],
            entry0[1],
            entry0[2],
            255,
            entry1[0],
            entry1[1],
            entry1[2],
            255,
            entry2[0],
            entry2[1],
            entry2[2],
            255,
            entry3[0],
            entry3[1],
            entry3[2],
            255,
        ]
    } else {
        let entry2 = a.mid_color_rgb8(b);
        [entry0[0], entry0[1], entry0[2], 255, entry1[0], entry1[1], entry1[2], 255, entry2[0], entry2[1], entry2[2], 255, 0, 0, 0, 0]
    };
    proof {
        assert forall|i: int, ch: int| 0 <= i < 4 && 0 <= ch < 4 implies (#[trigger] p[4 * i
            + ch]) as nat == palette_channel(c0 as nat, c1 as nat, four, i as nat, ch as nat) by {
            if i == 0 {
            } else if i == 1 {
            } else if i == 2 {
            } else {
            }
        }
    }
    p
}

/// `sum / den` rescaled to 8 bits and rounded to the nearest.
fn round_to_n8(sum: u32, den: u32) -> (r: u8)
    requires
        0 < den <= 1785,
        sum <= den,
    ensures
        r as nat == unorm_round(sum as nat, den as nat, 255),
{
    assert(unorm_round(sum as nat, den as nat, 255) == (510 * sum + den) / (2 * den)) by {
        assert(2 * (sum as nat) * 255 == 510 * sum);
    }
    let v: u32 = (510 * sum + den) / (2 * den);
    proof {
        vstd::arithmetic::div_mod::lemma_fundamental_div_mod(510 * sum + den, 2 * den);
        assert(v <= 255) by (nonlinear_arith)
            requires
                510 * sum + den == (2 * den) * v + (510 * sum + den) % (2 * den as int),
                0 <= (510 * sum + den) % (2 * den as int),
                sum <= den,
                den > 0,
        ;
    }
    v as u8
}

/// Entry `i` of the palette between two endpoints.
fn ramp_entry_of(e0: u32, e1: u32, eight: bool, max: u32, i: u32) -> (r: u8)
    requires
        max == 254 || max == 255,
        e0 <= max,
        e1 <= max,
        i < 8,
    ensures
        r as nat == ramp_entry(e0 as nat, e1 as nat, eight, max as nat, i as nat),
{
    if i == 0 {
        round_to_n8(e0, max)
    } else if i == 1 {
        round_to_n8(e1, max)
    } else if eight {
        assert((8 - i) * e0 + (i - 1) * e1 <= 7 * max) by (nonlinear_arith)
            requires
                e0 <= max,
                e1 <= max,
                2 <= i < 8,
        ;
        round_to_n8((8 - i) * e0 + (i - 1) * e1, 7 * max)
    } else if i < 6 {
        assert((6 - i) * e0 + (i - 1) * e1 <= 5 * max) by (nonlinear_arith)
            requires
                e0 <= max,
                e1 <= max,
                2 <= i < 6,
        ;
        round_to_n8((6 - i) * e0 + (i - 1) * e1, 5 * max)
    } else if i == 6 {
        0
    } else {
        255
    }
}

/// The palette of a single-channel block.
pub fn ramp_palette(a0: u8, a1: u8, signed: bool) -> (p: [u8; 8])
    ensures
        forall|i: int|
            0 <= i < 8 ==> (#[trigger] p[i]) as nat == ramp_value(
                a0 as nat,
                a1 as nat,
                signed,
                i as nat,
            ),
{
    let e0: u32 = if signed {
        s8::norm(a0) as u32
    } else {
        a0 as u32
    };
    let e1: u32 = if signed {
        s8::norm(a1) as u32
    } else {
        a1 as u32
    };
    let max: u32 = if signed {
        254
    } else {
        255
    };
    let eight: bool = if signed {
        (if a0 >= 128 {
            a0 as i16 - 256
        } else {
            a0 as i16
        }) > (if a1 >= 128 {
            a1 as i16 - 256
        } else {
            a1 as i16
        })
    } else {
        a0 > a1
    };
    let mut p: [u8; 8] = [0u8; 8];
    let mut i: usize = 0;
    while i < 8
        invariant
            i <= 8,
            max == 254 || max == 255,
            e0 <= max,
            e1 <= max,
            forall|k: int|
                0 <= k < i ==> (#[trigger] p[k]) as nat == ramp_entry(
                    e0 as nat,
                    e1 as nat,
                    eight,
                    max as nat,
                    k as nat,
                ),
        decreases 8 - i,
    {
        p[i] = ramp_entry_of(e0, e1, eight, max, i as u32);
        i = i + 1;
    }
    p
}

/// A colour channel with the premultiplication by alpha undone.
pub fn unpremultiply(c: u8, a: u8) -> (r: u8)
    ensures
        r as nat == unpremultiplied(c as nat, a as nat),
{
    if a == 0 {
        0
    } else {
        assert(2 * (c as nat) * 255 == 510 * c);
        let v: u32 = (510 * c as u32 + a as u32) / (2 * a as u32);
        if v > 255 {
            255
        } else {
            v as u8
        }
    }
}

/// The 16 texels of the colour block at `pos`: red, green, blue and alpha
/// of texel `t` at `4 * t`.
pub fn color_texels(enc: &[u8], pos: usize, always_four: bool) -> (r: [u8; 64])
    requires
        pos + 8 <= enc@.len(),
    ensures
        forall|t: int, ch: int|
            0 <= t < 16 && 0 <= ch < 4 ==> (#[trigger] r[4 * t + ch]) as nat == color_texel(
                enc@,
                pos as int,
                always_four,
                t as nat,
                ch as nat,
            ),
{
    let c0: u16 = enc[pos] as u16 + 256 * (enc[pos + 1] as u16);
    let c1: u16 = enc[pos + 2] as u16 + 256 * (enc[pos + 3] as u16);
    let indices: u32 = enc[pos + 4] as u32 + 256 * (enc[pos + 5] as u32) + 65536 * (enc[pos
        + 6] as u32) + 16777216 * (enc[pos + 7] as u32);
    let d = digits(indices as u64, 4);
    let palette = color_palette(c0, c1, always_four || c0 > c1);
    let mut r: [u8; 64] = [0u8; 64];
    let mut t: usize = 0;
    while t < 16
        invariant
            t <= 16,
            forall|i: int| 0 <= i < 16 ==> (#[trigger] d[i]) < 4,
            forall|i: int, ch: int|
                0 <= i < t && 0 <= ch < 4 ==> #[trigger] r[4 * i + ch] == palette[4 * (d[i] as int)
                    + ch],
        decreases 16 - t,
    {
        let from: usize = 4 * d[t] as usize;
        let ghost before = r;
        r[4 * t] = palette[from];
        r[4 * t + 1] = palette[from + 1];
        r[4 * t + 2] = palette[from + 2];
        r[4 * t + 3] = palette[from + 3];
        proof {
            assert forall|i: int, ch: int| 0 <= i < t + 1 && 0 <= ch < 4 implies #[trigger] r[4 * i
                + ch] == palette[4 * (d[i] as int) + ch] by {
                if i < t {
                    assert(r[4 * i + ch] == before[4 * i + ch]);
                }
            }
        }
        t = t + 1;
    }
    r
}

/// The 16 texels of the single-channel block at `pos`.
pub fn ramp_texels(enc: &[u8], pos: usize, signed: bool) -> (r: [u8; 16])
    requires
        pos + 8 <= enc@.len(),
    ensures
        forall|t: int|
            0 <= t < 16 ==> (#[trigger] r[t]) as nat == ramp_texel(
                enc@,
                pos as int,
                signed,
                t as nat,
            ),
{
    let palette = ramp_palette(enc[pos], enc[pos + 1], signed);
    let d = digits(read_number_6(enc, pos + 2), 8);
    let mut r: [u8; 16] = [0u8; 16];
    let mut t: usize = 0;
    while t < 16
        invariant
            t <= 16,
            forall|i: int| 0 <= i < 16 ==> (#[trigger] d[i]) < 8,
            forall|i: int| 0 <= i < t ==> #[trigger] r[i] == palette[d[i] as int],
        decreases 16 - t,
    {
        r[t] = palette[d[t] as usize];
        t = t + 1;
    }
    r
}

/// The 16 alphas of the block of 4-bit alphas at `pos`.
pub fn alpha_texels(enc: &[u8], pos: usize) -> (r: [u8; 16])
    requires
        pos + 8 <= enc@.len(),
    ensures
        forall|t: int|
            0 <= t < 16 ==> (#[trigger] r[t]) as nat == explicit_alpha_texel(
                enc@,
                pos as int,
                t as nat,
            ),
{
    let d = digits(read_number_8(enc, pos), 16);
    let mut r: [u8; 16] = [0u8; 16];
    let mut t: usize = 0;
    while t < 16
        invariant
            t <= 16,
            forall|i: int| 0 <= i < 16 ==> (#[trigger] d[i]) < 16,
            forall|i: int|
                0 <= i < t ==> (#[trigger] r[i]) as nat == unorm_round(d[i] as nat, 15, 255),
        decreases 16 - t,
    {
        r[t] = n4::n8(d[t]);
        t = t + 1;
    }
    r
}

/// A colour block within a block is the colour block at its place in the
/// encoded bytes, and so for the other kinds of block.
pub proof fn lemma_blocks_in_place(enc: Seq<u8>, start: int, bytes: int, offset: int, t: nat, ch: nat)
    requires
        0 <= start,
        0 <= offset,
        offset + 8 <= bytes,
        start + bytes <= enc.len(),
    ensures
        forall|four: bool|
            #[trigger] color_texel(enc.subrange(start, start + bytes), offset, four, t, ch)
                == color_texel(enc, start + offset, four, t, ch),
        forall|signed: bool|
            #[trigger] ramp_texel(enc.subrange(start, start + bytes), offset, signed, t)
                == ramp_texel(enc, start + offset, signed, t),
        explicit_alpha_texel(enc.subrange(start, start + bytes), offset, t) == explicit_alpha_texel(
            enc,
            start + offset,
            t,
        ),
{
    let block = enc.subrange(start, start + bytes);
    reveal_with_fuel(le_number, 9);
    assert(le_number(block, offset + 2, 6) == le_number(enc, start + offset + 2, 6));
    assert(le_number(block, offset, 8) == le_number(enc, start + offset, 8));
}

/// What the texels of a block hold in the channels that the format has.
pub open spec fn block_decoded(format: Format, block: Seq<u8>, texels: Seq<u8>) -> bool {
    &&& texels.len() == 64
    &&& forall|t: int, ch: int|
        0 <= t < 16 && 0 <= ch < format.channels_spec().count_spec() ==> (#[trigger] texels[4 * t
            + ch]) as nat == texel_channel(format, block, t as nat, ch as nat)
}

/// Decodes the block at `start`: the native channels of texel `t` stand at
/// `4 * t`.
pub fn decode_block(format: Format, enc: &[u8], start: usize) -> (r: [u8; 64])
    requires
        format.is_bcn(),
        start + format.block_shape().bytes <= enc@.len(),
    ensures
        block_decoded(
            format,
            enc@.subrange(start as int, start + format.block_shape().bytes),
            r@,
        ),
{
    let len: usize = enc.len();
    let ghost bytes = format.block_shape().bytes as int;
    let ghost block = enc@.subrange(start as int, start + bytes);
    let mut r: [u8; 64] = match format {
        Format::BC1_UNORM => color_texels(enc, start, false),
        Format::BC2_UNORM
        | Format::BC2_UNORM_PREMULTIPLIED_ALPHA
        | Format::BC3_UNORM
        | Format::BC3_UNORM_PREMULTIPLIED_ALPHA
        | Format::BC3_UNORM_RXGB => color_texels(enc, start + 8, true),
        _ => [0u8; 64],
    };
    let first: [u8; 16] = match format {
        Format::BC2_UNORM | Format::BC2_UNORM_PREMULTIPLIED_ALPHA => alpha_texels(enc, start),
        Format::BC3_UNORM
        | Format::BC3_UNORM_PREMULTIPLIED_ALPHA
        | Format::BC3_UNORM_RXGB
        | Format::BC4_UNORM
        | Format::BC5_UNORM => ramp_texels(enc, start, false),
        Format::BC4_SNORM | Format::BC5_SNORM => ramp_texels(enc, start, true),
        _ => [0u8; 16],
    };
    let second: [u8; 16] = match format {
        Format::BC5_UNORM => ramp_texels(enc, start + 8, false),
        Format::BC5_SNORM => ramp_texels(enc, start + 8, true),
        _ => [0u8; 16],
    };
    let ghost colors = r;
    let mut t: usize = 0;
    while t < 16
        invariant
            t <= 16,
            format.is_bcn(),
            forall|i: int| 64 > i >= 4 * t ==> #[trigger] r[i] == colors[i],
            forall|i: int, ch: int|
                0 <= i < t && 0 <= ch < 4 ==> #[trigger] r[4 * i + ch] == texel_of(
                    format,
                    colors@,
                    first@,
                    second@,
                    i,
                    ch,
                ),
        decreases 16 - t,
    {
        let ghost before = r;
        match format {
            Format::BC2_UNORM | Format::BC3_UNORM => {
                r[4 * t + 3] = first[t];
            },
            Format::BC2_UNORM_PREMULTIPLIED_ALPHA | Format::BC3_UNORM_PREMULTIPLIED_ALPHA => {
                let a = first[t];
                r[4 * t] = unpremultiply(r[4 * t], a);
                r[4 * t + 1] = unpremultiply(r[4 * t + 1], a);
                r[4 * t + 2] = unpremultiply(r[4 * t + 2], a);
                r[4 * t + 3] = a;
            },
            Format::BC3_UNORM_RXGB | Format::BC4_UNORM | Format::BC4_SNORM => {
                r[4 * t] = first[t];
            },
            Format::BC5_UNORM => {
                r[4 * t] = first[t];
                r[4 * t + 1] = second[t];
                r[4 * t + 2] = 0;
            },
            Format::BC5_SNORM => {
                r[4 * t] = first[t];
                r[4 * t + 1] = second[t];
                r[4 * t + 2] = 128;
            },
            _ => {},
        }
        proof {
            assert forall|i: int, ch: int| 0 <= i < t + 1 && 0 <= ch < 4 implies #[trigger] r[4 * i
                + ch] == texel_of(format, colors@, first@, second@, i, ch) by {
                if i < t {
                    assert(r[4 * i + ch] == before[4 * i + ch]);
                } else {
                    assert(before[4 * i + ch] == colors[4 * i + ch]);
                }
            }
        }
        t = t + 1;
    }
    proof {
        assert forall|i: int, ch: int|
            0 <= i < 16 && 0 <= ch < format.channels_spec().count_spec() implies (#[trigger] r[4 * i
            + ch]) as nat == texel_channel(format, block, i as nat, ch as nat) by {
            assert(r[4 * i + ch] == texel_of(format, colors@, first@, second@, i, ch));
            lemma_blocks_in_place(enc@, start as int, bytes, 0, i as nat, ch as nat);
            if bytes == 16 {
                lemma_blocks_in_place(enc@, start as int, bytes, 8, i as nat, ch as nat);
                lemma_blocks_in_place(enc@, start as int, bytes, 8, i as nat, 0);
                lemma_blocks_in_place(enc@, start as int, bytes, 8, i as nat, 1);
                lemma_blocks_in_place(enc@, start as int, bytes, 8, i as nat, 2);
            }
        }
    }
    r
}

/// Channel `ch` of texel `t` put together from the texels of the parts of a
/// block: its colour block, and its first and second single-channel block.
pub open spec fn texel_of(
    format: Format,
    colors: Seq<u8>,
    first: Seq<u8>,
    second: Seq<u8>,
    t: int,
    ch: int,
) -> u8 {
    match format {
        Format::BC2_UNORM | Format::BC3_UNORM => if ch == 3 {
            first[t]
        } else {
            colors[4 * t + ch]
        },
        Format::BC2_UNORM_PREMULTIPLIED_ALPHA | Format::BC3_UNORM_PREMULTIPLIED_ALPHA => if ch == 3 {
            first[t]
        } else {
            unpremultiplied(colors[4 * t + ch] as nat, first[t] as nat) as u8
        },
        Format::BC3_UNORM_RXGB | Format::BC4_UNORM | Format::BC4_SNORM => if ch == 0 {
            first[t]
        } else {
            colors[4 * t + ch]
        },
        Format::BC5_UNORM => if ch == 0 {
            first[t]
        } else if ch == 1 {
            second[t]
        } else if ch == 2 {
            0
        } else {
            colors[4 * t + ch]
        },
        Format::BC5_SNORM => if ch == 0 {
            first[t]
        } else if ch == 1 {
            second[t]
        } else if ch == 2 {
            128
        } else {
            colors[4 * t + ch]
        },
        _ => colors[4 * t + ch],
    }
}

} // verus!
