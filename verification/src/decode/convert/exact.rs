//! Why the exact conversions of normalised integers to single precision
//! are exact: the product, or the sum of two terms, that a conversion
//! computes is the single-precision number nearest to the quotient of the
//! value by its largest value.
//!
//! The products are the numbers of the contracts of `f32_exact_bits`, in
//! units of a power of two: a conversion gives the bit pattern of the
//! rounded product, and this file shows that the rounded product is
//! nearest to the quotient.

use vstd::prelude::*;
use vstd::arithmetic::div_mod::lemma_fundamental_div_mod;
use vstd::arithmetic::power2::{lemma2_to64, lemma2_to64_rest, lemma_pow2_adds, lemma_pow2_pos,
    lemma_pow2_strictly_increases, lemma_pow2_unfold, pow2};
use vstd::bits::{lemma_u64_shl_is_mul, lemma_u64_shr_is_div};
use crate::decode::convert::exact_n16;
use crate::decode::convert::exact_n16::sum_of_terms;
use crate::decode::convert::rounding::{lemma_round_brackets, lemma_round_of_multiple,
    lemma_shift_between};
use crate::decode::convert::single::{single_is_finite, single_is_negative, single_scaled, sp_round,
    sp_shift, sp_shift_bound, sp_significand};

verus! {

/// The next smaller number of 24 significant bits. Below a power of two the
/// numbers lie at half the distance.
pub open spec fn below(r: nat) -> int {
    let s = sp_shift(r);
    let u = pow2(s);
    if s > 0 && r == 0x80_0000 * u {
        r - u / 2
    } else {
        r - u
    }
}

/// The next larger number of 24 significant bits.
pub open spec fn above(r: nat) -> nat {
    r + pow2(sp_shift(r))
}

/// Whether `r` is the number of 24 significant bits nearest to the
/// quotient `num / den`, in units of which `one` make 1: the quotient lies
/// between the middle to the next smaller number and the middle to the
/// next larger one, and it lies in one of the middles only where the
/// significand of `r` is even.
pub open spec fn is_nearest(r: nat, num: nat, den: nat, one: nat) -> bool {
    let twice = 2 * (num * one);
    &&& sp_round(r) == r
    &&& (below(r) + r) * den <= twice <= (r + above(r)) * den
    &&& ((below(r) + r) * den == twice || (r + above(r)) * den == twice) ==> (r / pow2(
        sp_shift(r),
    )) % 2 == 0
}

/// Whether a bit pattern is the single-precision number nearest to the
/// quotient `num / den`: it is a number, not negative, and its magnitude
/// in units of `2^-149` is nearest to the quotient.
pub open spec fn is_nearest_single(bits: u32, num: nat, den: nat) -> bool {
    &&& single_is_finite(bits)
    &&& !single_is_negative(bits)
    &&& is_nearest(single_scaled(bits), num, den, pow2(149))
}

/// A number that is nearest to a quotient is nearest in smaller units too:
/// with `w` zeros behind it, and `2^w` times as many units to 1. The number
/// is above `2^23`, so that its neighbours are those of its own units, or
/// it is 0.
pub proof fn lemma_nearest_scales(r: nat, num: nat, den: nat, one: nat, w: nat)
    requires
        is_nearest(r, num, den, one),
        r > 0x80_0000 || (r == 0 && num == 0),
    ensures
        is_nearest(r * pow2(w), num, den, one * pow2(w)),
{
    lemma2_to64();
    let z = pow2(w);
    lemma_pow2_pos(w);
    if r == 0 {
        assert(r * z == 0) by (nonlinear_arith)
            requires
                r == 0,
        ;
        assert(num * (one * z) == 0) by (nonlinear_arith)
            requires
                num == 0,
        ;
        assert(num * one == 0) by (nonlinear_arith)
            requires
                num == 0,
        ;
    } else if r < 0x100_0000 {
        // the number has no bits too many: its unit is 1
        let scaled = r * z;
        lemma_exact_without_shift(r);
        lemma_pow2_adds(23, w);
        lemma_pow2_adds(24, w);
        assert(0x80_0000 * z < scaled < 0x100_0000 * z) by (nonlinear_arith)
            requires
                scaled == r * z,
                0x80_0000 < r < 0x100_0000,
                z > 0,
        ;
        lemma_shift_between(scaled, w);
        lemma_round_of_multiple(r, w);
        let b = below(r);
        let a = above(r);
        assert(b == r - 1 && a == r + 1);
        assert(below(scaled) == scaled - z);
        assert(above(scaled) == scaled + z);
        let twice = 2 * (num * one);
        assert(2 * (num * (one * z)) == twice * z) by (nonlinear_arith)
            requires
                twice == 2 * (num * one),
        ;
        assert((scaled - z + scaled) * den == ((b + r) * den) * z) by (nonlinear_arith)
            requires
                scaled == r * z,
                b == r - 1,
        ;
        assert((scaled + (scaled + z)) * den == ((r + a) * den) * z) by (nonlinear_arith)
            requires
                scaled == r * z,
                a == r + 1,
        ;
        assert(((b + r) * den) * z <= twice * z <= ((r + a) * den) * z) by (nonlinear_arith)
            requires
                (b + r) * den <= twice <= (r + a) * den,
                z > 0,
        ;
        assert((((b + r) * den) * z == twice * z) == ((b + r) * den == twice)) by (nonlinear_arith)
            requires
                z > 0,
        ;
        assert((((r + a) * den) * z == twice * z) == ((r + a) * den == twice)) by (nonlinear_arith)
            requires
                z > 0,
        ;
        vstd::arithmetic::div_mod::lemma_div_by_multiple(r as int, z as int);
        assert(r / 1 == r);
    } else {
        let s = sp_shift(r);
        let u = pow2(s);
        let scaled = r * z;
        crate::decode::convert::rounding::lemma_shift_scales(r, w);
        crate::decode::convert::rounding::lemma_round_scales(r, w);
        lemma_pow2_adds(s, w);
        lemma_pow2_pos(s);
        assert(s >= 1);
        lemma_pow2_unfold(s);
        let half = pow2((s - 1) as nat);
        assert(u / 2 == half);
        assert(u * z == 2 * (half * z)) by (nonlinear_arith)
            requires
                u == 2 * half,
        ;
        assert((u * z) / 2 == half * z);
        assert((scaled == 0x80_0000 * (u * z)) == (r == 0x80_0000 * u)) by (nonlinear_arith)
            requires
                scaled == r * z,
                z > 0,
        ;
        let b = below(r);
        let a = above(r);
        assert(below(scaled) == b * z) by (nonlinear_arith)
            requires
                below(scaled) == (if scaled == 0x80_0000 * (u * z) {
                    scaled - half * z
                } else {
                    scaled - u * z
                }),
                b == (if r == 0x80_0000 * u {
                    r - half
                } else {
                    r - u
                }),
                (scaled == 0x80_0000 * (u * z)) == (r == 0x80_0000 * u),
                scaled == r * z,
        ;
        assert(above(scaled) == a * z) by (nonlinear_arith)
            requires
                above(scaled) == scaled + u * z,
                a == r + u,
                scaled == r * z,
        ;
        let twice = 2 * (num * one);
        assert(2 * (num * (one * z)) == twice * z) by (nonlinear_arith)
            requires
                twice == 2 * (num * one),
        ;
        assert((b * z + scaled) * den == ((b + r) * den) * z) by (nonlinear_arith)
            requires
                scaled == r * z,
        ;
        assert((scaled + a * z) * den == ((r + a) * den) * z) by (nonlinear_arith)
            requires
                scaled == r * z,
        ;
        assert(((b + r) * den) * z <= twice * z <= ((r + a) * den) * z) by (nonlinear_arith)
            requires
                (b + r) * den <= twice <= (r + a) * den,
                z > 0,
        ;
        assert((((b + r) * den) * z == twice * z) == ((b + r) * den == twice)) by (nonlinear_arith)
            requires
                z > 0,
        ;
        assert((((r + a) * den) * z == twice * z) == ((r + a) * den == twice)) by (nonlinear_arith)
            requires
                z > 0,
        ;
        assert(z * r == scaled && z * u == u * z) by (nonlinear_arith)
            requires
                scaled == r * z,
        ;
        vstd::arithmetic::div_mod::lemma_div_multiples_vanish_quotient(z as int, r as int, u as int);
    }
}

/// The rounded number of a conversion, as a bit pattern, is the
/// single-precision number nearest to the quotient where it is nearest in
/// its own units: the bit pattern is the rounding of `p * 2^(w - 149)`.
pub proof fn lemma_nearest_single(bits: u32, p: nat, w: nat, num: nat, den: nat)
    requires
        w <= 149,
        single_is_finite(bits),
        !single_is_negative(bits),
        single_scaled(bits) == sp_round(p) * pow2(w),
        is_nearest(sp_round(p), num, den, pow2((149 - w) as nat)),
        p > 0x80_0000 || (p == 0 && num == 0),
    ensures
        is_nearest_single(bits, num, den),
{
    lemma2_to64();
    lemma_pow2_adds((149 - w) as nat, w);
    if p == 0 {
        lemma_exact_without_shift(0);
    } else if p < 0x100_0000 {
        lemma_exact_without_shift(p);
    } else {
        crate::decode::convert::rounding::lemma_round_not_below(0x80_0000, 1, p);
        assert(0x80_0000 * pow2(1) == 0x100_0000);
    }
    lemma_nearest_scales(sp_round(p), num, den, pow2((149 - w) as nat), w);
}

/// A rounded number is nearest to a quotient where it lies between the
/// middles that its unit gives: `p` has `s` bits too many, `r` is `p`
/// rounded, and the middles are written with the unit `2^s`.
proof fn lemma_nearest(p: nat, s: nat, r: nat, num: nat, den: nat, one: nat)
    requires
        pow2(23 + s) <= p < pow2(24 + s),
        r == sp_round(p),
        ({
            let u = pow2(s);
            let b: int = if r == 0x80_0000 * u && s > 0 {
                r - u / 2
            } else {
                r - u
            };
            let a: int = if r == 0x100_0000 * u {
                (r + 2 * u) as int
            } else {
                (r + u) as int
            };
            let twice = 2 * (num * one);
            &&& (b + r) * den <= twice <= (r + a) * den
            &&& ((b + r) * den == twice || (r + a) * den == twice) ==> (r == 0x100_0000 * u || (r
                / u) % 2 == 0)
        }),
    ensures
        is_nearest(r, num, den, one),
{
    lemma2_to64();
    let u = pow2(s);
    lemma_pow2_adds(23, s);
    lemma_pow2_adds(24, s);
    lemma_shift_between(p, s);
    lemma_round_brackets(p);
    let q = p / u;
    assert(u * q >= 0x80_0000 * u) by (nonlinear_arith)
        requires
            u * q <= p < u * q + u,
            p >= 0x80_0000 * u,
            u > 0,
    ;
    assert(u * q + u <= 0x100_0000 * u) by (nonlinear_arith)
        requires
            q < 0x100_0000,
            u > 0,
    ;
    if r == 0x100_0000 * u {
        lemma_pow2_unfold(s + 1);
        lemma_pow2_adds(23, s + 1);
        lemma_pow2_adds(24, s + 1);
        assert(r == 0x80_0000 * pow2(s + 1));
        assert(r < pow2(24 + (s + 1))) by (nonlinear_arith)
            requires
                r == 0x80_0000 * pow2(s + 1),
                pow2(24 + (s + 1)) == 0x100_0000 * pow2(s + 1),
                pow2(s + 1) > 0,
        ;
        lemma_shift_between(r, s + 1);
        lemma_round_of_multiple(0x80_0000, s + 1);
        assert((2 * u) / 2 == u);
        vstd::arithmetic::div_mod::lemma_div_by_multiple(0x80_0000, pow2(s + 1) as int);
    } else {
        let sig = sp_significand(p);
        assert(r == sig * u);
        assert(sig == q || sig == q + 1);
        assert(sig * u == u * sig) by (nonlinear_arith);
        assert(u * (q + 1) == u * q + u) by (nonlinear_arith);
        assert(sig < 0x100_0000) by (nonlinear_arith)
            requires
                sig * u < 0x100_0000 * u,
                u > 0,
        ;
        lemma_shift_between(r, s);
        lemma_round_of_multiple(sig, s);
    }
}

/// A number rounded to 24 significant bits, written with shifts: `q` is
/// the number without its `s` bits too many.
pub open spec fn rounded_by_shift(p: u64, s: u64) -> u64 {
    let q = p >> s;
    let rem = (p - (q << s)) as u64;
    let unit = 1u64 << s;
    if 2 * rem > unit || (2 * rem == unit && q % 2 == 1) {
        ((q + 1) as u64) << s
    } else {
        q << s
    }
}

/// What makes a rounded number the nearest to a quotient, in the numbers
/// of 64 bits that the products of the conversions are.
pub open spec fn nearest_in_unit(r: u64, s: u64, num: u64, den: u64, one: u64) -> bool {
    let u = 1u64 << s;
    let b: int = if r == 0x80_0000 * u && s > 0 {
        r - u / 2
    } else {
        r - u
    };
    let a: int = if r == 0x100_0000 * u {
        r + 2 * u
    } else {
        r + u
    };
    let twice = 2 * (num * one);
    &&& (b + r) * den <= twice <= (r + a) * den
    &&& ((b + r) * den == twice || (r + a) * den == twice) ==> (r == 0x100_0000 * u || (r / u) % 2
        == 0)
}

/// The rounding of a number of 64 bits by shifts is its rounding to 24
/// significant bits, and a number that is nearest in its unit is nearest.
proof fn lemma_nearest_by_shift(p: u64, num: u64, den: u64, one: u64)
    requires
        0x100_0000 <= p < 0x1000_0000_0000_0000,
        nearest_in_unit(rounded_by_shift(p, sp_shift(p as nat) as u64), sp_shift(p as nat) as u64, num, den, one),
    ensures
        sp_round(p as nat) == rounded_by_shift(p, sp_shift(p as nat) as u64),
        is_nearest(sp_round(p as nat), num as nat, den as nat, one as nat),
{
    lemma2_to64();
    lemma2_to64_rest();
    let s = sp_shift(p as nat);
    let u = pow2(s);
    sp_shift_bound(p as nat, 60);
    lemma_pow2_strictly_increases(s, 37);
    lemma_round_brackets(p as nat);
    lemma_pow2_adds(23, s);
    lemma_pow2_adds(24, s);
    let q = p as nat / u;
    lemma_fundamental_div_mod(p as int, u as int);
    assert(u * q + u <= 0x100_0000 * u) by (nonlinear_arith)
        requires
            q < 0x100_0000,
            u > 0,
    ;
    assert(0x80_0000 * u <= u * q) by (nonlinear_arith)
        requires
            q >= 0x80_0000,
            u > 0,
    ;
    lemma_u64_shr_is_div(p, s as u64);
    lemma_u64_shl_is_mul(1, s as u64);
    assert(q * u == u * q) by (nonlinear_arith);
    assert((q + 1) * u == u * q + u) by (nonlinear_arith);
    lemma_u64_shl_is_mul(q as u64, s as u64);
    lemma_u64_shl_is_mul((q + 1) as u64, s as u64);
    let r = sp_round(p as nat);
    assert(sp_significand(p as nat) * u == u * sp_significand(p as nat)) by (nonlinear_arith);
    assert(r == rounded_by_shift(p, s as u64));
    lemma_nearest(p as nat, s, r, num as nat, den as nat, one as nat);
}

/// The bit patterns of 0 and of 1 are the single-precision numbers nearest
/// to the quotients of a 1-bit value by 1.
pub proof fn lemma_n1_is_nearest(x: nat)
    requires
        x <= 1,
    ensures
        is_nearest_single(
            if x == 0 {
                0u32
            } else {
                0x3F80_0000u32
            },
            x,
            1,
        ),
{
    lemma2_to64();
    lemma2_to64_rest();
    if x == 0 {
        lemma_exact_without_shift(0);
        assert(0 * pow2(149) == 0) by (nonlinear_arith);
        assert(single_scaled(0u32) == 0);
    } else {
        let bits = 0x3F80_0000u32;
        lemma_shift_between(0x100_0000, 1);
        lemma_round_of_multiple(0x80_0000, 1);
        assert(0x80_0000 * pow2(1) == 0x100_0000);
        assert(is_nearest(0x100_0000, 1, 1, 0x100_0000));
        lemma_pow2_adds(1, 125);
        assert(bits as nat / 0x80_0000 == 127);
        assert(bits as nat % 0x80_0000 == 0);
        assert(single_scaled(bits) == 0x80_0000 * pow2(126));
        assert(0x80_0000 * pow2(126) == 0x100_0000 * pow2(125)) by (nonlinear_arith)
            requires
                pow2(126) == 2 * pow2(125),
        ;
        lemma_nearest_single(bits, 0x100_0000, 125, 1, 1);
    }
}

/// The product of a 2-bit value, rounded, is nearest to the quotient of the
/// value by 3, in units of `2^-25`.
#[verifier::rlimit(100)]
proof fn lemma_n2_products(x: u64, p: u64, s: u64)
    by (bit_vector)
    requires
        1 <= x <= 3,
        p == x * 0xAA_AAAB,
        s <= 17,
        (0x80_0000u64 << s) <= p,
        p < (0x100_0000u64 << s),
    ensures
        nearest_in_unit(rounded_by_shift(p, s), s, x, 3, 0x200_0000),
{
}

/// The conversion of a 2-bit value is exact: the rounded product that it
/// computes, in units of `2^-25`, is the single-precision number nearest to
/// the quotient of the value by 3.
pub proof fn lemma_n2_is_nearest(x: nat)
    requires
        x <= 3,
    ensures
        is_nearest(sp_round(x * 0xAA_AAAB), x, 3, pow2(25)),
        x >= 1 ==> x * 0xAA_AAAB >= 0x80_0000,
{
    lemma2_to64();
    lemma2_to64_rest();
    let p = x * 0xAA_AAAB;
    if x == 0 {
        assert(sp_shift(0) == 0);
    } else if x == 1 {
        // without bits too many the product is the nearest number itself
        lemma_exact_without_shift(p);
        assert(pow2(0) == 1);
        assert(below(p) == p - 1 && above(p) == p + 1);
    } else {
        let s = sp_shift(p);
        sp_shift_bound(p, 41);
        lemma_shift_in_unit(p);
        lemma_n2_products(x as u64, p as u64, s as u64);
        lemma_nearest_by_shift(p as u64, x as u64, 3, 0x200_0000);
    }
}

/// The product of a 4-bit value, rounded, is nearest to the quotient of the
/// value by 15, in units of `2^-29`.
#[verifier::rlimit(100)]
proof fn lemma_n4_products(x: u64, p: u64, s: u64)
    by (bit_vector)
    requires
        1 <= x <= 15,
        p == x * 3 * 0xB6_0B61,
        s <= 17,
        (0x80_0000u64 << s) <= p,
        p < (0x100_0000u64 << s),
    ensures
        nearest_in_unit(rounded_by_shift(p, s), s, x, 15, 0x2000_0000),
{
}

/// The exact conversion of a 4-bit value is exact: the rounded product that
/// it computes, in units of `2^-29`, is the single-precision number nearest
/// to the quotient of the value by 15.
pub proof fn lemma_n4_exact_is_nearest(x: nat)
    requires
        x <= 15,
    ensures
        is_nearest(sp_round((x * 3) * 0xB6_0B61), x, 15, pow2(29)),
{
    lemma2_to64();
    lemma2_to64_rest();
    let p = (x * 3) * 0xB6_0B61;
    if x == 0 {
        assert(sp_shift(0) == 0);
    } else {
        let s = sp_shift(p);
        sp_shift_bound(p, 41);
        lemma_shift_in_unit(p);
        lemma_n4_products(x as u64, p as u64, s as u64);
        lemma_nearest_by_shift(p as u64, x as u64, 15, 0x2000_0000);
    }
}

/// The product of a 5-bit value, rounded, is nearest to the quotient of the
/// value by 31, in units of `2^-30`.
#[verifier::rlimit(100)]
proof fn lemma_n5_products(x: u64, p: u64, s: u64)
    by (bit_vector)
    requires
        1 <= x <= 31,
        p == x * 3 * 0xB0_2C0B,
        s <= 17,
        (0x80_0000u64 << s) <= p,
        p < (0x100_0000u64 << s),
    ensures
        nearest_in_unit(rounded_by_shift(p, s), s, x, 31, 0x4000_0000),
{
}

/// The exact conversion of a 5-bit value is exact: the rounded product that
/// it computes, in units of `2^-30`, is the single-precision number nearest
/// to the quotient of the value by 31.
pub proof fn lemma_n5_exact_is_nearest(x: nat)
    requires
        x <= 31,
    ensures
        is_nearest(sp_round((x * 3) * 0xB0_2C0B), x, 31, pow2(30)),
{
    lemma2_to64();
    lemma2_to64_rest();
    let p = (x * 3) * 0xB0_2C0B;
    if x == 0 {
        assert(sp_shift(0) == 0);
    } else {
        let s = sp_shift(p);
        sp_shift_bound(p, 41);
        lemma_shift_in_unit(p);
        lemma_n5_products(x as u64, p as u64, s as u64);
        lemma_nearest_by_shift(p as u64, x as u64, 31, 0x4000_0000);
    }
}

/// The product of a 6-bit value, rounded, is nearest to the quotient of the
/// value by 63, in units of `2^-32`.
#[verifier::rlimit(100)]
proof fn lemma_n6_products(x: u64, p: u64, s: u64)
    by (bit_vector)
    requires
        1 <= x <= 63,
        p == x * 5 * 0xD0_0D01,
        s <= 17,
        (0x80_0000u64 << s) <= p,
        p < (0x100_0000u64 << s),
    ensures
        nearest_in_unit(rounded_by_shift(p, s), s, x, 63, 0x1_0000_0000),
{
}

/// The exact conversion of a 6-bit value is exact: the rounded product that
/// it computes, in units of `2^-32`, is the single-precision number nearest
/// to the quotient of the value by 63.
pub proof fn lemma_n6_exact_is_nearest(x: nat)
    requires
        x <= 63,
    ensures
        is_nearest(sp_round((x * 5) * 0xD0_0D01), x, 63, pow2(32)),
{
    lemma2_to64();
    lemma2_to64_rest();
    let p = (x * 5) * 0xD0_0D01;
    if x == 0 {
        assert(sp_shift(0) == 0);
    } else {
        let s = sp_shift(p);
        sp_shift_bound(p, 41);
        lemma_shift_in_unit(p);
        lemma_n6_products(x as u64, p as u64, s as u64);
        lemma_nearest_by_shift(p as u64, x as u64, 63, 0x1_0000_0000);
    }
}

/// The product of an 8-bit value, rounded, is nearest to the quotient of the
/// value by 255, in units of `2^-33`.
#[verifier::rlimit(100)]
proof fn lemma_n8_products(x: u64, p: u64, s: u64)
    by (bit_vector)
    requires
        1 <= x <= 255,
        p == x * 3 * 0xAB_5601,
        s <= 17,
        (0x80_0000u64 << s) <= p,
        p < (0x100_0000u64 << s),
    ensures
        nearest_in_unit(rounded_by_shift(p, s), s, x, 255, 0x2_0000_0000),
{
}

/// The exact conversion of an 8-bit value is exact: the rounded product that
/// it computes, in units of `2^-33`, is the single-precision number nearest
/// to the quotient of the value by 255.
pub proof fn lemma_n8_exact_is_nearest(x: nat)
    requires
        x <= 255,
    ensures
        is_nearest(sp_round((x * 3) * 0xAB_5601), x, 255, pow2(33)),
{
    lemma2_to64();
    lemma2_to64_rest();
    let p = (x * 3) * 0xAB_5601;
    if x == 0 {
        assert(sp_shift(0) == 0);
    } else {
        let s = sp_shift(p);
        sp_shift_bound(p, 41);
        lemma_shift_in_unit(p);
        lemma_n8_products(x as u64, p as u64, s as u64);
        lemma_nearest_by_shift(p as u64, x as u64, 255, 0x2_0000_0000);
    }
}

/// The product of a 10-bit value, rounded, is nearest to the quotient of
/// the value by 1023, in units of `2^-40`.
#[verifier::rlimit(100)]
proof fn lemma_n10_products(x: u64, p: u64, s: u64)
    by (bit_vector)
    requires
        1 <= x <= 1023,
        p == x * 85 * 0xC0_F0FD,
        s <= 17,
        (0x80_0000u64 << s) <= p,
        p < (0x100_0000u64 << s),
    ensures
        nearest_in_unit(rounded_by_shift(p, s), s, x, 1023, 0x100_0000_0000),
{
}

/// The exact conversion of a 10-bit value is exact: the rounded product
/// that it computes, in units of `2^-40`, is the single-precision number
/// nearest to the quotient of the value by 1023.
pub proof fn lemma_n10_exact_is_nearest(x: nat)
    requires
        x <= 1023,
    ensures
        is_nearest(sp_round((x * 85) * 0xC0_F0FD), x, 1023, pow2(40)),
{
    lemma2_to64();
    lemma2_to64_rest();
    let p = (x * 85) * 0xC0_F0FD;
    if x == 0 {
        assert(sp_shift(0) == 0);
    } else {
        let s = sp_shift(p);
        sp_shift_bound(p, 41);
        lemma_shift_in_unit(p);
        lemma_n10_products(x as u64, p as u64, s as u64);
        lemma_nearest_by_shift(p as u64, x as u64, 1023, 0x100_0000_0000);
    }
}

/// A number without bits too many is not changed by rounding.
pub proof fn lemma_exact_without_shift(p: nat)
    requires
        p < 0x100_0000,
    ensures
        sp_shift(p) == 0,
        sp_round(p) == p,
{
    lemma2_to64();
    lemma_round_of_multiple(p, 0);
    assert(p * pow2(0) == p) by (nonlinear_arith)
        requires
            pow2(0) == 1,
    ;
}

/// A number without bits too many is not changed by the rounding by
/// shifts.
proof fn lemma_no_shift(p: u64)
    by (bit_vector)
    requires
        p < 0x100_0000,
    ensures
        rounded_by_shift(p, 0) == p,
{
}

/// The bits too many of the two terms of a 16-bit value with its leading
/// one at place `k`: the second term has `k - 7` of them, or none, and the
/// sum has `k + 9`.
proof fn lemma_n16_shifts(x: nat, k: nat)
    requires
        k <= 15,
        pow2(k) <= x < pow2(k + 1),
        x <= 65534,
    ensures
        sp_shift(x * 65537) == (if k >= 8 {
            (k - 7) as nat
        } else {
            0
        }),
        sp_shift(x * 0x1_0000_0000 + sp_round(x * 65537)) == k + 9,
        sp_round(x * 65537) < 0x1_0000_0000_0000,
        0x100_0000 <= x * 0x1_0000_0000 + sp_round(x * 65537) < 0x1_0000_0000_0000,
{
    lemma2_to64();
    lemma2_to64_rest();
    let first = x * 65537;
    let low = pow2(k);
    let high = pow2(k + 1);
    lemma_pow2_unfold(k + 1);
    lemma_pow2_adds(16, k);
    lemma_pow2_adds(17, k);
    lemma_pow2_adds(32, k);
    lemma_pow2_adds(33, k);
    if k < 15 {
        lemma_pow2_strictly_increases(k + 1, 16);
    }
    assert(high <= 65536);
    assert(pow2(16 + k) <= first < pow2(17 + k));
    if k >= 8 {
        assert(23 + (k - 7) as nat == 16 + k);
        lemma_shift_between(first, (k - 7) as nat);
    } else {
        lemma_pow2_strictly_increases(17 + k, 25);
        assert(first < 0x200_0000);
        if first >= 0x100_0000 {
            assert(k == 7);
        }
    }
    if k >= 7 {
        crate::decode::convert::single::sp_round_bound(first, 17 + k);
    } else {
        lemma_pow2_strictly_increases(17 + k, 24);
        assert(sp_shift(first) == 0);
        lemma_exact_without_shift(first);
    }
    let second = sp_round(first);
    assert(second <= pow2(17 + k));
    let sum = x * 0x1_0000_0000 + second;
    assert(pow2(32 + k) <= sum);
    assert(sum < pow2(33 + k));
    assert(23 + (k + 9) == 32 + k);
    lemma_shift_between(sum, k + 9);
    lemma_pow2_strictly_increases(32 + k, 48);
}

/// The two terms of the largest 16-bit value: the second term is rounded
/// up to `2^32`, and the sum is `2^48`.
proof fn lemma_n16_last()
    ensures
        sp_shift(65535 * 65537) == 8,
        sp_round(65535 * 65537) == 0x1_0000_0000,
        sp_shift(65535 * 0x1_0000_0000 + sp_round(65535 * 65537)) == 25,
{
    lemma2_to64();
    lemma2_to64_rest();
    lemma_shift_between(65535 * 65537, 8);
    lemma_shift_between(0x1_0000_0000_0000, 25);
}

/// The exact conversion of a 16-bit value is exact: the rounded sum of the
/// two terms that it computes, in units of `2^-48`, is the single-precision
/// number nearest to the quotient of the value by 65535.
pub proof fn lemma_n16_exact_is_nearest(x: nat)
    requires
        x <= 65535,
    ensures
        is_nearest(sp_round(x * 0x1_0000_0000 + sp_round(x * 65537)), x, 65535, pow2(48)),
{
    lemma2_to64();
    lemma2_to64_rest();
    let first = x * 65537;
    let second = sp_round(first);
    let p = x * 0x1_0000_0000 + second;
    if x == 0 {
        lemma_exact_without_shift(0);
    } else {
        if x <= 1 {
            lemma_n16_shifts(x, 0);
            exact_n16::lemma_n16_from_1(x as u64);
        } else if x <= 3 {
            lemma_n16_shifts(x, 1);
            exact_n16::lemma_n16_from_2(x as u64);
        } else if x <= 7 {
            lemma_n16_shifts(x, 2);
            exact_n16::lemma_n16_from_4(x as u64);
        } else if x <= 15 {
            lemma_n16_shifts(x, 3);
            exact_n16::lemma_n16_from_8(x as u64);
        } else if x <= 31 {
            lemma_n16_shifts(x, 4);
            exact_n16::lemma_n16_from_16(x as u64);
        } else if x <= 63 {
            lemma_n16_shifts(x, 5);
            exact_n16::lemma_n16_from_32(x as u64);
        } else if x <= 127 {
            lemma_n16_shifts(x, 6);
            exact_n16::lemma_n16_from_64(x as u64);
        } else if x <= 255 {
            lemma_n16_shifts(x, 7);
            exact_n16::lemma_n16_from_128(x as u64);
        } else if x <= 511 {
            lemma_n16_shifts(x, 8);
            exact_n16::lemma_n16_from_256(x as u64);
        } else if x <= 1023 {
            lemma_n16_shifts(x, 9);
            exact_n16::lemma_n16_from_512(x as u64);
        } else if x <= 2047 {
            lemma_n16_shifts(x, 10);
            exact_n16::lemma_n16_from_1024(x as u64);
        } else if x <= 4095 {
            lemma_n16_shifts(x, 11);
            exact_n16::lemma_n16_from_2048(x as u64);
        } else if x <= 8191 {
            lemma_n16_shifts(x, 12);
            exact_n16::lemma_n16_from_4096(x as u64);
        } else if x <= 12287 {
            lemma_n16_shifts(x, 13);
            exact_n16::lemma_n16_from_8192(x as u64);
        } else if x <= 16383 {
            lemma_n16_shifts(x, 13);
            exact_n16::lemma_n16_from_12288(x as u64);
        } else if x <= 20479 {
            lemma_n16_shifts(x, 14);
            exact_n16::lemma_n16_from_16384(x as u64);
        } else if x <= 24575 {
            lemma_n16_shifts(x, 14);
            exact_n16::lemma_n16_from_20480(x as u64);
        } else if x <= 28671 {
            lemma_n16_shifts(x, 14);
            exact_n16::lemma_n16_from_24576(x as u64);
        } else if x <= 32767 {
            lemma_n16_shifts(x, 14);
            exact_n16::lemma_n16_from_28672(x as u64);
        } else if x <= 36863 {
            lemma_n16_shifts(x, 15);
            exact_n16::lemma_n16_from_32768(x as u64);
        } else if x <= 40959 {
            lemma_n16_shifts(x, 15);
            exact_n16::lemma_n16_from_36864(x as u64);
        } else if x <= 45055 {
            lemma_n16_shifts(x, 15);
            exact_n16::lemma_n16_from_40960(x as u64);
        } else if x <= 49151 {
            lemma_n16_shifts(x, 15);
            exact_n16::lemma_n16_from_45056(x as u64);
        } else if x <= 53247 {
            lemma_n16_shifts(x, 15);
            exact_n16::lemma_n16_from_49152(x as u64);
        } else if x <= 57343 {
            lemma_n16_shifts(x, 15);
            exact_n16::lemma_n16_from_53248(x as u64);
        } else if x <= 61439 {
            lemma_n16_shifts(x, 15);
            exact_n16::lemma_n16_from_57344(x as u64);
        } else if x <= 65534 {
            lemma_n16_shifts(x, 15);
            exact_n16::lemma_n16_from_61440(x as u64);
        } else {
            lemma_n16_last();
            exact_n16::lemma_n16_from_65535(x as u64);
        }
        let t = sp_shift(first);
        if first >= 0x100_0000 {
            lemma_rounded_by_shift(first as u64);
        } else {
            lemma_exact_without_shift(first);
            lemma_no_shift(first as u64);
        }
        assert(second == rounded_by_shift(first as u64, t as u64));
        assert(second < 0x1_0000_0000_0000);
        assert(p as u64 == sum_of_terms(x as u64, t as u64));
        lemma_nearest_by_shift(p as u64, x as u64, 65535, 0x1_0000_0000_0000);
    }
}

/// The rounding of a number of 64 bits by shifts is its rounding to 24
/// significant bits.
proof fn lemma_rounded_by_shift(p: u64)
    requires
        0x100_0000 <= p < 0x1000_0000_0000_0000,
    ensures
        sp_round(p as nat) == rounded_by_shift(p, sp_shift(p as nat) as u64),
{
    lemma2_to64();
    lemma2_to64_rest();
    let s = sp_shift(p as nat);
    let u = pow2(s);
    sp_shift_bound(p as nat, 60);
    lemma_pow2_strictly_increases(s, 37);
    lemma_round_brackets(p as nat);
    let q = p as nat / u;
    lemma_fundamental_div_mod(p as int, u as int);
    assert(u * q + u <= 0x100_0000 * u) by (nonlinear_arith)
        requires
            q < 0x100_0000,
            u > 0,
    ;
    assert(0x100_0000 * u < 0x100_0000 * 0x20_0000_0000) by (nonlinear_arith)
        requires
            u < 0x20_0000_0000,
    ;
    lemma_u64_shr_is_div(p, s as u64);
    lemma_u64_shl_is_mul(1, s as u64);
    assert(q * u == u * q) by (nonlinear_arith);
    assert((q + 1) * u == u * q + u) by (nonlinear_arith);
    lemma_u64_shl_is_mul(q as u64, s as u64);
    lemma_u64_shl_is_mul((q + 1) as u64, s as u64);
    assert(sp_significand(p as nat) * u == u * sp_significand(p as nat)) by (nonlinear_arith);
}

/// A number with bits too many lies between `2^23` and `2^24` of its
/// units, written with shifts.
proof fn lemma_shift_in_unit(p: nat)
    requires
        0x100_0000 <= p < 0x1000_0000_0000_0000,
    ensures
        (0x80_0000u64 << (sp_shift(p) as u64)) <= p,
        p < (0x100_0000u64 << (sp_shift(p) as u64)),
        1 <= sp_shift(p) <= 36,
{
    lemma2_to64();
    lemma2_to64_rest();
    let s = sp_shift(p);
    let u = pow2(s);
    sp_shift_bound(p, 60);
    lemma_pow2_strictly_increases(s, 37);
    lemma_round_brackets(p);
    let q = p / u;
    assert(u * q + u <= 0x100_0000 * u) by (nonlinear_arith)
        requires
            q < 0x100_0000,
            u > 0,
    ;
    assert(0x80_0000 * u <= u * q) by (nonlinear_arith)
        requires
            q >= 0x80_0000,
            u > 0,
    ;
    assert(0x100_0000 * u < 0x100_0000 * 0x20_0000_0000) by (nonlinear_arith)
        requires
            u < 0x20_0000_0000,
    ;
    lemma_u64_shl_is_mul(0x80_0000, s as u64);
    lemma_u64_shl_is_mul(0x100_0000, s as u64);
}

} // verus!
