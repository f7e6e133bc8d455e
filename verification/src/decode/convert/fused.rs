//! Why the conversions from half precision to normalised integers may be
//! done in one step: they give what the conversion to single precision,
//! followed by the conversion of the single-precision number, gives.

use vstd::prelude::*;
use vstd::arithmetic::div_mod::{lemma_div_multiples_vanish_quotient, lemma_fundamental_div_mod,
    lemma_fundamental_div_mod_converse};
use vstd::arithmetic::power2::{lemma2_to64, lemma2_to64_rest, lemma_pow2_adds, lemma_pow2_pos,
    lemma_pow2_strictly_increases, lemma_pow2_unfold, pow2};
use crate::decode::convert::{bc6h_uf16, fp, fp16};
use crate::decode::convert::minifloat::mini_bits;
use crate::decode::convert::rounding::{lemma_cancel_eq, lemma_multiple_below, lemma_pack_fields,
    lemma_pack_small, lemma_pow2_split, lemma_round_brackets, lemma_round_not_below,
    lemma_round_of_multiple, lemma_round_scales};
use crate::decode::convert::single::{pack, sp_round, sp_shift, sp_shift_bound, sp_round_bound,
    to_unorm};

verus! {

/// A significand of 24 bits that stands for a number of 11 bits is the
/// number followed by at least 13 zeros.
proof fn lemma_significand_of_short(m0: nat, w: nat, sig: nat, e: nat)
    requires
        0 < m0 < 2048,
        0x80_0000 <= sig < 0x100_0000,
        1 <= e <= w + 1,
        sig * pow2((e - 1) as nat) == m0 * pow2(w),
    ensures
        e + 12 <= w,
        sig == m0 * pow2((w + 1 - e) as nat),
{
    lemma2_to64();
    let low = (e - 1) as nat;
    lemma_pow2_split(low, w);
    let rest = pow2((w - low) as nat);
    assert(sig * pow2(low) == (m0 * rest) * pow2(low)) by (nonlinear_arith)
        requires
            sig * pow2(low) == m0 * pow2(w),
            pow2(w) == pow2(low) * rest,
    ;
    lemma_cancel_eq(sig, m0 * rest, pow2(low));
    if w - low < 13 {
        if w - low < 12 {
            lemma_pow2_strictly_increases((w - low) as nat, 12);
        }
        assert(m0 * rest < 2048 * 4096) by (nonlinear_arith)
            requires
                m0 < 2048,
                rest <= 4096,
        ;
    }
}

/// Adding a half to a rounded product and rounding again does not change
/// what the sum is without its fraction: the rounded sum lies in the same
/// step of twice the half as the sum. The product is below `2^27` and the
/// half is `2^n`.
proof fn lemma_round_keeps_floor(product: nat, n: nat)
    requires
        product < 0x800_0000,
        9 <= n <= 23,
    ensures
        sp_round(sp_round(product) + pow2(n)) / (2 * pow2(n)) == (sp_round(product) + pow2(n)) / (2 * pow2(n)),
{
    lemma2_to64();
    let rounded = sp_round(product);
    let s0 = sp_shift(product);
    let u0 = pow2(s0);
    let h = pow2(n);
    let d = 2 * h;
    let sum = rounded + h;
    sp_shift_bound(product, 27);
    sp_round_bound(product, 27);
    lemma_round_brackets(product);
    lemma_pow2_split(9, n);
    lemma_pow2_split(n, 23);
    assert(sum < pow2(28));
    sp_shift_bound(sum, 28);
    lemma_round_brackets(sum);
    let s = sp_shift(sum);
    let u = pow2(s);
    let q = sum / u;
    let r = sp_round(sum);
    lemma_pow2_split(s, 4);
    lemma_pow2_split(s0, 3);
    lemma_pow2_split(s, n);
    let step = pow2((n - s) as nat);
    let k = sum / d;
    lemma_fundamental_div_mod(sum as int, d as int);
    // the step below the sum is not above the rounded sum
    assert(d * k == u * (2 * step * k)) by (nonlinear_arith)
        requires
            d == 2 * h,
            h == u * step,
    ;
    lemma_multiple_below(u, 2 * step * k, sum);
    // the step above the sum is above the rounded sum
    if sum % u == 0 {
    } else {
        lemma_fundamental_div_mod(sum as int, u as int);
        let a0 = rounded / u0;
        assert(rounded == u0 * a0) by {
            let q0 = product / u0;
            if rounded == u0 * q0 {
                assert(u0 * q0 == q0 * u0) by (nonlinear_arith);
                lemma_fundamental_div_mod_converse(rounded as int, u0 as int, q0 as int, 0);
            } else {
                assert(u0 * q0 + u0 == (q0 + 1) * u0) by (nonlinear_arith);
                lemma_fundamental_div_mod_converse(rounded as int, u0 as int, (q0 + 1) as int, 0);
            }
            assert(a0 * u0 == u0 * a0) by (nonlinear_arith);
        }
        if s <= s0 {
            lemma_pow2_split(s, s0);
            let z = pow2((s0 - s) as nat);
            assert(sum == (z * a0 + step) * u) by (nonlinear_arith)
                requires
                    sum == rounded + h,
                    rounded == u0 * a0,
                    u0 == u * z,
                    h == u * step,
            ;
            vstd::arithmetic::div_mod::lemma_mod_multiples_basic((z * a0 + step) as int, u as int);
        }
        // the sum has more bits too many than the product: it lies just
        // above a power of two
        let base = pow2(23 + s);
        lemma_pow2_adds(23, s);
        lemma_pow2_adds(24, s0);
        if s0 + 1 < s {
            lemma_pow2_strictly_increases(24 + s0, 23 + s);
        }
        assert(u * q >= base) by (nonlinear_arith)
            requires
                q >= 0x80_0000,
                base == 0x80_0000 * u,
        ;
        let q0 = product / u0;
        assert(rounded <= pow2(24 + s0)) by (nonlinear_arith)
            requires
                rounded == u0 * q0 || rounded == u0 * q0 + u0,
                q0 < 0x100_0000,
                pow2(24 + s0) == 0x100_0000 * u0,
        ;
        assert(base <= sum <= base + h);
        lemma_pow2_split(n + 1, 23 + s);
        lemma_pow2_unfold(n + 1);
        let b = pow2((23 + s - (n + 1)) as nat);
        assert(b * d == d * b) by (nonlinear_arith);
        lemma_fundamental_div_mod_converse(sum as int, d as int, b as int, sum - base);
        assert(u <= 16);
        assert(h >= 512);
    }
    assert(d * k <= r < d * k + d);
    assert(k * d == d * k) by (nonlinear_arith);
    lemma_fundamental_div_mod_converse(r as int, d as int, k as int, r - d * k);
}

/// Between `2^-17` and 2, both ways of rounding come to the same division:
/// the number is `m0 * 2^k0` in units of `2^-24`, and its significand is
/// `m0` followed by `j` zeros.
proof fn lemma_same_division(m0: nat, k0: nat, j: nat, max: nat)
    requires
        m0 < 2048,
        max <= 65535,
        k0 <= 14,
    ensures
        sp_round(sp_round((m0 * pow2(j)) * max) + pow2((j + 23 - k0) as nat)) / (2 * pow2(
            (j + 23 - k0) as nat,
        )) == (2 * sp_round((m0 * pow2(k0)) * max) + 0x100_0000) / (2 * 0x100_0000),
{
    lemma2_to64();
    let n = (23 - k0) as nat;
    let h = pow2(n);
    lemma_pow2_adds(k0, n);
    lemma_pow2_adds(j, n);
    lemma_pow2_pos(j);
    lemma_pow2_pos(k0);
    lemma_pow2_pos(n);
    let product = m0 * max;
    assert(product < 2048 * 65536) by (nonlinear_arith)
        requires
            product == m0 * max,
            m0 < 2048,
            max < 65536,
    ;
    let rounded = sp_round(product);
    let sum = rounded + h;
    let pj = pow2(j);
    let pk = pow2(k0);
    lemma_round_keeps_floor(product, n);
    // the step by way of single precision
    assert((m0 * pj) * max == product * pj) by (nonlinear_arith)
        requires
            product == m0 * max,
    ;
    lemma_round_scales(product, j);
    assert(rounded * pj + pj * h == sum * pj) by (nonlinear_arith)
        requires
            sum == rounded + h,
    ;
    lemma_round_scales(sum, j);
    assert(sp_round(sum) * pj == pj * sp_round(sum)) by (nonlinear_arith);
    assert(2 * (pj * h) == pj * (2 * h)) by (nonlinear_arith);
    lemma_div_multiples_vanish_quotient(pj as int, sp_round(sum) as int, (2 * h) as int);
    // the step in one
    assert((m0 * pk) * max == product * pk) by (nonlinear_arith)
        requires
            product == m0 * max,
    ;
    lemma_round_scales(product, k0);
    assert(2 * (rounded * pk) + 0x100_0000 == (2 * pk) * sum) by (nonlinear_arith)
        requires
            sum == rounded + h,
            pk * h == 0x80_0000,
    ;
    assert(2 * 0x100_0000 == (2 * pk) * (2 * h)) by (nonlinear_arith)
        requires
            pk * h == 0x80_0000,
    ;
    lemma_div_multiples_vanish_quotient((2 * pk) as int, sum as int, (2 * h) as int);
}

/// A number of 11 bits and its bit pattern give the same normalised
/// integer, whether the number is rounded in one step or its bit pattern
/// is converted. The number is `m0 * 2^k0` in units of `2^-24`, with a
/// leading one in `m0` where `k0` is not 0.
pub proof fn lemma_fused(m0: nat, k0: nat, max: nat)
    requires
        m0 < 2048,
        k0 > 0 ==> m0 >= 1024,
        k0 <= 29,
        1 <= max <= 65535,
    ensures
        fp::unorm_spec(pack(m0, k0 + 125), max) == to_unorm(m0 * pow2(k0), 0x100_0000, max),
{
    lemma2_to64();
    lemma2_to64_rest();
    let w = k0 + 125;
    let bits = pack(m0, w);
    let scaled = m0 * pow2(k0);
    let t = scaled * max;
    lemma_pow2_adds(k0, 125);
    lemma_pow2_pos(k0);
    lemma_pow2_pos(125);
    lemma_pow2_strictly_increases(23, 125);
    assert(m0 * pow2(w) == scaled * pow2(125)) by (nonlinear_arith)
        requires
            scaled == m0 * pow2(k0),
            pow2(w) == pow2(k0) * pow2(125),
    ;
    if m0 * pow2(w) < 0x80_0000 {
        lemma_pack_small(m0, w);
        assert(scaled == 0) by (nonlinear_arith)
            requires
                scaled * pow2(125) < 0x80_0000,
                pow2(125) > 0x80_0000,
        ;
        assert(t == 0) by (nonlinear_arith)
            requires
                t == scaled * max,
                scaled == 0,
        ;
        assert(fp::exponent(bits) == 0);
        assert(fp::unorm_spec(bits, max) == 0);
        lemma_round_of_multiple(0, 0);
        assert(0 * pow2(0) == 0) by (nonlinear_arith);
        lemma_fundamental_div_mod_converse((2 * t + 0x100_0000) as int, 0x200_0000, 0, 0x100_0000);
        assert(to_unorm(scaled, 0x100_0000, max) == 0);
    } else {
        lemma_pack_fields(m0, w);
        let e = fp::exponent(bits);
        let sig = fp::mantissa(bits) + 0x80_0000;
        assert(m0 > 0) by (nonlinear_arith)
            requires
                m0 * pow2(w) >= 0x80_0000,
        ;
        lemma_significand_of_short(m0, w, sig, e);
        let j = (w + 1 - e) as nat;
        if e >= 128 {
            // the number is 2 at least
            lemma_pow2_split(127, (e - 1) as nat);
            lemma_pow2_adds(2, 125);
            assert(sig * pow2((e - 1) as nat) >= 0x80_0000 * (4 * pow2(125))) by (nonlinear_arith)
                requires
                    sig >= 0x80_0000,
                    pow2((e - 1) as nat) >= pow2(127),
                    pow2(127) == 4 * pow2(125),
            ;
            assert(scaled >= 0x200_0000) by (nonlinear_arith)
                requires
                    scaled * pow2(125) >= 0x80_0000 * (4 * pow2(125)),
                    pow2(125) > 0,
            ;
            assert(t >= 0x200_0000 * max) by (nonlinear_arith)
                requires
                    t == scaled * max,
                    scaled >= 0x200_0000,
            ;
            assert(fp::unorm_spec(bits, max) == max);
            assert(max * pow2(25) <= t);
            lemma_round_not_below(max, 25, t);
            let r = sp_round(t);
            lemma_fundamental_div_mod((2 * r + 0x100_0000) as int, 0x200_0000);
            assert((2 * r + 0x100_0000) / 0x200_0000 >= max);
            assert(to_unorm(scaled, 0x100_0000, max) == max);
        } else if e <= 109 {
            // the number is below 2^-17
            lemma_pow2_split((e - 1) as nat, 108);
            lemma_pow2_adds(108, 17);
            assert(sig * pow2((e - 1) as nat) < 0x100_0000 * pow2(108)) by (nonlinear_arith)
                requires
                    sig < 0x100_0000,
                    0 < pow2((e - 1) as nat) <= pow2(108),
            ;
            assert(scaled < 128) by (nonlinear_arith)
                requires
                    scaled * (pow2(108) * 0x2_0000) < 0x100_0000 * pow2(108),
                    pow2(108) > 0,
            ;
            assert(t < 128 * 65536) by (nonlinear_arith)
                requires
                    t == scaled * max,
                    scaled < 128,
                    max < 65536,
            ;
            assert(fp::unorm_spec(bits, max) == 0);
            lemma_round_of_multiple(t, 0);
            assert(t * pow2(0) == t) by (nonlinear_arith)
                requires
                    pow2(0) == 1,
            ;
            lemma_fundamental_div_mod_converse(
                (2 * t + 0x100_0000) as int,
                0x200_0000,
                0,
                (2 * t + 0x100_0000) as int,
            );
            assert(to_unorm(scaled, 0x100_0000, max) == 0);
        } else {
            // the leading one of a number below 2 stands below 2^25
            if k0 >= 15 {
                lemma_pow2_split(15, k0);
                lemma_pow2_split((e - 1) as nat, 126);
                lemma_pow2_adds(1, 125);
                assert(scaled >= 1024 * 32768) by (nonlinear_arith)
                    requires
                        scaled == m0 * pow2(k0),
                        m0 >= 1024,
                        pow2(k0) >= 32768,
                ;
                assert(sig * pow2((e - 1) as nat) < 0x100_0000 * (2 * pow2(125)))
                    by (nonlinear_arith)
                    requires
                        sig < 0x100_0000,
                        0 < pow2((e - 1) as nat) <= 2 * pow2(125),
                ;
                assert(scaled < 0x200_0000) by (nonlinear_arith)
                    requires
                        scaled * pow2(125) < 0x100_0000 * (2 * pow2(125)),
                        pow2(125) > 0,
                ;
            }
            assert(149 - e == j + 23 - k0);
            lemma_same_division(m0, k0, j, max);
            assert(sig == m0 * pow2(j));
            let half = pow2((149 - e) as nat);
            let v = sp_round(sp_round(sig * max) + half) / (2 * half);
            assert(fp::unorm_spec(bits, max) == if v > max {
                max
            } else {
                v
            });
            assert(v == (2 * sp_round(scaled * max) + 0x100_0000) / (2 * 0x100_0000));
        }
    }
}

/// The bit pattern of the magnitude of a half is that of a number that is
/// not negative.
proof fn lemma_magnitude_bits(exp: nat, mant: nat)
    requires
        exp <= 31,
        mant < 1024,
    ensures
        mini_bits(exp, mant, 1024, 125) < 0x8000_0000,
{
    lemma2_to64();
    if exp < 31 {
        let q = if exp == 0 {
            mant
        } else {
            mant + 1024
        };
        let w = if exp == 0 {
            125nat
        } else {
            (exp - 1 + 125) as nat
        };
        if q * pow2(w) < 0x80_0000 {
            lemma_pack_small(q, w);
        } else {
            lemma_pack_fields(q, w);
        }
    }
}

/// A half that is rounded to a normalised integer in one step gives what
/// its single-precision bit pattern gives.
proof fn lemma_fp16_fused(x: u16, max: nat)
    requires
        1 <= max <= 65535,
    ensures
        fp16::unorm_spec(x, max) == fp::unorm_spec(fp16::single_spec(x), max),
{
    lemma2_to64();
    let exp = fp16::exponent(x);
    let mant = fp16::mantissa(x);
    lemma_magnitude_bits(exp, mant);
    if fp16::is_negative(x) {
    } else if exp == 31 {
    } else if exp == 0 {
        lemma_fused(mant, 0, max);
        assert(mant * pow2(0) == mant) by (nonlinear_arith)
            requires
                pow2(0) == 1,
        ;
    } else {
        lemma_fused(mant + 1024, (exp - 1) as nat, max);
    }
}

/// Converting a half to an 8-bit normalised integer in one step gives what
/// converting it to single precision, and the single-precision number to
/// the integer, gives.
pub proof fn lemma_fp16_n8_is_fused(x: u16)
    ensures
        fp16::unorm_spec(x, 255) == fp::unorm_spec(fp16::single_spec(x), 255),
{
    lemma_fp16_fused(x, 255);
}

/// Converting a half to a 16-bit normalised integer in one step gives what
/// converting it to single precision, and the single-precision number to
/// the integer, gives.
pub proof fn lemma_fp16_n16_is_fused(x: u16)
    ensures
        fp16::unorm_spec(x, 65535) == fp::unorm_spec(fp16::single_spec(x), 65535),
{
    lemma_fp16_fused(x, 65535);
}

/// The same holds of the halves of unsigned BC6H blocks, which are halves
/// without a sign and with an exponent below 31: the conversions to
/// normalised integers in one step give what the conversions by way of
/// single precision give.
pub proof fn lemma_bc6h_uf16_is_fused(x: u16)
    requires
        bc6h_uf16::valid(x),
    ensures
        fp16::unorm_spec(x, 255) == fp::unorm_spec(fp16::single_spec(x), 255),
        fp16::unorm_spec(x, 65535) == fp::unorm_spec(fp16::single_spec(x), 65535),
{
    lemma_fp16_fused(x, 255);
    lemma_fp16_fused(x, 65535);
}

} // verus!
