//! Why normalised integers survive the way through single precision: an
//! 8-bit or 16-bit value that is turned into a single-precision number and
//! back is the value again.

use vstd::prelude::*;
use vstd::arithmetic::div_mod::lemma_fundamental_div_mod_converse;
use vstd::arithmetic::power2::{lemma2_to64, lemma2_to64_rest, lemma_pow2_adds, pow2};
use crate::decode::convert::{fp, n16, n8};
use crate::decode::convert::rounding::{lemma_pack_small, lemma_pow2_split, lemma_round_brackets,
    lemma_round_not_above, lemma_round_not_below};
use crate::decode::convert::single::{pack, rounded_bits, sp_round, sp_shift, sp_significand};

verus! {

/// A product with a positive factor is not above another such product only
/// where the other factors compare so.
proof fn lemma_cancel_le(a: int, b: int, c: int)
    requires
        c > 0,
        a * c <= b * c,
    ensures
        a <= b,
{
    assert(a <= b) by (nonlinear_arith)
        requires
            c > 0,
            a * c <= b * c,
    ;
}

/// The rounding of a number that is `x / max` but for a small error: the
/// number times `max`, plus a half, rounds to a number between `x` and
/// `x + 1`.
///
/// The number is `sig * 2^t` in units in which 1 is `2^k`. It is the
/// rounded product `x * c`, where `c * max` is `2^k` but for 128 at most.
proof fn lemma_survives_rounding(x: nat, c: nat, max: nat, k: nat, sig: nat, t: nat, u: nat)
    requires
        1 <= x <= max,
        max <= 65535,
        0x80_0000 <= c < 0x100_0000,
        31 <= k <= 39,
        pow2(k) - 128 <= c * max <= pow2(k) + 128,
        0x80_0000 <= sig < 0x100_0000,
        sig * pow2(t) < pow2(k + 1),
        1 <= u <= pow2(t),
        x * c < 0x100_0000 * u,
        x * c - u <= sig * pow2(t) <= x * c + u,
    ensures
        t + 23 <= k,
        sp_round(sp_round(sig * max) + pow2((k - t - 1) as nat)) / (2 * pow2((k - t - 1) as nat))
            == x,
{
    lemma2_to64();
    let pt = pow2(t);
    let r = sig * pt;
    if t + 22 >= k {
        lemma_pow2_split((k - 22) as nat, t);
        lemma_pow2_adds(23, (k - 22) as nat);
        assert(r >= 0x80_0000 * pow2((k - 22) as nat)) by (nonlinear_arith)
            requires
                r == sig * pt,
                sig >= 0x80_0000,
                pt >= pow2((k - 22) as nat),
        ;
    }
    let n = (k - t - 2) as nat;
    let quarter = pow2(n);
    lemma_pow2_split(21, n);
    lemma_pow2_adds(n, 1);
    lemma_pow2_adds(n, 2);
    lemma_pow2_adds((k - t) as nat, t);
    let half = pow2((k - t - 1) as nat);
    assert(half == 2 * quarter);
    assert(pow2(k) == (4 * quarter) * pt);
    // the number is below two units of its last place
    assert(x < 2 * u) by (nonlinear_arith)
        requires
            x * c < 0x100_0000 * u,
            c >= 0x80_0000,
    ;
    // the product with `max` is `x` but for a quarter
    let product = sig * max;
    assert(product * pt == r * max) by (nonlinear_arith)
        requires
            product == sig * max,
            r == sig * pt,
    ;
    assert(x * (c * max) - 128 * x <= x * pow2(k) <= x * (c * max) + 128 * x)
        by (nonlinear_arith)
        requires
            pow2(k) - 128 <= c * max <= pow2(k) + 128,
    ;
    assert((x * c) * max - u * max <= r * max <= (x * c) * max + u * max) by (nonlinear_arith)
        requires
            x * c - u <= r <= x * c + u,
    ;
    assert((x * c) * max == x * (c * max)) by (nonlinear_arith);
    assert(128 * x + u * max <= 0x2_0000 * pt) by (nonlinear_arith)
        requires
            x < 2 * u,
            u <= pt,
            max <= 65535,
    ;
    assert(0x2_0000 * pt <= quarter * pt) by (nonlinear_arith)
        requires
            quarter >= 0x20_0000,
            pt > 0,
    ;
    assert(((4 * x - 1) * quarter) * pt == x * pow2(k) - quarter * pt) by (nonlinear_arith)
        requires
            pow2(k) == (4 * quarter) * pt,
    ;
    assert(((4 * x + 1) * quarter) * pt == x * pow2(k) + quarter * pt) by (nonlinear_arith)
        requires
            pow2(k) == (4 * quarter) * pt,
    ;
    lemma_cancel_le(((4 * x - 1) * quarter) as int, product as int, pt as int);
    lemma_cancel_le(product as int, ((4 * x + 1) * quarter) as int, pt as int);
    // rounding keeps the product within the quarter
    lemma_round_not_below((4 * x - 1) as nat, n, product);
    lemma_round_not_above(4 * x + 1, n, product);
    let inner = sp_round(product);
    let sum = inner + half;
    assert((4 * x + 1) * quarter == (4 * x - 1) * quarter + 2 * quarter) by (nonlinear_arith);
    assert((4 * x + 3) * quarter == (4 * x + 1) * quarter + 2 * quarter) by (nonlinear_arith);
    lemma_round_not_below(4 * x + 1, n, sum);
    lemma_round_not_above(4 * x + 3, n, sum);
    let outer = sp_round(sum);
    assert(x * (4 * quarter) <= (4 * x + 1) * quarter && (4 * x + 3) * quarter < x * (4 * quarter)
        + 4 * quarter) by (nonlinear_arith)
        requires
            quarter > 0,
    ;
    lemma_fundamental_div_mod_converse(
        outer as int,
        (4 * quarter) as int,
        x as int,
        outer - x * (4 * quarter),
    );
}

/// A value that is turned into a single-precision number by a factor `c`
/// and back by the factor `max` is the value again, where `c * max` is a
/// power of two but for 128 at most: `c` is the single-precision number
/// nearest to `1 / max`.
proof fn lemma_survives(x: nat, c: nat, max: nat, k: nat, w0: nat)
    requires
        x <= max,
        1 <= max <= 65535,
        0x80_0000 <= c < 0x100_0000,
        31 <= k <= 39,
        k + w0 == 149,
        pow2(k) - 128 <= c * max <= pow2(k) + 128,
    ensures
        fp::unorm_spec(rounded_bits(x * c, w0), max) == x,
{
    lemma2_to64();
    lemma2_to64_rest();
    let p = x * c;
    if x == 0 {
        assert(p == 0) by (nonlinear_arith)
            requires
                p == x * c,
                x == 0,
        ;
        assert(sp_shift(p) == 0);
        assert(sp_significand(p) == 0);
        assert(0 * pow2(w0) == 0) by (nonlinear_arith);
        lemma_pack_small(0, w0);
        assert(fp::exponent(0) == 0);
    } else {
        assert(0x80_0000 <= p) by (nonlinear_arith)
            requires
                p == x * c,
                x >= 1,
                c >= 0x80_0000,
        ;
        assert(p <= max * c) by (nonlinear_arith)
            requires
                p == x * c,
                x <= max,
        ;
        assert(max * c == c * max) by (nonlinear_arith);
        lemma_round_brackets(p);
        let s = sp_shift(p);
        let u = pow2(s);
        let q = p / u;
        let big = sp_significand(p);
        let r = sp_round(p);
        assert(big * u == u * big) by (nonlinear_arith);
        assert(u * (q + 1) == u * q + u) by (nonlinear_arith);
        assert(big == q || big == q + 1) by (nonlinear_arith)
            requires
                big * u == u * q || big * u == u * q + u,
                u > 0,
        ;
        // the rounded product is below twice the power of two
        let above = pow2((k - 23) as nat);
        lemma_pow2_adds(23, (k - 23) as nat);
        lemma_pow2_split(8, (k - 23) as nat);
        lemma_pow2_adds(k, 1);
        assert(0x80_0001 * above == pow2(k) + above) by (nonlinear_arith)
            requires
                pow2(k) == 0x80_0000 * above,
        ;
        lemma_round_not_above(0x80_0001, (k - 23) as nat, p);
        assert(0x80_0000 * pow2(0) == 0x80_0000) by (nonlinear_arith)
            requires
                pow2(0) == 1,
        ;
        lemma_round_not_below(0x80_0000, 0, p);
        assert(big >= 0x80_0000) by {
            if s == 0 {
                assert(r == big * 1);
            }
        }
        assert(p < 0x100_0000 * u) by (nonlinear_arith)
            requires
                p < u * q + u,
                q < 0x100_0000,
        ;
        lemma_pow2_split(k, 39);
        crate::decode::convert::single::sp_shift_bound(p, 40);
        let w = s + w0;
        let bits = pack(big, w);
        assert(rounded_bits(p, w0) == bits);
        if big < 0x100_0000 {
            assert(bits == ((w + 1) * 0x80_0000 + (big - 0x80_0000)) as u32);
            lemma_fundamental_div_mod_converse(
                bits as int,
                0x80_0000,
                (w + 1) as int,
                (big - 0x80_0000) as int,
            );
            lemma_survives_rounding(x, c, max, k, big, s, u);
            assert(fp::exponent(bits) == w + 1);
            assert(fp::mantissa(bits) + 0x80_0000 == big);
            assert(149 - (w + 1) == k - s - 1);
        } else {
            assert(big == 0x100_0000);
            lemma_pow2_adds(s, 1);
            assert(0x80_0000 * pow2(s + 1) == big * u) by (nonlinear_arith)
                requires
                    big == 0x100_0000,
                    pow2(s + 1) == u * 2,
            ;
            assert(bits == ((w + 2) * 0x80_0000) as u32);
            lemma_survives_rounding(x, c, max, k, 0x80_0000, s + 1, u);
            lemma_fundamental_div_mod_converse(bits as int, 0x80_0000, (w + 2) as int, 0);
            assert(fp::exponent(bits) == w + 2);
            assert(fp::mantissa(bits) + 0x80_0000 == 0x80_0000);
            assert(149 - (w + 2) == k - (s + 1) - 1);
        }
    }
}

/// An 8-bit value that is turned into a single-precision number and back
/// is the value again.
pub proof fn lemma_n8_survives(x: u8)
    ensures
        fp::unorm_spec(n8::single_spec(x as nat), 255) == x,
{
    lemma2_to64();
    lemma_survives(x as nat, 0x80_8081, 255, 31, 118);
}

/// A 16-bit value that is turned into a single-precision number and back
/// is the value again.
pub proof fn lemma_n16_survives(x: u16)
    ensures
        fp::unorm_spec(n16::single_spec(x as nat), 65535) == x,
{
    lemma2_to64();
    lemma2_to64_rest();
    lemma_survives(x as nat, 0x80_0080, 65535, 39, 110);
}

} // verus!
