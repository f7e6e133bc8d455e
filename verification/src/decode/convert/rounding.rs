//! What rounding to 24 significant bits does to numbers: lemmas on the
//! rounding of single precision and on the bit patterns of rounded numbers.

use vstd::prelude::*;
use vstd::arithmetic::div_mod::{lemma_fundamental_div_mod, lemma_fundamental_div_mod_converse};
use vstd::arithmetic::power2::{lemma2_to64, lemma_pow2_adds, lemma_pow2_pos,
    lemma_pow2_strictly_increases, lemma_pow2_unfold, pow2};
use crate::decode::convert::single::{pack, sp_round, sp_shift, sp_shift_bound,
    sp_shift_quotient, sp_significand};

verus! {

/// A number of at most 24 significant bits has no bits too many, however
/// many zeros follow it.
pub proof fn lemma_shift_of_multiple(m: nat, k: nat)
    requires
        m < 0x100_0000,
    ensures
        sp_shift(m * pow2(k)) <= k,
    decreases k,
{
    lemma2_to64();
    let p = m * pow2(k);
    if p >= 0x100_0000 {
        if k == 0 {
            assert(p == m) by (nonlinear_arith)
                requires
                    p == m * pow2(k),
                    pow2(k) == 1,
            ;
        } else {
            lemma_pow2_unfold(k);
            let half = m * pow2((k - 1) as nat);
            assert(p == 2 * half) by (nonlinear_arith)
                requires
                    p == m * pow2(k),
                    pow2(k) == 2 * pow2((k - 1) as nat),
                    half == m * pow2((k - 1) as nat),
            ;
            assert(p / 2 == half);
            lemma_shift_of_multiple(m, (k - 1) as nat);
        }
    }
}

/// A number of at most 24 significant bits is not changed by rounding to 24
/// significant bits, however many zeros follow it.
pub proof fn lemma_round_of_multiple(m: nat, k: nat)
    requires
        m < 0x100_0000,
    ensures
        sp_round(m * pow2(k)) == m * pow2(k),
{
    let p = m * pow2(k);
    let s = sp_shift(p);
    lemma_shift_of_multiple(m, k);
    lemma_pow2_adds(s, (k - s) as nat);
    lemma_pow2_pos(s);
    let unit = pow2(s);
    let rest = m * pow2((k - s) as nat);
    assert(p == unit * rest) by (nonlinear_arith)
        requires
            p == m * pow2(k),
            pow2(k) == unit * pow2((k - s) as nat),
            rest == m * pow2((k - s) as nat),
    ;
    assert(rest * unit == unit * rest) by (nonlinear_arith);
    lemma_fundamental_div_mod_converse(p as int, unit as int, rest as int, 0);
    assert(sp_significand(p) == rest);
}

/// The bit pattern of a number that is too small for a hidden bit is the
/// number itself in units of `2^-149`.
pub proof fn lemma_pack_small(q: nat, w: nat)
    requires
        q * pow2(w) < 0x80_0000,
    ensures
        pack(q, w) == q * pow2(w),
    decreases w,
{
    lemma2_to64();
    lemma_pow2_pos(w);
    assert(q <= q * pow2(w)) by (nonlinear_arith)
        requires
            pow2(w) >= 1,
    ;
    if w == 0 {
        assert(q * pow2(w) == q) by (nonlinear_arith)
            requires
                pow2(w) == 1,
        ;
    } else {
        lemma_pow2_unfold(w);
        assert((2 * q) * pow2((w - 1) as nat) == q * pow2(w)) by (nonlinear_arith)
            requires
                pow2(w) == 2 * pow2((w - 1) as nat),
        ;
        lemma_pack_small(2 * q, (w - 1) as nat);
    }
}

/// The fields of the bit pattern of a number that has a hidden bit: the
/// significand with the hidden bit, at the place that the exponent gives,
/// is the number.
pub proof fn lemma_pack_fields(q: nat, w: nat)
    requires
        q < 0x100_0000,
        w <= 252,
        q * pow2(w) >= 0x80_0000,
    ensures
        ({
            let bits = pack(q, w);
            let e = (bits as nat / 0x80_0000) % 256;
            let m = bits as nat % 0x80_0000;
            &&& bits < 0x7F00_0000
            &&& 1 <= e <= w + 1
            &&& (m + 0x80_0000) * pow2((e - 1) as nat) == q * pow2(w)
        }),
    decreases w,
{
    lemma2_to64();
    if q >= 0x80_0000 {
        let bits = ((w + 1) * 0x80_0000 + (q - 0x80_0000)) as u32;
        assert(pack(q, w) == bits);
        lemma_fundamental_div_mod_converse(
            bits as int,
            0x80_0000,
            (w + 1) as int,
            (q - 0x80_0000) as int,
        );
    } else if w == 0 {
        assert(q * pow2(w) == q) by (nonlinear_arith)
            requires
                pow2(w) == 1,
        ;
    } else {
        lemma_pow2_unfold(w);
        assert((2 * q) * pow2((w - 1) as nat) == q * pow2(w)) by (nonlinear_arith)
            requires
                pow2(w) == 2 * pow2((w - 1) as nat),
        ;
        lemma_pack_fields(2 * q, (w - 1) as nat);
    }
}

/// A power of two with a larger exponent is a multiple of one with a
/// smaller exponent.
pub proof fn lemma_pow2_split(a: nat, b: nat)
    requires
        a <= b,
    ensures
        pow2(b) == pow2(a) * pow2((b - a) as nat),
        pow2(a) <= pow2(b),
        pow2(a) > 0,
{
    lemma_pow2_adds(a, (b - a) as nat);
    lemma_pow2_pos(a);
    lemma_pow2_pos((b - a) as nat);
    assert(pow2(a) <= pow2(a) * pow2((b - a) as nat)) by (nonlinear_arith)
        requires
            pow2(a) > 0,
            pow2((b - a) as nat) >= 1,
    ;
}

/// Products with a positive factor are equal only where the other factors
/// are.
pub proof fn lemma_cancel_eq(a: nat, b: nat, c: nat)
    requires
        c > 0,
        a * c == b * c,
    ensures
        a == b,
{
    assert(a == b) by (nonlinear_arith)
        requires
            c > 0,
            a * c == b * c,
    ;
}

/// A multiple of a unit that is not above a number is not above the
/// multiple of the unit below the number.
pub proof fn lemma_multiple_below(u: nat, a: nat, p: nat)
    requires
        u > 0,
        u * a <= p,
    ensures
        a <= p / u,
        u * a <= u * (p / u),
{
    lemma_fundamental_div_mod(p as int, u as int);
    let q = p / u;
    assert(a <= q) by (nonlinear_arith)
        requires
            u * a <= p,
            p == u * q + p % u,
            p % u < u,
            u > 0,
    ;
    assert(u * a <= u * q) by (nonlinear_arith)
        requires
            a <= q,
    ;
}

/// A number of at most 24 significant bits that is not above a number is
/// not above the rounded number.
pub proof fn lemma_round_not_below(m: nat, k: nat, p: nat)
    requires
        m < 0x100_0000,
        m * pow2(k) <= p,
    ensures
        m * pow2(k) <= sp_round(p),
{
    lemma2_to64();
    lemma_round_brackets(p);
    let s = sp_shift(p);
    let u = pow2(s);
    let q = p / u;
    if k >= s {
        lemma_pow2_split(s, k);
        let a = m * pow2((k - s) as nat);
        assert(m * pow2(k) == u * a) by (nonlinear_arith)
            requires
                pow2(k) == u * pow2((k - s) as nat),
                a == m * pow2((k - s) as nat),
        ;
        lemma_multiple_below(u, a, p);
    } else {
        lemma_pow2_split(k, (s - 1) as nat);
        lemma_pow2_unfold(s);
        let z = pow2((s - 1) as nat);
        assert(m * pow2(k) <= 0x80_0000 * u) by (nonlinear_arith)
            requires
                m < 0x100_0000,
                pow2(k) <= z,
                u == 2 * z,
        ;
        assert(0x80_0000 * u <= u * q) by (nonlinear_arith)
            requires
                q >= 0x80_0000,
        ;
    }
}

/// A number of at most 24 significant bits that is not below a number is
/// not below the rounded number.
pub proof fn lemma_round_not_above(m: nat, k: nat, p: nat)
    requires
        m < 0x100_0000,
        p <= m * pow2(k),
    ensures
        sp_round(p) <= m * pow2(k),
{
    lemma2_to64();
    lemma_round_brackets(p);
    let s = sp_shift(p);
    let u = pow2(s);
    let q = p / u;
    if p % u != 0 {
        lemma_fundamental_div_mod(p as int, u as int);
        if k >= s {
            lemma_pow2_split(s, k);
            let a = m * pow2((k - s) as nat);
            assert(m * pow2(k) == u * a) by (nonlinear_arith)
                requires
                    pow2(k) == u * pow2((k - s) as nat),
                    a == m * pow2((k - s) as nat),
            ;
            assert(u * a >= u * q + u) by (nonlinear_arith)
                requires
                    u * a > u * q,
                    u > 0,
            ;
        } else {
            lemma_pow2_split(k, (s - 1) as nat);
            lemma_pow2_unfold(s);
            let z = pow2((s - 1) as nat);
            assert(m * pow2(k) < 0x80_0000 * u) by (nonlinear_arith)
                requires
                    m < 0x100_0000,
                    0 < pow2(k) <= z,
                    u == 2 * z,
            ;
            assert(0x80_0000 * u <= u * q) by (nonlinear_arith)
                requires
                    q >= 0x80_0000,
            ;
        }
    }
}

/// A number that has bits too many is `2^24` at least, and so is twice the
/// number, which has one bit more too many.
pub proof fn lemma_shift_of_double(p: nat)
    requires
        p >= 0x100_0000,
    ensures
        sp_shift(2 * p) == sp_shift(p) + 1,
{
    assert((2 * p) / 2 == p);
}

/// Zeros behind a number that has bits too many add to the bits too many.
pub proof fn lemma_shift_scales(p: nat, k: nat)
    requires
        p >= 0x100_0000,
    ensures
        sp_shift(p * pow2(k)) == sp_shift(p) + k,
        p * pow2(k) >= 0x100_0000,
    decreases k,
{
    lemma2_to64();
    lemma_pow2_pos(k);
    assert(p * pow2(k) >= p) by (nonlinear_arith)
        requires
            pow2(k) >= 1,
    ;
    if k == 0 {
        assert(p * pow2(k) == p) by (nonlinear_arith)
            requires
                pow2(k) == 1,
        ;
    } else {
        lemma_pow2_unfold(k);
        lemma_shift_scales(p, (k - 1) as nat);
        let half = p * pow2((k - 1) as nat);
        assert(p * pow2(k) == 2 * half) by (nonlinear_arith)
            requires
                pow2(k) == 2 * pow2((k - 1) as nat),
                half == p * pow2((k - 1) as nat),
        ;
        lemma_shift_of_double(half);
    }
}

/// Rounding to 24 significant bits goes with zeros that follow: a number
/// with `k` zeros behind it rounds to the rounded number with `k` zeros
/// behind it.
pub proof fn lemma_round_scales(p: nat, k: nat)
    ensures
        sp_round(p * pow2(k)) == sp_round(p) * pow2(k),
{
    lemma2_to64();
    if p < 0x100_0000 {
        lemma_round_of_multiple(p, k);
        lemma_round_of_multiple(p, 0);
        assert(p * pow2(0) == p) by (nonlinear_arith)
            requires
                pow2(0) == 1,
        ;
    } else {
        lemma_shift_scales(p, k);
        let s = sp_shift(p);
        let u = pow2(s);
        let z = pow2(k);
        lemma_pow2_adds(s, k);
        lemma_pow2_pos(s);
        lemma_pow2_pos(k);
        let q = p / u;
        let rem = p % u;
        lemma_fundamental_div_mod(p as int, u as int);
        assert(p * z == (u * z) * q + rem * z) by (nonlinear_arith)
            requires
                p == u * q + rem,
        ;
        assert(rem * z < u * z) by (nonlinear_arith)
            requires
                rem < u,
                z > 0,
        ;
        assert(q * (u * z) == (u * z) * q) by (nonlinear_arith);
        lemma_fundamental_div_mod_converse(
            (p * z) as int,
            (u * z) as int,
            q as int,
            (rem * z) as int,
        );
        assert((2 * (rem * z) > u * z) == (2 * rem > u)) by (nonlinear_arith)
            requires
                z > 0,
        ;
        assert((2 * (rem * z) == u * z) == (2 * rem == u)) by (nonlinear_arith)
            requires
                z > 0,
        ;
        assert(sp_significand(p * z) == sp_significand(p));
        assert(sp_significand(p) * (u * z) == (sp_significand(p) * u) * z) by (nonlinear_arith);
    }
}

/// Between which multiples of its unit a rounded number lies, where the
/// unit is two to the number of bits too many: the rounded number is the
/// multiple below the number or the one above it, and the multiple below
/// has 24 bits.
pub proof fn lemma_round_brackets(p: nat)
    ensures
        ({
            let u = pow2(sp_shift(p));
            let q = p / u;
            &&& u > 0
            &&& u * q <= p < u * q + u
            &&& sp_round(p) == u * q || sp_round(p) == u * q + u
            &&& p % u == 0 ==> sp_round(p) == p
            &&& q < 0x100_0000
            &&& sp_shift(p) > 0 ==> q >= 0x80_0000
        }),
{
    lemma2_to64();
    let s = sp_shift(p);
    let u = pow2(s);
    let q = p / u;
    lemma_pow2_pos(s);
    lemma_fundamental_div_mod(p as int, u as int);
    sp_shift_quotient(p);
    assert(sp_significand(p) * u == u * sp_significand(p)) by (nonlinear_arith);
    assert(u * (q + 1) == u * q + u) by (nonlinear_arith);
    if s > 0 {
        lemma_shift_floor(p);
    }
}

/// A number with bits too many is `2^23` units at least.
pub proof fn lemma_shift_floor(p: nat)
    requires
        sp_shift(p) > 0,
    ensures
        p / pow2(sp_shift(p)) >= 0x80_0000,
    decreases p,
{
    lemma2_to64();
    let s = sp_shift(p);
    assert(p >= 0x100_0000);
    assert(s == 1 + sp_shift(p / 2));
    if sp_shift(p / 2) == 0 {
        assert(p / 2 < 0x100_0000);
        assert(pow2(1) == 2);
        assert(p / 2 >= 0x80_0000);
    } else {
        lemma_shift_floor(p / 2);
        let t = sp_shift(p / 2);
        lemma_pow2_unfold(t + 1);
        lemma_pow2_pos(t);
        vstd::arithmetic::div_mod::lemma_div_denominator(p as int, 2, pow2(t) as int);
    }
}

/// How many bits too many a number between two powers of two has.
pub proof fn lemma_shift_between(p: nat, s: nat)
    requires
        pow2(23 + s) <= p < pow2(24 + s),
    ensures
        sp_shift(p) == s,
{
    lemma2_to64();
    sp_shift_bound(p, 24 + s);
    lemma_round_brackets(p);
    let t = sp_shift(p);
    if t < s {
        let u = pow2(t);
        let q = p / u;
        lemma_pow2_adds(24, t);
        if 24 + t < 23 + s {
            lemma_pow2_strictly_increases(24 + t, 23 + s);
        }
        assert(u * q + u <= 0x100_0000 * u) by (nonlinear_arith)
            requires
                q < 0x100_0000,
        ;
    }
}

} // verus!
