//! The small floating-point formats of packed pixels: a 5-bit exponent above
//! a mantissa of 5, 6 or 10 bits, with an implied leading one for every
//! exponent but zero.

use vstd::prelude::*;
use vstd::arithmetic::power2::{lemma2_to64, lemma_pow2_adds, lemma_pow2_strictly_increases, pow2};
use vstd::bits::lemma_u64_shl_is_mul;
use crate::decode::convert::single::{pack, quantize, single_bits, single_is_finite,
    single_is_negative, single_scaled, to_unorm};

verus! {

/// The magnitude of a finite small float in units of its smallest denormal.
/// `hidden` is the implied leading one: two to the number of mantissa bits.
pub open spec fn mini_scaled(exp: nat, mant: nat, hidden: nat) -> nat {
    if exp == 0 {
        mant
    } else {
        (mant + hidden) * pow2((exp - 1) as nat)
    }
}

/// What a small float becomes as a normalised integer of `0..=max`. `unit`
/// is the number of smallest denormals in 1. Infinity gives `max`, a NaN
/// gives 0.
pub open spec fn mini_unorm(exp: nat, mant: nat, hidden: nat, unit: nat, max: nat) -> nat {
    if exp == 31 {
        if mant == 0 {
            max
        } else {
            0
        }
    } else {
        to_unorm(mini_scaled(exp, mant, hidden), unit, max)
    }
}

/// The single-precision bit pattern of a small float. `offset` places the
/// smallest denormal of the small format: it is `2^(offset - 149)`.
pub open spec fn mini_bits(exp: nat, mant: nat, hidden: nat, offset: nat) -> u32 {
    if exp == 31 {
        if mant == 0 {
            0x7F80_0000
        } else {
            0x7FC0_0000
        }
    } else if exp == 0 {
        pack(mant, offset)
    } else {
        pack(mant + hidden, (exp - 1 + offset) as nat)
    }
}

/// The magnitude of a finite small float in units of its smallest denormal.
pub fn scaled(exp: u16, mant: u16, hidden: u16) -> (r: u64)
    requires
        exp <= 30,
        mant < hidden,
        hidden <= 1024,
    ensures
        r as nat == mini_scaled(exp as nat, mant as nat, hidden as nat),
        r < 0x200_0000_0000,
{
    if exp == 0 {
        mant as u64
    } else {
        let m: u64 = (mant + hidden) as u64;
        let shift: u64 = (exp - 1) as u64;
        proof {
            lemma2_to64();
            lemma_pow2_strictly_increases(shift as nat, 30);
            assert(m * pow2(shift as nat) < 2048 * 0x4000_0000) by (nonlinear_arith)
                requires
                    m < 2048,
                    pow2(shift as nat) < 0x4000_0000,
            ;
            lemma_u64_shl_is_mul(m, shift);
        }
        m << shift
    }
}

/// A small float as a normalised integer of `0..=max`.
pub fn unorm(exp: u16, mant: u16, hidden: u16, unit: u64, max: u16) -> (r: u16)
    requires
        exp <= 31,
        mant < hidden,
        hidden <= 1024,
        unit > 0,
    ensures
        r as nat == mini_unorm(exp as nat, mant as nat, hidden as nat, unit as nat, max as nat),
{
    if exp != 31 {
        let s = scaled(exp, mant, hidden);
        assert(s * max < 0x200_0000_0000 * 0x1_0000) by (nonlinear_arith)
            requires
                s < 0x200_0000_0000,
                max < 0x1_0000,
        ;
        quantize(s, unit, max as u64) as u16
    } else if mant == 0 {
        max
    } else {
        0
    }
}

/// The single-precision bit pattern of a finite small float. `offset` places
/// the smallest denormal of the small format: it is `2^(offset - 149)`.
pub fn finite_bits(exp: u16, mant: u16, hidden: u16, offset: u32) -> (bits: u32)
    requires
        exp <= 30,
        mant < hidden,
        hidden <= 1024,
        offset <= 200,
    ensures
        bits == mini_bits(exp as nat, mant as nat, hidden as nat, offset as nat),
        single_is_finite(bits),
        !single_is_negative(bits),
        single_scaled(bits) == mini_scaled(exp as nat, mant as nat, hidden as nat) * pow2(
            offset as nat,
        ),
{
    if exp == 0 {
        single_bits(mant as u64, offset)
    } else {
        let m: u64 = (mant + hidden) as u64;
        let weight: u32 = (exp - 1) as u32 + offset;
        proof {
            lemma_pow2_adds((exp - 1) as nat, offset as nat);
            assert(m as nat * pow2(weight as nat) == (m as nat * pow2((exp - 1) as nat)) * pow2(
                offset as nat,
            )) by (nonlinear_arith)
                requires
                    pow2(weight as nat) == pow2((exp - 1) as nat) * pow2(offset as nat),
            ;
        }
        single_bits(m, weight)
    }
}

} // verus!
