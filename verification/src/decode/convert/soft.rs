//! Single-precision arithmetic on numbers that are kept as a sign, a
//! significand and a weight.
//!
//! A number stands for `significand * 2^(weight - 149)`, negated where the
//! sign is set. Every operation gives the exact result rounded to 24
//! significant bits, ties to even, as single-precision hardware does. Zero
//! is always positive here: the operations are only used where hardware
//! gives a positive zero too.

use vstd::prelude::*;
use vstd::arithmetic::power2::{lemma2_to64, lemma2_to64_rest, lemma_pow2_adds, lemma_pow2_pos,
    lemma_pow2_strictly_increases, pow2};
use vstd::bits::lemma_u64_shl_is_mul;
use crate::decode::convert::single::{pack, round_parts, single_bits, sp_shift, sp_shift_bound,
    sp_significand};

verus! {

/// A number `significand * 2^(weight - 149)`, negated where `negative` is
/// set.
pub struct Number {
    pub negative: bool,
    pub significand: nat,
    pub weight: nat,
}

/// A number as it is computed with.
#[derive(Debug, Clone, Copy, PartialEq, Eq, Structural)]
pub struct Soft {
    pub negative: bool,
    pub significand: u64,
    pub weight: u32,
}

impl View for Soft {
    type V = Number;

    open spec fn view(&self) -> Number {
        Number {
            negative: self.negative,
            significand: self.significand as nat,
            weight: self.weight as nat,
        }
    }
}

/// Zero.
pub open spec fn zero() -> Number {
    Number { negative: false, significand: 0, weight: 0 }
}

/// `p * 2^(weight - 149)`, negated where `negative` is set, rounded to 24
/// significant bits.
pub open spec fn rounded(negative: bool, p: nat, weight: nat) -> Number {
    if p == 0 {
        zero()
    } else {
        Number { negative, significand: sp_significand(p), weight: weight + sp_shift(p) }
    }
}

/// The product of a whole number and the constant
/// `significand * 2^(weight - 149)`.
pub open spec fn times_int(significand: nat, weight: nat, n: int) -> Number {
    rounded(
        n < 0,
        (if n < 0 {
            -n
        } else {
            n
        }) as nat * significand,
        weight,
    )
}

/// The number with the other sign. Zero stays positive.
pub open spec fn negated(a: Number) -> Number {
    if a.significand == 0 {
        a
    } else {
        Number { negative: !a.negative, ..a }
    }
}

/// The significand of a number in units of `2^(weight - 149)`, with its
/// sign.
pub open spec fn aligned(a: Number, weight: nat) -> int {
    let magnitude = a.significand * pow2((a.weight - weight) as nat);
    if a.negative {
        -magnitude
    } else {
        magnitude as int
    }
}

/// The sum of two numbers.
pub open spec fn sum(a: Number, b: Number) -> Number {
    if a.significand == 0 {
        b
    } else if b.significand == 0 {
        a
    } else {
        let weight = if a.weight < b.weight {
            a.weight
        } else {
            b.weight
        };
        let total = aligned(a, weight) + aligned(b, weight);
        rounded(
            total < 0,
            (if total < 0 {
                -total
            } else {
                total
            }) as nat,
            weight,
        )
    }
}

/// The product of a number and the positive constant
/// `significand * 2^(weight - 149)`.
pub open spec fn times(a: Number, significand: nat, weight: nat) -> Number {
    rounded(a.negative, a.significand * significand, (a.weight + weight - 149) as nat)
}

/// The bit pattern of a number limited to the unit interval.
pub open spec fn unit_bits(a: Number) -> u32 {
    if a.negative || a.significand == 0 {
        0
    } else if pack(a.significand, a.weight) > 0x3F80_0000 {
        0x3F80_0000
    } else {
        pack(a.significand, a.weight)
    }
}

/// A number without its fraction, limited to `0..=max`: what a conversion
/// to an unsigned integer gives.
pub open spec fn truncated(a: Number, max: nat) -> nat {
    if a.negative {
        0
    } else {
        let whole = if a.weight >= 149 {
            a.significand * pow2((a.weight - 149) as nat)
        } else {
            a.significand / pow2((149 - a.weight) as nat)
        };
        if whole > max {
            max
        } else {
            whole
        }
    }
}

/// The number that a bit pattern stands for, for a pattern that is neither
/// an infinity nor a NaN.
pub open spec fn number_of(bits: u32) -> Number {
    let e = (bits as nat / 0x80_0000) % 256;
    let m = bits as nat % 0x80_0000;
    if e == 0 {
        if m == 0 {
            zero()
        } else {
            Number { negative: bits >= 0x8000_0000, significand: m, weight: 0 }
        }
    } else {
        Number {
            negative: bits >= 0x8000_0000,
            significand: m + 0x80_0000,
            weight: (e - 1) as nat,
        }
    }
}

impl Soft {
    /// The number that a bit pattern stands for, for a pattern that is
    /// neither an infinity nor a NaN.
    pub fn from_bits(bits: u32) -> (r: Soft)
        requires
            (bits as nat / 0x80_0000) % 256 != 255,
        ensures
            r@ == number_of(bits),
            r.within(0, 253),
            r.significand < 0x100_0000,
            r.weight > 0 ==> r.significand >= 0x80_0000,
    {
        proof {
            crate::bits::lemma_shr_u32(bits);
            crate::bits::lemma_mask_u32(bits);
            crate::bits::lemma_mask_u32(bits >> 23);
        }
        let e: u32 = (bits >> 23) & 0xFF;
        let m: u32 = bits & 0x7F_FFFF;
        if e == 0 {
            if m == 0 {
                Soft { negative: false, significand: 0, weight: 0 }
            } else {
                Soft { negative: bits >= 0x8000_0000, significand: m as u64, weight: 0 }
            }
        } else {
            Soft {
                negative: bits >= 0x8000_0000,
                significand: m as u64 + 0x80_0000,
                weight: e - 1,
            }
        }
    }

    /// The significand has at most 24 bits and the weight lies within
    /// `lo..=hi`, or the number is zero.
    pub open spec fn within(self, lo: int, hi: int) -> bool {
        self@ == zero() || (0 < self.significand <= 0x100_0000 && lo <= self.weight <= hi)
    }

    /// `p * 2^(weight - 149)`, negated where `negative` is set, rounded to
    /// 24 significant bits. `bits` bounds the size of `p`.
    pub fn rounded(negative: bool, p: u64, weight: u32, Ghost(bits): Ghost<nat>) -> (r: Soft)
        requires
            p < pow2(bits),
            24 <= bits <= 62,
            weight <= 900,
        ensures
            r@ == rounded(negative, p as nat, weight as nat),
            r.within(weight as int, weight + bits - 24),
    {
        if p == 0 {
            return Soft { negative: false, significand: 0, weight: 0 };
        }
        proof {
            lemma2_to64_rest();
            if bits < 62 {
                lemma_pow2_strictly_increases(bits, 62);
            }
            sp_shift_bound(p as nat, bits);
        }
        let parts = round_parts(p);
        proof {
            // a number that is not 0 does not round to 0
            if parts.shift == 0 {
                lemma2_to64();
                assert(sp_significand(p as nat) == p);
            }
        }
        Soft { negative, significand: parts.significand, weight: weight + parts.shift }
    }

    /// The product of a whole number and the constant
    /// `significand * 2^(weight - 149)`.
    pub fn times_int(significand: u64, weight: u32, n: i32) -> (r: Soft)
        requires
            significand < 0x100_0000,
            weight <= 200,
            -0x1_0000 <= n <= 0x1_0000,
        ensures
            r@ == times_int(significand as nat, weight as nat, n as int),
            r.within(weight as int, weight + 17),
    {
        let magnitude: u64 = if n < 0 {
            (-n) as u64
        } else {
            n as u64
        };
        proof {
            lemma2_to64_rest();
            assert(magnitude * significand < 0x1_0001 * 0x100_0000) by (nonlinear_arith)
                requires
                    magnitude <= 0x1_0000,
                    significand < 0x100_0000,
            ;
        }
        Soft::rounded(n < 0, magnitude * significand, weight, Ghost(41))
    }

    /// The number with the other sign.
    pub fn negated(self) -> (r: Soft)
        ensures
            r@ == negated(self@),
            forall|lo: int, hi: int| self.within(lo, hi) ==> r.within(lo, hi),
    {
        if self.significand == 0 {
            self
        } else {
            Soft { negative: !self.negative, significand: self.significand, weight: self.weight }
        }
    }

    /// The sum of two numbers whose weights lie within `lo..=hi`, at most 30
    /// apart.
    pub fn plus(self, other: Soft, Ghost(lo): Ghost<int>, Ghost(hi): Ghost<int>) -> (r: Soft)
        requires
            self.within(lo, hi),
            other.within(lo, hi),
            0 <= lo <= hi <= lo + 30,
            lo <= 868,
        ensures
            r@ == sum(self@, other@),
            r.within(lo, hi + 2),
    {
        if self.significand == 0 {
            return other;
        }
        if other.significand == 0 {
            return self;
        }
        let weight: u32 = if self.weight < other.weight {
            self.weight
        } else {
            other.weight
        };
        let a: u64 = shifted(self.significand, self.weight - weight);
        let b: u64 = shifted(other.significand, other.weight - weight);
        proof {
            lemma2_to64();
            lemma2_to64_rest();
            lemma_pow2_strictly_increases((self.weight - weight) as nat, 31);
            lemma_pow2_strictly_increases((other.weight - weight) as nat, 31);
            assert(a <= 0x100_0000 * 0x8000_0000) by (nonlinear_arith)
                requires
                    a <= 0x100_0000 * pow2((self.weight - weight) as nat),
                    pow2((self.weight - weight) as nat) < 0x8000_0000,
            ;
            assert(b <= 0x100_0000 * 0x8000_0000) by (nonlinear_arith)
                requires
                    b <= 0x100_0000 * pow2((other.weight - weight) as nat),
                    pow2((other.weight - weight) as nat) < 0x8000_0000,
            ;
        }
        let (negative, magnitude): (bool, u64) = if self.negative == other.negative {
            (self.negative, a + b)
        } else if a >= b {
            (self.negative && a > b, a - b)
        } else {
            (other.negative, b - a)
        };
        proof {
            lemma_sum_weight(a, b, magnitude, self.weight, other.weight, weight, lo, hi);
        }
        let r = Soft::rounded(negative, magnitude, weight, Ghost(56));
        proof {
            // the sum is below 2^(25 + 30), and so the weight grows by 31 at
            // most
            if magnitude != 0 {
                lemma_sum_weight(a, b, magnitude, self.weight, other.weight, weight, lo, hi);
            }
        }
        r
    }

    /// The product of a number and the positive constant
    /// `significand * 2^(weight - 149)`.
    pub fn times(self, significand: u64, weight: u32, Ghost(lo): Ghost<int>, Ghost(hi): Ghost<int>) -> (r:
        Soft)
        requires
            self.within(lo, hi),
            0 < significand < 0x100_0000,
            lo + weight >= 149,
            hi + weight <= 349,
        ensures
            r@ == if self.significand == 0 {
                zero()
            } else {
                times(self@, significand as nat, weight as nat)
            },
            r.within(lo + weight - 149, hi + weight - 149 + 25),
    {
        if self.significand == 0 {
            return self;
        }
        proof {
            lemma2_to64_rest();
            assert(self.significand * significand < 0x100_0001 * 0x100_0000) by (nonlinear_arith)
                requires
                    self.significand <= 0x100_0000,
                    significand < 0x100_0000,
            ;
            assert(self.significand * significand > 0) by (nonlinear_arith)
                requires
                    self.significand > 0,
                    significand > 0,
            ;
        }
        Soft::rounded(
            self.negative,
            self.significand * significand,
            self.weight + weight - 149,
            Ghost(49),
        )
    }

    /// The bit pattern of the number limited to the unit interval.
    pub fn unit_bits(self) -> (bits: u32)
        requires
            self.significand <= 0x100_0000,
            self.weight <= 252,
        ensures
            bits == unit_bits(self@),
    {
        if self.negative || self.significand == 0 {
            0
        } else {
            let bits = single_bits(self.significand, self.weight);
            if bits > 0x3F80_0000 {
                0x3F80_0000
            } else {
                bits
            }
        }
    }

    /// The number without its fraction, limited to `0..=max`.
    pub fn truncated(self, max: u16) -> (r: u16)
        requires
            self.within(100, 180),
        ensures
            r as nat == truncated(self@, max as nat),
    {
        if self.negative || self.significand == 0 {
            proof {
                if self.significand == 0 {
                    lemma2_to64_rest();
                    lemma_pow2_pos(149);
                    assert(0nat / pow2(149) == 0) by (nonlinear_arith)
                        requires
                            pow2(149) > 0,
                    ;
                }
            }
            0
        } else if self.weight >= 149 {
            let whole = shifted(self.significand, self.weight - 149);
            if whole > max as u64 {
                max
            } else {
                whole as u16
            }
        } else {
            let shift: u32 = 149 - self.weight;
            proof {
                lemma2_to64_rest();
                lemma_pow2_pos(shift as nat);
                lemma_pow2_strictly_increases(shift as nat, 50);
                lemma_u64_shl_is_mul(1, shift as u64);
            }
            let whole = self.significand / (1u64 << shift);
            if whole > max as u64 {
                max
            } else {
                whole as u16
            }
        }
    }
}

/// `value * 2^by`.
fn shifted(value: u64, by: u32) -> (r: u64)
    requires
        value <= 0x100_0000,
        by <= 31,
    ensures
        r as nat == value as nat * pow2(by as nat),
        r <= 0x100_0000 * pow2(by as nat),
        r < pow2(24 + by as nat) + 1,
{
    proof {
        lemma2_to64();
        lemma2_to64_rest();
        lemma_pow2_strictly_increases(by as nat, 32);
        lemma_pow2_adds(24, by as nat);
        assert(value * pow2(by as nat) <= 0x100_0000 * pow2(by as nat)) by (nonlinear_arith)
            requires
                value <= 0x100_0000,
        ;
        assert(0x100_0000 * pow2(by as nat) < 0x100_0000 * 0x1_0000_0000) by (nonlinear_arith)
            requires
                pow2(by as nat) < 0x1_0000_0000,
        ;
        lemma_u64_shl_is_mul(value, by as u64);
    }
    value << by
}

/// The magnitude of a sum of two aligned significands lies below `2^56`
/// where the weights are at most 30 apart, and rounding it raises the lower
/// weight to two above the higher one at most.
proof fn lemma_sum_weight(
    a: u64,
    b: u64,
    magnitude: u64,
    wa: u32,
    wb: u32,
    weight: u32,
    lo: int,
    hi: int,
)
    requires
        magnitude <= a + b,
        lo <= wa <= hi,
        lo <= wb <= hi,
        hi <= lo + 30,
        weight == (if wa < wb {
            wa
        } else {
            wb
        }),
        a <= 0x100_0000 * pow2((wa - weight) as nat),
        b <= 0x100_0000 * pow2((wb - weight) as nat),
    ensures
        magnitude < pow2(56),
        sp_shift(magnitude as nat) + weight <= hi + 2,
{
    lemma2_to64();
    lemma2_to64_rest();
    let (high, low) = if wa < wb {
        (wb, wa)
    } else {
        (wa, wb)
    };
    let gap = (high - low) as nat;
    lemma_pow2_adds(25, gap);
    lemma_pow2_adds(1, 25 + gap);
    lemma_pow2_pos(gap);
    assert(a + b <= 0x100_0000 * pow2(gap) + 0x100_0000);
    assert(0x100_0000 * pow2(gap) + 0x100_0000 <= 0x200_0000 * pow2(gap)) by (nonlinear_arith)
        requires
            pow2(gap) >= 1,
    ;
    assert(magnitude < pow2(26 + gap));
    sp_shift_bound(magnitude as nat, 26 + gap);
    if 26 + gap < 56 {
        lemma_pow2_strictly_increases(26 + gap, 56);
    }
}

} // verus!
