//! IEEE 754 doubles carried by their bits: what is decided of a threshold in
//! megabytes or of a rate, without floating-point arithmetic.
use vstd::arithmetic::power2::{lemma_pow2_unfold, lemma_pow2_pos, pow2};
use vstd::prelude::*;

verus! {

/// A double, by its IEEE 754 bits.
#[derive(Debug, Clone, Copy, PartialEq, Eq, Structural)]
pub struct Double {
    pub bits: u64,
}

impl Double {
    /// The biased exponent.
    pub open spec fn exponent(self) -> int {
        (self.bits as int / 0x10_0000_0000_0000) % 2048
    }

    /// The fraction bits.
    pub open spec fn fraction(self) -> int {
        self.bits as int % 0x10_0000_0000_0000
    }

    /// Whether the sign bit is set.
    pub open spec fn signed(self) -> bool {
        self.bits as int / 0x8000_0000_0000_0000 == 1
    }

    /// Neither infinite nor NaN.
    pub open spec fn finite(self) -> bool {
        self.exponent() != 2047
    }

    /// Positive or negative zero.
    pub open spec fn zero(self) -> bool {
        self.exponent() == 0 && self.fraction() == 0
    }

    /// The significand as an integer: a finite value is
    /// `significand * 2^scale`, up to its sign.
    pub open spec fn significand(self) -> nat {
        if self.exponent() == 0 {
            self.fraction() as nat
        } else {
            (self.fraction() + 0x10_0000_0000_0000) as nat
        }
    }

    /// The power of two that the significand is multiplied by.
    pub open spec fn scale(self) -> int {
        if self.exponent() == 0 {
            -1074
        } else {
            self.exponent() - 1075
        }
    }

    /// The magnitude times `2^shift`, rounded to the nearest integer, halves
    /// up, and no more than fits in 64 bits.
    pub open spec fn scaled(self, shift: int) -> nat {
        let power = self.scale() + shift;
        let n = if power >= 0 {
            self.significand() * pow2(power as nat)
        } else {
            let d = pow2((-power) as nat);
            (2 * self.significand() + d) / (2 * d)
        };
        if n > u64::MAX {
            u64::MAX as nat
        } else {
            n
        }
    }

    /// Equality of doubles: the two zeros are equal, NaN equals nothing.
    pub open spec fn equal(self, other: Double) -> bool {
        ||| self.zero() && other.zero()
        ||| self.bits == other.bits && !(self.exponent() == 2047 && self.fraction() != 0)
    }

    /// A usable amount: finite and not below zero.
    pub open spec fn amount(self) -> bool {
        self.finite() && (!self.signed() || self.zero())
    }

    fn biased(self) -> (r: u64)
        ensures
            r == self.exponent(),
            r < 2048,
    {
        (self.bits / 0x10_0000_0000_0000) % 2048
    }

    fn fraction_bits(self) -> (r: u64)
        ensures
            r == self.fraction(),
            r < 0x10_0000_0000_0000,
    {
        self.bits % 0x10_0000_0000_0000
    }

    /// Whether the value is finite.
    pub fn is_finite(self) -> (r: bool)
        ensures
            r == self.finite(),
    {
        self.biased() != 2047
    }

    /// Whether the value is positive or negative zero.
    pub fn is_zero(self) -> (r: bool)
        ensures
            r == self.zero(),
    {
        self.biased() == 0 && self.fraction_bits() == 0
    }

    /// Whether the value is finite and not below zero.
    pub fn is_amount(self) -> (r: bool)
        ensures
            r == self.amount(),
    {
        self.is_finite() && (self.bits / 0x8000_0000_0000_0000 != 1 || self.is_zero())
    }

    /// Whether two doubles compare equal.
    pub fn equals(self, other: Double) -> (r: bool)
        ensures
            r == self.equal(other),
    {
        (self.is_zero() && other.is_zero()) || (self.bits == other.bits && !(self.biased() == 2047
            && self.fraction_bits() != 0))
    }

    /// The significand and the power of two it is multiplied by.
    pub fn parts(self) -> (r: (u64, i32))
        requires
            self.finite(),
        ensures
            r.0 == self.significand(),
            r.1 == self.scale(),
            r.0 < 0x20_0000_0000_0000,
            -1074 <= r.1 <= 971,
            r.1 > -1074 ==> r.0 >= 0x10_0000_0000_0000,
    {
        let biased = self.biased();
        let fraction = self.fraction_bits();
        if biased == 0 {
            (fraction, -1074)
        } else {
            (fraction + 0x10_0000_0000_0000, biased as i32 - 1075)
        }
    }

    /// The magnitude times `2^shift`, rounded, halves up, within 64 bits.
    pub fn scaled_amount(self, shift: i32) -> (r: u64)
        requires
            self.finite(),
            -64 <= shift <= 64,
        ensures
            r == self.scaled(shift as int),
    {
        let biased = self.biased();
        let fraction = self.fraction_bits();
        let significand: u64 = if biased == 0 {
            fraction
        } else {
            fraction + 0x10_0000_0000_0000
        };
        let scale: i32 = if biased == 0 {
            -1074
        } else {
            biased as i32 - 1075
        };
        let power: i32 = scale + shift;
        if power >= 0 {
            if power > 11 {
                proof {
                    assert(biased != 0);
                    lemma_pow2_at_least(12, power as nat);
                    let p = pow2(power as nat);
                    assert(significand * p > u64::MAX) by (nonlinear_arith)
                        requires
                            significand >= 0x10_0000_0000_0000,
                            p >= 4096,
                    ;
                }
                return u64::MAX;
            }
            let mut n: u64 = significand;
            let mut k: i32 = 0;
            proof {
                lemma_small_powers();
                let one = pow2(0);
                assert(n == significand * one) by (nonlinear_arith)
                    requires
                        one == 1,
                        n == significand,
                ;
            }
            while k < power
                invariant
                    0 <= k <= power <= 11,
                    significand < 0x20_0000_0000_0000,
                    n == significand * pow2(k as nat),
                    n < 0x20_0000_0000_0000 * pow2(k as nat),
                decreases power - k,
            {
                proof {
                    lemma_small_powers();
                    lemma_pow2_unfold((k + 1) as nat);
                    lemma_pow2_at_least(k as nat, 10);
                    let p = pow2(k as nat);
                    assert(significand * (2 * p) == 2 * (significand * p)) by (nonlinear_arith);
                }
                n = n * 2;
                k = k + 1;
            }
            n
        } else {
            let down: i32 = 0 - power;
            if down > 54 {
                proof {
                    lemma_pow2_at_least(55, down as nat);
                    lemma_small_powers();
                    let d = pow2(down as nat) as int;
                    assert((2 * significand + d) / (2 * d) == 0) by (nonlinear_arith)
                        requires
                            0 <= significand < 0x20_0000_0000_0000,
                            d >= 0x80_0000_0000_0000,
                    ;
                }
                return 0;
            }
            let mut d: u64 = 1;
            let mut k: i32 = 0;
            proof {
                lemma_small_powers();
            }
            while k < down
                invariant
                    0 <= k <= down <= 54,
                    d == pow2(k as nat),
                decreases down - k,
            {
                proof {
                    lemma_pow2_unfold((k + 1) as nat);
                    lemma_pow2_at_least(k as nat, 54);
                    lemma_small_powers();
                }
                d = d * 2;
                k = k + 1;
            }
            proof {
                lemma_pow2_at_least(down as nat, 54);
                lemma_pow2_pos(down as nat);
                lemma_small_powers();
                let n = (2 * significand + d) / (2 * d);
                assert(n <= 2 * significand + d) by (nonlinear_arith)
                    requires
                        d > 0,
                        significand >= 0,
                        n == (2 * significand + d) / (2 * d),
                ;
            }
            (2 * significand + d) / (2 * d)
        }
    }
}

/// The powers of two that the bounds are stated with.
proof fn lemma_small_powers()
    ensures
        pow2(0) == 1,
        pow2(10) == 1024,
        pow2(11) == 2048,
        pow2(12) == 4096,
        pow2(54) == 0x40_0000_0000_0000,
        pow2(55) == 0x80_0000_0000_0000,
{
    vstd::arithmetic::power2::lemma2_to64();
    vstd::arithmetic::power2::lemma2_to64_rest();
}

/// Powers of two do not decrease.
proof fn lemma_pow2_at_least(a: nat, b: nat)
    requires
        a <= b,
    ensures
        pow2(a) <= pow2(b),
        a == 12 ==> pow2(b) >= 4096,
        a == 55 ==> pow2(b) >= 0x80_0000_0000_0000,
    decreases b - a,
{
    lemma_small_powers();
    if a < b {
        lemma_pow2_at_least(a, (b - 1) as nat);
        lemma_pow2_unfold(b);
    }
}

/// A threshold in megabytes as bytes: `None` where it is negative or not
/// finite.
pub open spec fn megabytes_bytes(mb: Double) -> Option<u64> {
    if mb.amount() {
        Some(mb.scaled(20) as u64)
    } else {
        None
    }
}

/// A threshold in megabytes as bytes.
pub fn mb_to_bytes(mb: Double) -> (r: Option<u64>)
    ensures
        r == megabytes_bytes(mb),
{
    if mb.is_amount() {
        Some(mb.scaled_amount(20))
    } else {
        None
    }
}

} // verus!
