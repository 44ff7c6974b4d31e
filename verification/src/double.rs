//! IEEE 754 double-precision numbers, held by their bit patterns.
//!
//! Frequencies, gains and levels are stored, compared, clamped, read and written
//! here without rounding beyond what the format itself prescribes. Every finite
//! double is a whole multiple of 2^-1074, so its value is modelled by an integer
//! that counts those units.

use vstd::prelude::*;
use vstd::arithmetic::power2::{lemma2_to64, lemma_pow2_adds, lemma_pow2_pos, pow2};

verus! {

/// The sign bit.
pub const SIGN: u64 = 0x8000_0000_0000_0000;

/// Positive infinity; larger magnitudes are not numbers.
pub const INFINITY: u64 = 0x7ff0_0000_0000_0000;

/// The quiet not-a-number.
pub const NAN: u64 = 0x7ff8_0000_0000_0000;

/// The weight of the lowest exponent bit.
pub const EXPONENT: u64 = 0x10_0000_0000_0000;

/// A double-precision number.
#[derive(Clone, Copy, Debug, PartialEq, Eq, Structural)]
pub struct Double {
    pub bits: u64,
}

/// The significand of the magnitude `m`, with its leading bit.
pub open spec fn significand(m: int) -> int {
    if m / EXPONENT as int == 0 {
        m
    } else {
        EXPONENT + m % EXPONENT as int
    }
}

/// The power of two by which the significand of the magnitude `m` counts units.
pub open spec fn scale(m: int) -> nat {
    if m / EXPONENT as int == 0 {
        0
    } else {
        (m / EXPONENT as int - 1) as nat
    }
}

/// The size of the magnitude `m` in units of 2^-1074. Infinity gets the size of
/// the power of two that follows the largest finite number.
pub open spec fn units(m: int) -> int {
    significand(m) * pow2(scale(m))
}

/// `n` in units of 2^-1074.
pub open spec fn whole(n: int) -> int {
    n * pow2(1074)
}

/// The double with these bits.
pub open spec fn double(bits: u64) -> Double {
    Double { bits }
}

impl Double {
    /// The bits below the sign.
    pub open spec fn magnitude(self) -> u64 {
        self.bits % SIGN
    }

    pub open spec fn negative(self) -> bool {
        self.bits >= SIGN
    }

    pub open spec fn nan(self) -> bool {
        self.magnitude() > INFINITY
    }

    pub open spec fn infinite(self) -> bool {
        self.magnitude() == INFINITY
    }

    pub open spec fn finite(self) -> bool {
        self.magnitude() < INFINITY
    }

    /// The value of a finite number, in units of 2^-1074.
    pub open spec fn value(self) -> int {
        if self.negative() {
            -units(self.magnitude() as int)
        } else {
            units(self.magnitude() as int)
        }
    }

    /// The place of a number in the order of all numbers; both zeros share one.
    pub open spec fn rank(self) -> int {
        if self.negative() {
            -(self.magnitude() as int)
        } else {
            self.magnitude() as int
        }
    }

    pub open spec fn less(self, other: Double) -> bool {
        !self.nan() && !other.nan() && self.rank() < other.rank()
    }

    pub open spec fn at_most(self, other: Double) -> bool {
        !self.nan() && !other.nan() && self.rank() <= other.rank()
    }

    /// Equal as numbers: both zeros are, a not-a-number equals nothing.
    pub open spec fn equals(self, other: Double) -> bool {
        !self.nan() && !other.nan() && self.rank() == other.rank()
    }

    pub open spec fn negated(self) -> Double {
        if self.negative() {
            Double { bits: (self.bits - SIGN) as u64 }
        } else {
            Double { bits: (self.bits + SIGN) as u64 }
        }
    }

    pub open spec fn absolute(self) -> Double {
        Double { bits: self.magnitude() }
    }

    pub open spec fn clamped(self, low: Double, high: Double) -> Double {
        if self.less(low) {
            low
        } else if high.less(self) {
            high
        } else {
            self
        }
    }

    pub open spec fn smaller(self, other: Double) -> Double {
        if self.nan() || other.less(self) {
            other
        } else {
            self
        }
    }

    pub open spec fn larger(self, other: Double) -> Double {
        if self.nan() || self.less(other) {
            other
        } else {
            self
        }
    }

    /// Neither infinite nor a not-a-number.
    pub fn is_finite(&self) -> (r: bool)
        ensures
            r == self.finite(),
    {
        self.bits % SIGN < INFINITY
    }

    pub fn is_nan(&self) -> (r: bool)
        ensures
            r == self.nan(),
    {
        self.bits % SIGN > INFINITY
    }

    /// `self < other`; false where either is a not-a-number.
    pub fn lt(&self, other: &Double) -> (r: bool)
        ensures
            r == self.less(*other),
    {
        let a: u64 = self.bits % SIGN;
        let b: u64 = other.bits % SIGN;
        if a > INFINITY || b > INFINITY {
            false
        } else if self.bits >= SIGN {
            if other.bits >= SIGN {
                b < a
            } else {
                a > 0 || b > 0
            }
        } else if other.bits >= SIGN {
            false
        } else {
            a < b
        }
    }

    /// `self <= other`; false where either is a not-a-number.
    pub fn le(&self, other: &Double) -> (r: bool)
        ensures
            r == self.at_most(*other),
    {
        let a: u64 = self.bits % SIGN;
        let b: u64 = other.bits % SIGN;
        a <= INFINITY && b <= INFINITY && !other.lt(self)
    }

    /// `self == other` as numbers; false where either is a not-a-number.
    pub fn same(&self, other: &Double) -> (r: bool)
        ensures
            r == self.equals(*other),
    {
        self.le(other) && other.le(self)
    }

    /// The number with its sign turned.
    pub fn neg(&self) -> (r: Double)
        ensures
            r == self.negated(),
    {
        if self.bits >= SIGN {
            Double { bits: self.bits - SIGN }
        } else {
            Double { bits: self.bits + SIGN }
        }
    }

    /// The number without its sign.
    pub fn abs(&self) -> (r: Double)
        ensures
            r == self.absolute(),
    {
        Double { bits: self.bits % SIGN }
    }

    /// The number, moved to the nearer end where it lies outside `low..=high`. A
    /// not-a-number stays what it is.
    pub fn clamp(&self, low: Double, high: Double) -> (r: Double)
        requires
            low.at_most(high),
        ensures
            r == self.clamped(low, high),
            !self.nan() ==> low.at_most(r) && r.at_most(high),
    {
        if self.lt(&low) {
            low
        } else if high.lt(self) {
            high
        } else {
            *self
        }
    }

    /// The lesser of two numbers; the other one where one is a not-a-number.
    pub fn min(&self, other: Double) -> (r: Double)
        ensures
            r == self.smaller(other),
    {
        if self.is_nan() || other.lt(self) {
            other
        } else {
            *self
        }
    }

    /// The greater of two numbers; the other one where one is a not-a-number.
    pub fn max(&self, other: Double) -> (r: Double)
        ensures
            r == self.larger(other),
    {
        if self.is_nan() || self.lt(&other) {
            other
        } else {
            *self
        }
    }
}

/// The magnitude `s * 2^52 + v`, whose significand is `v`, is `v * 2^s` units.
pub proof fn lemma_units(s: nat, v: int)
    requires
        0 <= v < 2 * EXPONENT,
        s == 0 || v >= EXPONENT,
    ensures
        units(s * EXPONENT + v) == v * pow2(s),
        units(s * EXPONENT + v + 1) == (v + 1) * pow2(s),
        s * EXPONENT + v > 0 ==> units(s * EXPONENT + v - 1) < v * pow2(s),
{
    lemma_units_at(s, v);
    lemma_units_next(s, v);
    if s * EXPONENT + v > 0 {
        let m: int = s * EXPONENT + v - 1;
        let e: int = m / EXPONENT as int;
        if e == 0 {
            lemma_units_next(0, m);
        } else {
            lemma_units_next((e - 1) as nat, EXPONENT + m % EXPONENT as int);
        }
        lemma_pow2_pos(scale(m));
        assert(units(m) < units(m + 1)) by {
            assert((significand(m) + 1) * pow2(scale(m)) == units(m) + pow2(scale(m)))
                by (nonlinear_arith)
                requires
                    units(m) == significand(m) * pow2(scale(m)),
            ;
        }
    }
}

proof fn lemma_units_at(s: nat, v: int)
    requires
        0 <= v < 2 * EXPONENT,
        s == 0 || v >= EXPONENT,
    ensures
        units(s * EXPONENT + v) == v * pow2(s),
{
    let m: int = s * EXPONENT + v;
    if v < EXPONENT {
        assert(m == v);
    } else {
        vstd::arithmetic::div_mod::lemma_fundamental_div_mod_converse(
            m,
            EXPONENT as int,
            (s + 1) as int,
            v - EXPONENT,
        );
    }
}

proof fn lemma_units_next(s: nat, v: int)
    requires
        0 <= v < 2 * EXPONENT,
        s == 0 || v >= EXPONENT,
    ensures
        units(s * EXPONENT + v + 1) == (v + 1) * pow2(s),
{
    if v + 1 < 2 * EXPONENT {
        lemma_units_at(s, v + 1);
    } else {
        lemma_units_at(s + 1, EXPONENT as int);
        lemma2_to64();
        lemma_pow2_adds(1, s);
        assert(EXPONENT * (2 * pow2(s)) == (2 * EXPONENT) * pow2(s)) by (nonlinear_arith);
        assert((s + 1) * EXPONENT + EXPONENT == s * EXPONENT + v + 1);
    }
}

/// A greater magnitude is more units.
pub proof fn lemma_units_increase(m: int, n: int)
    requires
        0 <= m < n,
    ensures
        units(m) < units(n),
    decreases n - m,
{
    let e: int = (n - 1) / EXPONENT as int;
    if e == 0 {
        lemma_units(0, n);
    } else {
        lemma_units((e - 1) as nat, EXPONENT + (n - 1) % EXPONENT as int);
        assert((e - 1) * EXPONENT + EXPONENT + (n - 1) % EXPONENT as int == n - 1);
    }
    assert(units(n - 1) < units(n)) by {
        let s = scale(n - 1);
        lemma_pow2_pos(s);
        assert((significand(n - 1) + 1) * pow2(s) == units(n - 1) + pow2(s)) by (nonlinear_arith)
            requires
                units(n - 1) == significand(n - 1) * pow2(s),
        ;
    }
    if m < n - 1 {
        lemma_units_increase(m, n - 1);
    }
}

/// Numbers are ordered by their values.
pub proof fn lemma_order(a: Double, b: Double)
    requires
        a.finite(),
        b.finite(),
    ensures
        a.less(b) <==> a.value() < b.value(),
        a.at_most(b) <==> a.value() <= b.value(),
{
    let m: int = a.magnitude() as int;
    let n: int = b.magnitude() as int;
    assert(units(0) == 0) by {
        lemma_units_at(0, 0);
    }
    if m > 0 {
        lemma_units_increase(0, m);
    }
    if n > 0 {
        lemma_units_increase(0, n);
    }
    if m < n {
        lemma_units_increase(m, n);
    }
    if n < m {
        lemma_units_increase(n, m);
    }
}

} // verus!
