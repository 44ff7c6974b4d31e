//! Products and quotients of doubles, rounded as IEEE 754 prescribes.

use vstd::prelude::*;
use vstd::arithmetic::power2::{lemma2_to64, lemma2_to64_rest, lemma_pow2_adds, lemma_pow2_pos, lemma_pow2_strictly_increases, pow2};

use crate::bignat::BigNat;
use crate::decimal::signed;
use crate::double::{scale, significand, units, Double, EXPONENT, INFINITY, NAN, SIGN};
use crate::rounding::{lemma_nearest_quotient, lemma_nearest_unique, nearest, round_half_units};

verus! {

/// The magnitude nearest to `num / den` units.
pub open spec fn rounded(num: nat, den: nat) -> u64 {
    choose|m: u64| nearest(num, den, m)
}

pub proof fn lemma_rounded(num: nat, den: nat, m: u64)
    requires
        den > 0,
        nearest(num, den, m),
    ensures
        rounded(num, den) == m,
{
    lemma_nearest_unique(num, den, m, rounded(num, den));
}

impl Double {
    /// The product of two numbers.
    pub open spec fn product(self, other: Double) -> Double {
        let negative = self.negative() != other.negative();
        if self.nan() || other.nan() {
            Double { bits: NAN }
        } else if self.infinite() || other.infinite() {
            if self.magnitude() == 0 || other.magnitude() == 0 {
                Double { bits: NAN }
            } else {
                signed(negative, INFINITY)
            }
        } else {
            signed(
                negative,
                rounded(
                    (units(self.magnitude() as int) * units(other.magnitude() as int)) as nat,
                    pow2(1074),
                ),
            )
        }
    }

    /// The quotient of a number by a whole number.
    pub open spec fn quotient(self, d: u64) -> Double {
        if self.finite() {
            signed(self.negative(), rounded(units(self.magnitude() as int) as nat, d as nat))
        } else {
            self
        }
    }

    /// The product of two numbers.
    pub fn times(&self, other: Double) -> (r: Double)
        ensures
            r == self.product(other),
    {
        let a: u64 = self.bits % SIGN;
        let b: u64 = other.bits % SIGN;
        if a > INFINITY || b > INFINITY {
            return Double { bits: NAN };
        }
        let m: u64 = if a == INFINITY || b == INFINITY {
            if a == 0 || b == 0 {
                return Double { bits: NAN };
            }
            INFINITY
        } else {
            multiply(a, b)
        };
        if (self.bits >= SIGN) != (other.bits >= SIGN) {
            Double { bits: m + SIGN }
        } else {
            Double { bits: m }
        }
    }

    /// The quotient of a number by a whole number.
    pub fn over(&self, d: u64) -> (r: Double)
        requires
            d > 0,
        ensures
            r == self.quotient(d),
    {
        if !self.is_finite() {
            return *self;
        }
        let a: u64 = self.bits % SIGN;
        let (sig, s) = parts(a);
        let mut n: BigNat = BigNat::from_u128(sig as u128);
        n.shl(s + 1);
        let ghost whole = n@;
        let rem: u64 = n.div_rem(d);
        let m: u64 = round_half_units(&n, rem > 0);
        proof {
            let u: int = units(a as int);
            lemma2_to64();
            lemma_pow2_adds(s as nat, 1);
            assert(whole == 2 * u) by (nonlinear_arith)
                requires
                    whole == sig * (pow2(s as nat) * 2),
                    u == sig * pow2(s as nat),
            ;
            lemma_nearest_quotient(u as nat, d as nat, n@, rem as nat, rem > 0, m);
            lemma_rounded(u as nat, d as nat, m);
        }
        if self.bits >= SIGN {
            Double { bits: m + SIGN }
        } else {
            Double { bits: m }
        }
    }
}

/// The significand and the scale of a finite magnitude.
fn parts(m: u64) -> (r: (u64, usize))
    requires
        m < INFINITY,
    ensures
        r.0 == significand(m as int),
        r.1 == scale(m as int),
        r.0 < 0x20_0000_0000_0000,
        r.1 <= 2045,
{
    let e: u64 = m / EXPONENT;
    if e == 0 {
        (m, 0)
    } else {
        (EXPONENT + m % EXPONENT, (e - 1) as usize)
    }
}

/// The magnitude of the product of two finite magnitudes.
fn multiply(a: u64, b: u64) -> (m: u64)
    requires
        a < INFINITY,
        b < INFINITY,
    ensures
        m == rounded((units(a as int) * units(b as int)) as nat, pow2(1074)),
        m <= INFINITY,
{
    let (x, s) = parts(a);
    let (y, t) = parts(b);
    assert(x * y <= 0x20_0000_0000_0000 * 0x20_0000_0000_0000) by (nonlinear_arith)
        requires
            0 <= x <= 0x20_0000_0000_0000u64,
            0 <= y <= 0x20_0000_0000_0000u64,
    ;
    let p: u128 = x as u128 * y as u128;
    let shift: usize = s + t + 1;
    let ghost num = (units(a as int) * units(b as int)) as nat;
    proof {
        lemma2_to64();
        lemma_pow2_adds(s as nat, t as nat);
        lemma_pow2_adds((s + t) as nat, 1);
        lemma_pow2_pos(shift as nat);
        lemma_pow2_pos(1074);
        let u: int = pow2(s as nat) as int;
        let v: int = pow2(t as nat) as int;
        assert(2 * ((x * u) * (y * v)) == p * (u * v * 2)) by (nonlinear_arith)
            requires
                p == x * y,
        ;
        assert(p * pow2(shift as nat) >= 0) by (nonlinear_arith);
        assert(2 * num == p * pow2(shift as nat));
    }
    if shift >= 1074 {
        let mut n: BigNat = BigNat::from_u128(p);
        n.shl(shift - 1074);
        let m: u64 = round_half_units(&n, false);
        proof {
            lemma_pow2_adds((shift - 1074) as nat, 1074);
            let u: int = pow2((shift - 1074) as nat) as int;
            let v: int = pow2(1074) as int;
            assert(p * (u * v) == (p * u) * v) by (nonlinear_arith);
            lemma_nearest_quotient(num, pow2(1074), n@, 0, false, m);
            lemma_rounded(num, pow2(1074), m);
        }
        return m;
    }
    let t2: usize = 1074 - shift;
    proof {
        lemma_pow2_adds(t2 as nat, shift as nat);
    }
    let mut d: u128 = 1;
    let steps: usize = if t2 > 120 { 120 } else { t2 };
    for i in 0..steps
        invariant
            steps <= 120,
            d == pow2(i as nat),
    {
        proof {
            lemma2_to64();
            lemma2_to64_rest();
            lemma_pow2_adds(1, i as nat);
            lemma_pow2_strictly_increases(i as nat, 120);
            lemma_pow2_adds(60, 60);
        }
        d = d * 2;
    }
    proof {
        lemma_pow2_pos(steps as nat);
        lemma2_to64_rest();
        lemma_pow2_adds(60, 60);
    }
    let q: u128 = p / d;
    let r: u128 = p % d;
    let n: BigNat = BigNat::from_u128(q);
    let m: u64 = round_half_units(&n, r > 0);
    proof {
        let w: int = pow2(shift as nat) as int;
        let z: int = pow2(t2 as nat) as int;
        vstd::arithmetic::div_mod::lemma_fundamental_div_mod(p as int, d as int);
        if t2 > 120 {
            lemma_pow2_strictly_increases(120, t2 as nat);
            assert(q == 0 && r == p) by {
                vstd::arithmetic::div_mod::lemma_basic_div(p as int, d as int);
                vstd::arithmetic::div_mod::lemma_small_mod(p as nat, d as nat);
            }
            assert(p == z * q + r) by (nonlinear_arith)
                requires
                    q == 0,
                    r == p,
            ;
        }
        assert(p == z * q + r);
        assert(r < z);
        let rest: int = r * w;
        assert(p * w == q * (z * w) + rest) by (nonlinear_arith)
            requires
                p == z * q + r,
                rest == r * w,
        ;
        assert(0 <= rest < z * w && (rest > 0) == (r > 0)) by (nonlinear_arith)
            requires
                rest == r * w,
                0 <= r < z,
                w > 0,
        ;
        lemma_nearest_quotient(num, pow2(1074), n@, rest as nat, r > 0, m);
        lemma_rounded(num, pow2(1074), m);
    }
    m
}

} // verus!
