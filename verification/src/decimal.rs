//! Decimal numerals: reading one as the nearest double, and writing a double with
//! a fixed number of decimal places.

use vstd::prelude::*;
use vstd::string::*;
use vstd::arithmetic::power::{lemma_pow0, lemma_pow1, lemma_pow_adds, lemma_pow_distributes, lemma_pow_positive, pow};
use vstd::arithmetic::power2::{lemma2_to64, lemma2_to64_rest, lemma_pow2, lemma_pow2_adds, lemma_pow2_pos, lemma_pow2_strictly_increases, pow2};

use crate::bignat::BigNat;
use crate::double::{lemma_units, scale, significand, units, Double, EXPONENT, INFINITY, NAN, SIGN};
use crate::rounding::{lemma_nearest_quotient, lemma_nearest_unique, nearest, round_half_units};
use crate::text::{alike, alike_chars, find, piece, position};

verus! {

pub open spec fn digit(c: char) -> bool {
    '0' <= c && c <= '9'
}

pub open spec fn digit_value(c: char) -> nat {
    (c as int - '0' as int) as nat
}

pub open spec fn all_digits(s: Seq<char>) -> bool {
    forall|i: int| 0 <= i < s.len() ==> digit(#[trigger] s[i])
}

/// The number that a sequence of decimal digits stands for.
pub open spec fn digits_value(s: Seq<char>) -> nat
    decreases s.len(),
{
    if s.len() == 0 {
        0
    } else {
        10 * digits_value(s.drop_last()) + digit_value(s.last())
    }
}

/// The `n`-th power of ten.
pub open spec fn ten(n: nat) -> nat {
    pow(10, n) as nat
}

/// What follows the sign, where there is one.
pub open spec fn unsigned(s: Seq<char>) -> Seq<char> {
    if s.len() > 0 && (s[0] == '+' || s[0] == '-') {
        s.drop_first()
    } else {
        s
    }
}

pub open spec fn minus(s: Seq<char>) -> bool {
    s.len() > 0 && s[0] == '-'
}

/// The digits before and after the point of `t`, and the signed power of ten, for
/// a numeral without a sign: `12`, `1.5`, `.5`, `5.`, `1e3`, `2.5E-7`.
pub open spec fn decimal(t: Seq<char>) -> Option<(nat, int)> {
    let e = position(t, seq!['e', 'E']) as int;
    let mantissa = t.take(e);
    let p = position(mantissa, seq!['.']) as int;
    let int_part = mantissa.take(p);
    let frac_part = if p < mantissa.len() {
        mantissa.skip(p + 1)
    } else {
        seq![]
    };
    let power = if e < t.len() {
        t.skip(e + 1)
    } else {
        seq!['0']
    };
    let power_digits = unsigned(power);
    let exponent = if minus(power) {
        -digits_value(power_digits)
    } else {
        digits_value(power_digits) as int
    };
    if all_digits(int_part) && all_digits(frac_part) && int_part.len() + frac_part.len() > 0
        && all_digits(power_digits) && power_digits.len() > 0 {
        Some((digits_value(int_part + frac_part), exponent - frac_part.len()))
    } else {
        None
    }
}

/// `m` is the magnitude nearest to `digits` times ten to the power of `exponent`.
pub open spec fn nearest_decimal(digits: nat, exponent: int, m: u64) -> bool {
    if exponent >= 0 {
        nearest(digits * pow2(1074) * ten(exponent as nat), 1, m)
    } else {
        nearest(digits * pow2(1074), ten((-exponent) as nat), m)
    }
}

/// The magnitude nearest to `digits` times ten to the power of `exponent`.
pub open spec fn magnitude_of(digits: nat, exponent: int) -> u64 {
    choose|m: u64| nearest_decimal(digits, exponent, m)
}

pub open spec fn signed(negative: bool, magnitude: u64) -> Double {
    Double {
        bits: if negative {
            (magnitude + SIGN) as u64
        } else {
            magnitude
        },
    }
}

/// The double that a numeral stands for: the nearest one, an infinity or a
/// not-a-number. Nothing where the text is no numeral.
pub open spec fn read(s: Seq<char>) -> Option<Double> {
    let t = unsigned(s);
    if alike(t, "inf"@) || alike(t, "infinity"@) {
        Some(signed(minus(s), INFINITY))
    } else if alike(t, "nan"@) {
        Some(signed(minus(s), NAN))
    } else {
        match decimal(t) {
            Some((digits, exponent)) => Some(signed(minus(s), magnitude_of(digits, exponent))),
            None => None,
        }
    }
}

pub proof fn lemma_ten(n: nat)
    ensures
        ten(n) > 0,
        ten(0) == 1,
        ten(n + 1) == 10 * ten(n),
        pow(10, n) == ten(n),
{
    lemma_pow_positive(10, n);
    lemma_pow_positive(10, n + 1);
    lemma_pow_adds(10, 1, n);
    lemma_pow1(10);
    lemma_pow0(10);
}

pub proof fn lemma_ten_adds(a: nat, b: nat)
    ensures
        ten(a + b) == ten(a) * ten(b),
{
    lemma_pow_adds(10, a, b);
    lemma_ten(a);
    lemma_ten(b);
    lemma_ten(a + b);
}

/// Ten to a power is at least eight to it.
pub proof fn lemma_ten_large(n: nat)
    ensures
        ten(n) >= pow2(3 * n),
    decreases n,
{
    lemma2_to64();
    lemma_ten(n);
    if n > 0 {
        let k: nat = (n - 1) as nat;
        lemma_ten_large(k);
        lemma_ten(k);
        lemma_pow2_adds(3, 3 * k);
        assert(3 + 3 * k == 3 * n);
        assert(pow2(3) == 8);
    }
}

pub proof fn lemma_digits_concat(a: Seq<char>, b: Seq<char>)
    ensures
        digits_value(a + b) == digits_value(a) * ten(b.len()) + digits_value(b),
    decreases b.len(),
{
    lemma_ten(0);
    if b.len() == 0 {
        assert(a + b =~= a);
        assert(digits_value(a) * 1 == digits_value(a));
    } else {
        let k: nat = (b.len() - 1) as nat;
        lemma_digits_concat(a, b.drop_last());
        assert((a + b).drop_last() =~= a + b.drop_last());
        lemma_ten(k);
        let x = digits_value(a);
        let p = ten(k);
        assert(10 * (x * p) == x * (10 * p)) by (nonlinear_arith);
    }
}

pub proof fn lemma_digits_bound(s: Seq<char>)
    requires
        all_digits(s),
    ensures
        digits_value(s) < ten(s.len()),
    decreases s.len(),
{
    lemma_ten(0);
    if s.len() > 0 {
        let k: nat = (s.len() - 1) as nat;
        lemma_digits_bound(s.drop_last());
        lemma_ten(k);
        assert(digit(s.last()));
    }
}

/// A number whose first digit is not zero is at least the power of ten of that
/// digit.
pub proof fn lemma_digits_large(s: Seq<char>)
    requires
        all_digits(s),
        s.len() > 0,
        s[0] != '0',
    ensures
        digits_value(s) >= ten((s.len() - 1) as nat),
    decreases s.len(),
{
    lemma_ten(0);
    assert(digit(s[0]));
    if s.len() == 1 {
        assert(s.last() == s[0]);
        assert(digits_value(s.drop_last()) == 0);
    } else {
        lemma_digits_large(s.drop_last());
        lemma_ten((s.len() - 2) as nat);
    }
}

pub proof fn lemma_digits_zeros(s: Seq<char>)
    requires
        forall|i: int| 0 <= i < s.len() ==> s[i] == '0',
    ensures
        digits_value(s) == 0,
    decreases s.len(),
{
    if s.len() > 0 {
        lemma_digits_zeros(s.drop_last());
    }
}

/// A number with a digit other than zero is not zero.
pub proof fn lemma_digits_nonzero(s: Seq<char>, i: int)
    requires
        all_digits(s),
        0 <= i < s.len(),
        s[i] != '0',
    ensures
        digits_value(s) > 0,
    decreases s.len(),
{
    assert(digit(s[i]));
    if i < s.len() - 1 {
        lemma_digits_nonzero(s.drop_last(), i);
    }
}

fn only_digits(v: &Vec<char>) -> (r: bool)
    ensures
        r == all_digits(v@),
{
    for i in 0..v.len()
        invariant
            forall|j: int| 0 <= j < i ==> digit(#[trigger] v@[j]),
    {
        if !('0' <= v[i] && v[i] <= '9') {
            assert(!digit(v@[i as int]));
            return false;
        }
    }
    true
}

/// Any exponent beyond this gives zero or infinity, whatever the digits are.
pub const EXPONENT_LIMIT: i128 = 1_000_000_000_000_000_000_000_000;

/// The number that some digits stand for, or some number not below the limit where
/// that one is not.
fn bounded_value(v: &Vec<char>) -> (r: i128)
    requires
        all_digits(v@),
    ensures
        0 <= r < 20 * EXPONENT_LIMIT,
        r < EXPONENT_LIMIT ==> r == digits_value(v@),
        r >= EXPONENT_LIMIT ==> digits_value(v@) >= EXPONENT_LIMIT,
{
    let mut r: i128 = 0;
    assert(v@.take(0) =~= Seq::<char>::empty());
    for i in 0..v.len()
        invariant
            all_digits(v@),
            0 <= r < 20 * EXPONENT_LIMIT,
            r < EXPONENT_LIMIT ==> r == digits_value(v@.take(i as int)),
            r >= EXPONENT_LIMIT ==> digits_value(v@.take(i as int)) >= EXPONENT_LIMIT,
    {
        assert(v@.take(i + 1).drop_last() =~= v@.take(i as int));
        assert(v@.take(i + 1).last() == v@[i as int]);
        assert(digit(v@[i as int]));
        if r < EXPONENT_LIMIT {
            r = r * 10 + (v[i] as u32 - '0' as u32) as i128;
        }
    }
    assert(v@.take(v@.len() as int) =~= v@);
    r
}

/// A quantity of more than the largest power of two rounds to infinity.
proof fn lemma_infinite(num: nat, den: nat)
    requires
        den > 0,
        num >= den * pow2(2100),
    ensures
        nearest(num, den, INFINITY),
{
    reveal(nearest);
    lemma2_to64();
    lemma2_to64_rest();
    lemma_pow2_adds(52, 2046);
    lemma_pow2_strictly_increases(2098, 2100);
    lemma_units(2046, EXPONENT as int);
    assert(2046 * EXPONENT + EXPONENT == INFINITY);
    assert(units(INFINITY as int) == pow2(2098));
    let sum: int = units(INFINITY - 1) + units(INFINITY as int);
    assert(sum * den < 2 * num) by (nonlinear_arith)
        requires
            sum < 2 * pow2(2100),
            num >= den * pow2(2100),
            den > 0,
    ;
}

/// A quantity of less than half a unit rounds to zero.
proof fn lemma_vanishing(num: nat, den: nat)
    requires
        2 * num < den,
    ensures
        nearest(num, den, 0),
{
    reveal(nearest);
    lemma2_to64();
    lemma_units(0, 0);
    assert(units(0) == 0);
    assert(units(1) == 1);
    assert((units(0) + units(1)) * den == den);
}

proof fn lemma_too_large(digits: nat, count: nat, exponent: int)
    requires
        digits >= ten(count),
        count + exponent >= 400,
    ensures
        nearest_decimal(digits, exponent, INFINITY),
{
    lemma_ten_large(400);
    lemma_pow2_adds(1200, 1074);
    lemma_pow2_strictly_increases(2100, 2274);
    lemma_ten(400);
    let u: int = pow2(1074) as int;
    let t: int = ten(400) as int;
    lemma_pow2_pos(1074);
    assert(t * u >= pow2(2274)) by (nonlinear_arith)
        requires
            t >= pow2(1200),
            pow2(2274) == pow2(1200) * u,
            u > 0,
    ;
    if exponent >= 0 {
        let e: nat = exponent as nat;
        let extra: nat = (count + exponent - 400) as nat;
        lemma_ten_adds(count, e);
        lemma_ten_adds(400, extra);
        lemma_ten(extra);
        lemma_ten(e);
        let p: int = ten(e) as int;
        assert(ten(count) * p >= t) by (nonlinear_arith)
            requires
                ten(count) * p == t * ten(extra),
                ten(extra) >= 1,
                t >= 0,
        ;
        assert(digits * p >= t) by (nonlinear_arith)
            requires
                digits >= ten(count),
                ten(count) * p >= t,
                p > 0,
        ;
        assert(digits * u * p >= t * u) by (nonlinear_arith)
            requires
                digits * p >= t,
                u > 0,
        ;
        lemma_infinite(digits * pow2(1074) * ten(e), 1);
    } else {
        let f: nat = (-exponent) as nat;
        let extra: nat = (count - f - 400) as nat;
        lemma_ten_adds(f, 400);
        lemma_ten_adds(f + 400, extra);
        lemma_ten(extra);
        lemma_ten(f);
        let d: int = ten(f) as int;
        assert(digits >= d * t) by (nonlinear_arith)
            requires
                digits >= (d * t) * ten(extra),
                ten(extra) >= 1,
                d * t >= 0,
        ;
        assert(d * t >= 0) by (nonlinear_arith)
            requires
                d >= 0,
                t >= 0,
        ;
        assert(digits * u >= d * pow2(2100)) by (nonlinear_arith)
            requires
                digits >= d * t,
                t * u >= pow2(2274),
                pow2(2274) >= pow2(2100),
                d > 0,
                u > 0,
        ;
        lemma_infinite(digits * pow2(1074), ten(f));
    }
}

proof fn lemma_too_small(digits: nat, count: nat, exponent: int)
    requires
        digits < ten(count),
        count + exponent < -400,
    ensures
        nearest_decimal(digits, exponent, 0),
{
    let f: nat = (-exponent) as nat;
    let extra: nat = (f - 400 - count) as nat;
    lemma_ten_large(400);
    lemma2_to64();
    lemma_pow2_adds(1, 1074);
    lemma_pow2_strictly_increases(1075, 1200);
    lemma_ten_adds(count, 400);
    lemma_ten_adds(count + 400, extra);
    lemma_ten(extra);
    lemma_ten(count);
    lemma_pow2_pos(1074);
    let c: int = ten(count) as int;
    let t: int = ten(400) as int;
    let u: int = pow2(1074) as int;
    assert(ten(f) >= c * t) by (nonlinear_arith)
        requires
            ten(f) == (c * t) * ten(extra),
            ten(extra) >= 1,
            c > 0,
            t > 0,
    ;
    assert(2 * (digits * u) < c * t) by (nonlinear_arith)
        requires
            digits < c,
            2 * u < t,
            u > 0,
            digits >= 0,
    ;
    lemma_vanishing(digits * pow2(1074), ten(f));
}

/// The power of five for `k` up to 27.
fn five(k: usize) -> (r: u64)
    requires
        k <= 27,
    ensures
        r == pow(5, k as nat),
        r > 0,
{
    let mut r: u64 = 1;
    proof {
        lemma_pow0(5);
    }
    for i in 0..k
        invariant
            k <= 27,
            r == pow(5, i as nat),
            r > 0,
    {
        proof {
            lemma_five_small(i as nat);
            lemma_pow_adds(5, 1, i as nat);
            lemma_pow1(5);
        }
        r = r * 5;
    }
    r
}

proof fn lemma_five_small(k: nat)
    requires
        k <= 26,
    ensures
        pow(5, k) <= 1490116119384765625,
{
    lemma_pow1(5);
    lemma_product(1, 1, 5, 5);
    lemma_product(2, 2, 25, 25);
    lemma_product(4, 4, 625, 625);
    lemma_product(8, 8, 390625, 390625);
    lemma_product(16, 8, 152587890625, 390625);
    lemma_product(24, 2, 59604644775390625, 25);
    vstd::arithmetic::power::lemma_pow_increases(5, k, 26);
}

proof fn lemma_product(a: nat, b: nat, x: int, y: int)
    requires
        pow(5, a) == x,
        pow(5, b) == y,
    ensures
        pow(5, a + b) == x * y,
{
    lemma_pow_adds(5, a, b);
}

/// Divides a number by a power of five, and tells whether that left a remainder.
fn div_five(n: &mut BigNat, k: usize) -> (r: (bool, Ghost<nat>))
    ensures
        old(n)@ == final(n)@ * pow(5, k as nat) + r.1@,
        r.1@ < pow(5, k as nat),
        r.0 == (r.1@ > 0),
{
    let mut done: usize = 0;
    let mut sticky: bool = false;
    let ghost mut rest: nat = 0;
    let ghost start = n@;
    proof {
        lemma_pow0(5);
        assert(start * 1 == start);
    }
    while done < k
        invariant
            done <= k,
            start == n@ * pow(5, done as nat) + rest,
            rest < pow(5, done as nat),
            sticky == (rest > 0),
        decreases k - done,
    {
        let step: usize = if k - done < 27 { k - done } else { 27 };
        let d: u64 = five(step);
        let ghost before = n@;
        let rem: u64 = n.div_rem(d);
        proof {
            lemma_pow_adds(5, done as nat, step as nat);
            let p: int = pow(5, done as nat);
            let q: int = n@ as int;
            let r: int = rest as int;
            assert((q * d + rem) * p + r == q * (p * d) + (rem * p + r)) by (nonlinear_arith);
            assert(rem * p + r < p * d) by (nonlinear_arith)
                requires
                    rem + 1 <= d,
                    r < p,
                    p > 0,
            ;
            assert(rem * p >= 0 && (rem > 0 ==> rem * p > 0) && (rem == 0 ==> rem * p == 0))
                by (nonlinear_arith)
                requires
                    p > 0,
                    rem >= 0,
            ;
            rest = (rem * p + r) as nat;
        }
        if rem > 0 {
            sticky = true;
        }
        done = done + step;
    }
    (sticky, Ghost(rest))
}

/// The number that some digits stand for.
fn big(v: &Vec<char>, from: usize, to: usize) -> (r: BigNat)
    requires
        all_digits(v@),
        from <= to <= v@.len(),
    ensures
        r@ == digits_value(v@.subrange(from as int, to as int)),
{
    let mut r: BigNat = BigNat::zero();
    let mut i: usize = from;
    assert(v@.subrange(from as int, from as int) =~= Seq::<char>::empty());
    while i < to
        invariant
            all_digits(v@),
            from <= i <= to <= v@.len(),
            r@ == digits_value(v@.subrange(from as int, i as int)),
        decreases to - i,
    {
        proof {
            let next = v@.subrange(from as int, i + 1);
            assert(next.drop_last() =~= v@.subrange(from as int, i as int));
            assert(next.last() == v@[i as int]);
            assert(digit(v@[i as int]));
        }
        r.mul_add(10, v[i] as u32 - '0' as u32);
        i = i + 1;
    }
    r
}

proof fn lemma_scaled_exactly(d: nat, e: nat)
    ensures
        2 * (d * pow2(1074) * ten(e)) == (d * ten(e)) * pow2(1075),
{
    lemma2_to64();
    lemma_pow2_adds(1, 1074);
    let u: int = pow2(1074) as int;
    let t: int = ten(e) as int;
    assert(2 * (d * u * t) == (d * t) * (2 * u)) by (nonlinear_arith);
}

proof fn lemma_scaled_down(d: nat, kept: nat, r1: nat, drop: nat, g: nat, q: nat, r2: nat) -> (rest:
    nat)
    requires
        d == kept * ten(drop) + r1,
        r1 < ten(drop),
        g <= 1075,
        drop > 0 ==> g == 1075,
        kept * pow2((1075 - g) as nat) == q * pow(5, g) + r2,
        r2 < pow(5, g),
    ensures
        2 * (d * pow2(1074)) == q * ten(g + drop) + rest,
        rest < ten(g + drop),
        (rest > 0) == (r1 > 0 || r2 > 0),
{
    lemma2_to64();
    lemma_pow2_adds(1, 1074);
    lemma_pow2_adds((1075 - g) as nat, g);
    lemma_pow2(g);
    lemma_pow_distributes(2, 5, g);
    lemma_ten(g);
    lemma_ten(drop);
    lemma_ten_adds(g, drop);
    lemma_pow2_pos(g);
    lemma_pow2_pos(1075);
    let a: int = pow2((1075 - g) as nat) as int;
    let b: int = pow2(g) as int;
    let c: int = pow(5, g);
    let t: int = ten(drop) as int;
    let x: int = r1 as int;
    let y: int = r2 as int;
    let all: int = pow2(1075) as int;
    assert(ten(g) == b * c);
    assert(all == a * b);
    let rest: int = b * t * y + all * x;
    assert(2 * (d * pow2(1074)) == d * all) by (nonlinear_arith)
        requires
            all == 2 * pow2(1074),
    ;
    assert(d * all == (kept * t) * all + all * x) by (nonlinear_arith)
        requires
            d == kept * t + x,
    ;
    let k: int = kept * a;
    assert((kept * t) * all == k * (t * b)) by (nonlinear_arith)
        requires
            all == a * b,
            k == kept * a,
    ;
    assert(k * (t * b) == q * ((b * c) * t) + b * t * y) by (nonlinear_arith)
        requires
            k == q * c + y,
    ;
    if drop == 0 {
        assert(x == 0);
        assert(t == 1);
        assert(rest == b * y) by (nonlinear_arith)
            requires
                rest == b * t * y + all * x,
                t == 1,
                x == 0,
        ;
        assert(b * y < (b * c) * t) by (nonlinear_arith)
            requires
                t == 1,
                b > 0,
                y < c,
        ;
        assert(b * y >= 0 && (y > 0 ==> b * y > 0) && (y == 0 ==> b * y == 0)) by (nonlinear_arith)
            requires
                b > 0,
                y >= 0,
        ;
    } else {
        assert(pow2(0) == 1);
        assert(all == b);
        assert(rest == b * (t * y + x)) by (nonlinear_arith)
            requires
                rest == b * t * y + all * x,
                all == b,
        ;
        assert(t * y + x < t * c) by (nonlinear_arith)
            requires
                y + 1 <= c,
                x < t,
                t > 0,
        ;
        let s: int = t * y + x;
        assert(b * s < (b * c) * t) by (nonlinear_arith)
            requires
                b > 0,
                s < t * c,
        ;
        assert(t * y >= 0 && (y > 0 ==> t * y > 0) && (y == 0 ==> t * y == 0)) by (nonlinear_arith)
            requires
                t > 0,
                y >= 0,
        ;
        assert(b * s >= 0 && (s > 0 ==> b * s > 0) && (s == 0 ==> b * s == 0)) by (nonlinear_arith)
            requires
                b > 0,
                s >= 0,
        ;
    }
    rest as nat
}

/// The magnitude nearest to the number of the digits from `zeros` on, times ten to
/// the power of `tens`.
fn nearest_above(v: &Vec<char>, zeros: usize, tens: usize) -> (m: u64)
    requires
        all_digits(v@),
        zeros <= v@.len(),
    ensures
        nearest_decimal(digits_value(v@.skip(zeros as int)), tens as int, m),
{
    let len: usize = v.len();
    let ghost d = digits_value(v@.skip(zeros as int));
    let mut n: BigNat = big(v, zeros, len);
    assert(v@.subrange(zeros as int, len as int) =~= v@.skip(zeros as int));
    proof {
        lemma_ten(0);
        assert(d * 1 == d);
    }
    for i in 0..tens
        invariant
            n@ == d * ten(i as nat),
    {
        n.mul_add(10, 0);
        proof {
            lemma_ten(i as nat);
            let p = ten(i as nat);
            assert(d * p * 10 == d * (10 * p)) by (nonlinear_arith);
        }
    }
    n.shl(1075);
    let m: u64 = round_half_units(&n, false);
    proof {
        lemma_scaled_exactly(d, tens as nat);
        lemma_nearest_quotient(d * pow2(1074) * ten(tens as nat), 1, n@, 0, false, m);
    }
    m
}

/// The magnitude nearest to the number of the digits from `zeros` on, divided by
/// ten to the power of `below`.
fn nearest_below(v: &Vec<char>, zeros: usize, below: i128) -> (m: u64)
    requires
        all_digits(v@),
        zeros <= v@.len(),
        below > 0,
        below <= v@.len() - zeros + 1075,
    ensures
        nearest_decimal(digits_value(v@.skip(zeros as int)), -below, m),
{
    let len: usize = v.len();
    let ghost sig = v@.skip(zeros as int);
    let ghost d = digits_value(sig);
    let drop: usize = if below > 1075 { (below - 1075) as usize } else { 0 };
    let g: usize = if below > 1075 { 1075 } else { below as usize };
    let end: usize = len - drop;
    let mut n: BigNat = big(v, zeros, end);
    let ghost kept = n@;
    let mut left: bool = false;
    for i in end..len
        invariant
            end <= len == v@.len(),
            all_digits(v@),
            left == exists|j: int| end <= j < i && v@[j] != '0',
    {
        if v[i] != '0' {
            left = true;
        }
    }
    n.shl(1075 - g);
    let (sticky, r2) = div_five(&mut n, g);
    let m: u64 = round_half_units(&n, left || sticky);
    proof {
        let tail = v@.subrange(end as int, len as int);
        assert(sig =~= v@.subrange(zeros as int, end as int) + tail);
        lemma_digits_concat(v@.subrange(zeros as int, end as int), tail);
        assert(all_digits(tail));
        lemma_digits_bound(tail);
        if left {
            let j = choose|j: int| end <= j < len && v@[j] != '0';
            lemma_digits_nonzero(tail, j - end);
        } else {
            lemma_digits_zeros(tail);
        }
        let rest = lemma_scaled_down(d, kept, digits_value(tail), drop as nat, g as nat, n@, r2@);
        lemma_ten((g + drop) as nat);
        assert(g + drop == below);
        lemma_nearest_quotient(
            d * pow2(1074),
            ten(below as nat),
            n@,
            rest,
            left || sticky,
            m,
        );
    }
    m
}

/// The magnitude nearest to the number of some digits, times ten to a power. That
/// power is `exponent`; it is given as `near`, or as something of the same sign
/// where it is out of reach.
fn nearest_of(v: &Vec<char>, near: i128, Ghost(exponent): Ghost<int>) -> (m: u64)
    requires
        all_digits(v@),
        -EXPONENT_LIMIT / 100 < near < EXPONENT_LIMIT / 100 ==> exponent == near,
        near >= EXPONENT_LIMIT / 100 ==> exponent >= EXPONENT_LIMIT / 100,
        near <= -EXPONENT_LIMIT / 100 ==> exponent <= -EXPONENT_LIMIT / 100,
        -30 * EXPONENT_LIMIT < near < 30 * EXPONENT_LIMIT,
    ensures
        nearest_decimal(digits_value(v@), exponent, m),
{
    let len: usize = v.len();
    let mut zeros: usize = 0;
    while zeros < len && v[zeros] == '0'
        invariant
            zeros <= len == v@.len(),
            forall|i: int| 0 <= i < zeros ==> v@[i] == '0',
        decreases len - zeros,
    {
        zeros = zeros + 1;
    }
    let ghost sig = v@.skip(zeros as int);
    let ghost d = digits_value(sig);
    let count: usize = len - zeros;
    proof {
        assert(v@ =~= v@.take(zeros as int) + sig);
        lemma_digits_zeros(v@.take(zeros as int));
        lemma_digits_concat(v@.take(zeros as int), sig);
        assert(0 * ten(sig.len()) == 0);
        assert(digits_value(v@) == d);
        assert(all_digits(sig));
        lemma_digits_bound(sig);
    }
    if count == 0 {
        proof {
            assert(d == 0);
            if exponent >= 0 {
                assert(d * pow2(1074) * ten(exponent as nat) == 0) by (nonlinear_arith)
                    requires
                        d == 0,
                ;
                lemma_vanishing(0, 1);
            } else {
                assert(d * pow2(1074) == 0) by (nonlinear_arith)
                    requires
                        d == 0,
                ;
                lemma_ten((-exponent) as nat);
                lemma_vanishing(0, ten((-exponent) as nat));
            }
        }
        return 0;
    }
    let size: i128 = count as i128;
    proof {
        assert(sig[0] == v@[zeros as int]);
        lemma_digits_large(sig);
    }
    if size - 1 + near >= 400 {
        proof {
            lemma_too_large(d, (count - 1) as nat, exponent);
        }
        return INFINITY;
    }
    if size + near < -400 {
        proof {
            lemma_too_small(d, count as nat, exponent);
        }
        return 0;
    }
    assert(exponent == near);
    if near >= 0 {
        nearest_above(v, zeros, near as usize)
    } else {
        nearest_below(v, zeros, -near)
    }
}

/// There is one magnitude nearest to a decimal number.
pub proof fn lemma_magnitude_of(digits: nat, exponent: int, m: u64)
    requires
        nearest_decimal(digits, exponent, m),
    ensures
        magnitude_of(digits, exponent) == m,
        m <= INFINITY,
{
    reveal(nearest);
    let k = magnitude_of(digits, exponent);
    assert(nearest_decimal(digits, exponent, k));
    if exponent >= 0 {
        lemma_nearest_unique(digits * pow2(1074) * ten(exponent as nat), 1, m, k);
    } else {
        lemma_ten((-exponent) as nat);
        lemma_nearest_unique(digits * pow2(1074), ten((-exponent) as nat), m, k);
    }
}

fn with_sign(negative: bool, magnitude: u64) -> (r: Double)
    requires
        magnitude < SIGN,
    ensures
        r == signed(negative, magnitude),
{
    if negative {
        Double { bits: magnitude + SIGN }
    } else {
        Double { bits: magnitude }
    }
}

/// What follows the sign, where there is one.
fn without_sign(v: &Vec<char>) -> (r: Vec<char>)
    ensures
        r@ == unsigned(v@),
{
    if v.len() > 0 && (v[0] == '+' || v[0] == '-') {
        assert(v@.subrange(1, v@.len() as int) =~= v@.drop_first());
        piece(v, 1, v.len())
    } else {
        assert(v@.subrange(0, v@.len() as int) =~= v@);
        piece(v, 0, v.len())
    }
}

/// The magnitude of a numeral without a sign.
fn read_decimal(t: &Vec<char>) -> (r: Option<u64>)
    ensures
        r == match decimal(t@) {
            Some((digits, exponent)) => Some(magnitude_of(digits, exponent)),
            None => None,
        },
        r matches Some(m) ==> m <= INFINITY,
{
    let mark: [char; 2] = ['e', 'E'];
    let point: [char; 1] = ['.'];
    assert(mark@ =~= seq!['e', 'E']);
    assert(point@ =~= seq!['.']);
    let e: usize = find(t, &mark);
    let mantissa: Vec<char> = piece(t, 0, e);
    let p: usize = find(&mantissa, &point);
    let int_part: Vec<char> = piece(&mantissa, 0, p);
    let frac_part: Vec<char> = if p < mantissa.len() {
        piece(&mantissa, p + 1, mantissa.len())
    } else {
        Vec::new()
    };
    let mut power: Vec<char> = Vec::new();
    if e < t.len() {
        power = piece(t, e + 1, t.len());
    } else {
        power.push('0');
    }
    proof {
        assert(mantissa@ =~= t@.take(e as int));
        assert(int_part@ =~= mantissa@.take(p as int));
        if p < mantissa@.len() {
            assert(frac_part@ =~= mantissa@.skip(p + 1));
        }
        if e < t@.len() {
            assert(power@ =~= t@.skip(e + 1));
        } else {
            assert(power@ =~= seq!['0']);
        }
    }
    let power_digits: Vec<char> = without_sign(&power);
    if !only_digits(&int_part) || !only_digits(&frac_part) || !only_digits(&power_digits) {
        return None;
    }
    if (int_part.len() == 0 && frac_part.len() == 0) || power_digits.len() == 0 {
        return None;
    }
    let negative: bool = power.len() > 0 && power[0] == '-';
    let size: i128 = bounded_value(&power_digits);
    let places: i128 = frac_part.len() as i128;
    let near: i128 = if negative { -size - places } else { size - places };
    let mut digits: Vec<char> = int_part;
    let mut fraction: Vec<char> = frac_part;
    let ghost all = int_part@ + frac_part@;
    digits.append(&mut fraction);
    assert(digits@ =~= all);
    assert(all_digits(digits@));
    let ghost exponent = if negative {
        -digits_value(power_digits@) - places
    } else {
        digits_value(power_digits@) - places
    };
    let m: u64 = nearest_of(&digits, near, Ghost(exponent));
    proof {
        lemma_magnitude_of(digits_value(digits@), exponent, m);
    }
    Some(m)
}

/// The double that a numeral stands for.
pub fn read_double(v: &Vec<char>) -> (r: Option<Double>)
    ensures
        r == read(v@),
{
    let negative: bool = v.len() > 0 && v[0] == '-';
    let t: Vec<char> = without_sign(v);
    if alike_chars(&t, "inf") || alike_chars(&t, "infinity") {
        Some(with_sign(negative, INFINITY))
    } else if alike_chars(&t, "nan") {
        Some(with_sign(negative, NAN))
    } else {
        match read_decimal(&t) {
            Some(m) => Some(with_sign(negative, m)),
            None => None,
        }
    }
}

/// The decimal numeral of a number, without leading zeros.
pub open spec fn numeral(n: nat) -> Seq<char>
    decreases n,
{
    if n < 10 {
        seq![digit_char(n)]
    } else {
        numeral(n / 10).push(digit_char(n % 10))
    }
}

pub open spec fn digit_char(n: nat) -> char {
    ('0' as u32 + n as u32) as char
}

/// The last `k` decimal digits of a number.
pub open spec fn last_digits(n: nat, k: nat) -> Seq<char>
    decreases k,
{
    if k == 0 {
        seq![]
    } else {
        last_digits(n / 10, (k - 1) as nat).push(digit_char(n % 10))
    }
}

/// The whole number nearest to `num / den`; the even one where two are.
pub open spec fn half_even(num: nat, den: nat) -> nat {
    let q = num / den;
    let r = num % den;
    if 2 * r < den || (2 * r == den && q % 2 == 0) {
        q
    } else {
        q + 1
    }
}

/// The magnitude of `v` counted in the last of `k` decimal places.
pub open spec fn in_places(v: Double, k: nat) -> nat {
    half_even((units(v.magnitude() as int) * ten(k)) as nat, pow2(1074))
}

/// `n` with a point before its last `k` digits.
pub open spec fn pointed(n: nat, k: nat) -> Seq<char> {
    if k == 0 {
        numeral(n)
    } else {
        numeral(n / ten(k)) + seq!['.'] + last_digits(n, k)
    }
}

pub open spec fn sign_text(negative: bool, plus: bool) -> Seq<char> {
    if negative {
        seq!['-']
    } else if plus {
        seq!['+']
    } else {
        seq![]
    }
}

/// The numeral of `v` with `k` decimal places, rounded half to even on its exact
/// value. Negative numbers, minus zero among them, begin with a minus sign; where
/// `plus` is set the others begin with a plus sign.
pub open spec fn fixed(v: Double, k: nat, plus: bool) -> Seq<char> {
    if v.nan() {
        "NaN"@
    } else if v.infinite() {
        sign_text(v.negative(), plus) + "inf"@
    } else {
        sign_text(v.negative(), plus) + pointed(in_places(v, k), k)
    }
}

proof fn lemma_half_even_scaled(num: nat, den: nat, k: nat)
    requires
        den > 0,
        k > 0,
    ensures
        half_even(num * k, den * k) == half_even(num, den),
{
    let q: int = (num / den) as int;
    let r: int = (num % den) as int;
    vstd::arithmetic::div_mod::lemma_fundamental_div_mod(num as int, den as int);
    assert(num * k == q * (den * k) + r * k) by (nonlinear_arith)
        requires
            num == den * q + r,
    ;
    assert(0 <= r * k < den * k) by (nonlinear_arith)
        requires
            0 <= r < den,
            k > 0,
    ;
    vstd::arithmetic::div_mod::lemma_fundamental_div_mod_converse(
        (num * k) as int,
        (den * k) as int,
        q,
        r * k,
    );
    assert((2 * r < den) == (2 * (r * k) < den * k) && (2 * r == den) == (2 * (r * k) == den * k))
        by (nonlinear_arith)
        requires
            k > 0,
    ;
}

proof fn lemma_half_even_small(num: nat, den: nat)
    requires
        2 * num < den,
    ensures
        half_even(num, den) == 0,
{
    vstd::arithmetic::div_mod::lemma_basic_div(num as int, den as int);
    vstd::arithmetic::div_mod::lemma_small_mod(num, den);
}

/// Rounding to a whole number does not cross a whole number.
pub proof fn lemma_half_even_bounds(num: nat, den: nat, c: nat)
    requires
        den > 0,
    ensures
        num >= c * den ==> half_even(num, den) >= c,
        num <= c * den ==> half_even(num, den) <= c,
{
    let q: int = (num / den) as int;
    let r: int = (num % den) as int;
    vstd::arithmetic::div_mod::lemma_fundamental_div_mod(num as int, den as int);
    if num >= c * den {
        assert(q >= c) by (nonlinear_arith)
            requires
                num == den * q + r,
                r < den,
                num >= c * den,
                den > 0,
        ;
    }
    if num <= c * den {
        assert(q < c || (q == c && r == 0)) by (nonlinear_arith)
            requires
                num == den * q + r,
                0 <= r,
                num <= c * den,
                den > 0,
        ;
    }
}

/// A whole number is nearest to a quotient where it lies within one half of it.
pub proof fn lemma_half_even_close(num: nat, den: nat)
    requires
        den > 0,
    ensures
        -(den as int) <= 2 * (half_even(num, den) * den - num) <= den,
{
    let q: int = (num / den) as int;
    let r: int = (num % den) as int;
    vstd::arithmetic::div_mod::lemma_fundamental_div_mod(num as int, den as int);
    assert(q * den == num - r) by (nonlinear_arith)
        requires
            num == den * q + r,
    ;
    assert((q + 1) * den == q * den + den) by (nonlinear_arith);
}

/// A magnitude counted in the last of `k` decimal places.
fn count_places(m: u64, k: usize) -> (r: BigNat)
    requires
        m < INFINITY,
        k <= 9,
    ensures
        r@ == half_even((units(m as int) * ten(k as nat)) as nat, pow2(1074)),
{
    let e: u64 = m / EXPONENT;
    let sig: u64 = if e == 0 { m } else { EXPONENT + m % EXPONENT };
    let s: usize = if e == 0 { 0 } else { (e - 1) as usize };
    let mut a: u128 = sig as u128;
    proof {
        lemma_ten(0);
        assert(sig * 1 == sig);
    }
    for i in 0..k
        invariant
            k <= 9,
            sig < 0x20_0000_0000_0000,
            a == sig * ten(i as nat),
            a <= sig * 1_000_000_000,
    {
        proof {
            lemma_ten(i as nat);
            let p = ten(i as nat);
            assert(sig * p * 10 == sig * (10 * p)) by (nonlinear_arith);
            lemma_ten_small((i + 1) as nat);
            assert(sig * (10 * p) <= sig * 1_000_000_000) by (nonlinear_arith)
                requires
                    10 * p <= 1_000_000_000,
                    sig >= 0,
            ;
        }
        a = a * 10;
    }
    let ghost num = (units(m as int) * ten(k as nat)) as nat;
    proof {
        lemma2_to64();
        assert(significand(m as int) == sig && scale(m as int) == s);
        let u: int = sig * pow2(s as nat);
        let t: int = ten(k as nat) as int;
        assert(u * t == a * pow2(s as nat)) by (nonlinear_arith)
            requires
                u == sig * pow2(s as nat),
                a == sig * t,
        ;
        lemma_pow2_pos(s as nat);
        assert(a * pow2(s as nat) >= 0) by (nonlinear_arith);
        assert(num == a as nat * pow2(s as nat));
    }
    if s >= 1074 {
        let mut n: BigNat = BigNat::from_u128(a);
        n.shl(s - 1074);
        proof {
            lemma_pow2_adds((s - 1074) as nat, 1074);
            lemma_pow2_pos(1074);
            let x: int = a * pow2((s - 1074) as nat);
            let y: int = pow2(1074) as int;
            assert(a * pow2(s as nat) == x * y) by (nonlinear_arith)
                requires
                    pow2(s as nat) == pow2((s - 1074) as nat) * y,
                    x == a * pow2((s - 1074) as nat),
            ;
            vstd::arithmetic::div_mod::lemma_fundamental_div_mod_converse(num as int, y, x, 0);
        }
        n
    } else {
        let t: usize = 1074 - s;
        proof {
            lemma_pow2_adds(s as nat, t as nat);
        }
        if t >= 126 {
            proof {
                lemma_pow2_strictly_increases(100, t as nat);
                lemma2_to64_rest();
                lemma_pow2_adds(50, 50);
                lemma_pow2_pos(s as nat);
                let x: int = pow2(s as nat) as int;
                let y: int = pow2(t as nat) as int;
                assert(2 * (a * x) < x * y) by (nonlinear_arith)
                    requires
                        2 * a < y,
                        x > 0,
                ;
                lemma_half_even_small(num, pow2(1074));
            }
            return BigNat::zero();
        }
        let mut p: u128 = 1;
        for i in 0..t
            invariant
                t < 126,
                p == pow2(i as nat),
        {
            proof {
                lemma2_to64();
                lemma_pow2_adds(1, i as nat);
                lemma_pow2_strictly_increases(i as nat, 126);
                lemma2_to64_rest();
                lemma_pow2_adds(63, 63);
            }
            p = p * 2;
        }
        proof {
            lemma_pow2_pos(t as nat);
        }
        let q: u128 = a / p;
        let r: u128 = a % p;
        proof {
            lemma_pow2_pos(s as nat);
            lemma_pow2_strictly_increases(t as nat, 126);
            lemma2_to64_rest();
            lemma_pow2_adds(63, 63);
            assert(pow2(1074) == p as nat * pow2(s as nat)) by (nonlinear_arith)
                requires
                    pow2(1074) == pow2(s as nat) * p,
            ;
            lemma_half_even_scaled(a as nat, p as nat, pow2(s as nat));
        }
        if 2 * r < p || (2 * r == p && q % 2 == 0) {
            BigNat::from_u128(q)
        } else {
            BigNat::from_u128(q + 1)
        }
    }
}

proof fn lemma_ten_small(n: nat)
    requires
        n <= 9,
    ensures
        ten(n) <= 1_000_000_000,
    decreases 9 - n,
{
    lemma_ten(n);
    if n < 9 {
        lemma_ten_small(n + 1);
    } else {
        lemma_ten(0);
        lemma_ten(1);
        lemma_ten(2);
        lemma_ten(3);
        lemma_ten(4);
        lemma_ten(5);
        lemma_ten(6);
        lemma_ten(7);
        lemma_ten(8);
    }
}

fn digit_of(n: u64) -> (c: char)
    requires
        n < 10,
    ensures
        c == digit_char(n as nat),
{
    ('0' as u8 + n as u8) as char
}

/// Appends the characters of `v` from the last to the first.
fn push_reversed(s: &mut String, v: &Vec<char>)
    ensures
        final(s)@ == old(s)@ + v@.reverse(),
{
    let mut i: usize = v.len();
    let ghost start = s@;
    assert(start + v@.skip(i as int).reverse() =~= start);
    while i > 0
        invariant
            i <= v@.len(),
            s@ == start + v@.skip(i as int).reverse(),
        decreases i,
    {
        i = i - 1;
        s.push(v[i]);
        assert(v@.skip(i as int).reverse() =~= v@.skip(i + 1).reverse().push(v@[i as int]));
        assert(s@ =~= start + v@.skip(i as int).reverse());
    }
    assert(v@.skip(0) =~= v@);
}

/// Appends the numeral of `n`, with a point before its last `k` digits.
fn push_pointed(s: &mut String, n: BigNat, k: usize)
    ensures
        final(s)@ == old(s)@ + pointed(n@, k as nat),
{
    let mut n: BigNat = n;
    let ghost start = n@;
    let mut after: Vec<char> = Vec::new();
    proof {
        lemma_ten(0);
        assert(start / ten(0) == start) by {
            assert(start / 1 == start);
        }
        assert(after@.reverse() =~= last_digits(start, 0));
    }
    for i in 0..k
        invariant
            n@ == start / ten(i as nat),
            after@.reverse() == last_digits(start, i as nat),
            after@.len() == i,
    {
        let ghost before = n@;
        let d: u64 = n.div_rem(10);
        after.push(digit_of(d));
        proof {
            vstd::arithmetic::div_mod::lemma_fundamental_div_mod_converse(
                before as int,
                10,
                n@ as int,
                d as int,
            );
            lemma_ten(i as nat);
            vstd::arithmetic::div_mod::lemma_div_denominator(start as int, ten(i as nat) as int, 10);
            lemma_last_digits(start, i as nat);
            assert(after@.reverse() =~= seq![digit_char(before % 10)] + last_digits(
                start,
                i as nat,
            ));
        }
    }
    let ghost high = n@;
    let mut rest: Vec<char> = Vec::new();
    let mut more: bool = true;
    assert(numeral(high) + rest@.reverse() =~= numeral(high));
    while more
        invariant
            more ==> numeral(high) == numeral(n@) + rest@.reverse(),
            !more ==> numeral(high) == rest@.reverse(),
        decreases
            n@ + if more {
                1nat
            } else {
                0nat
            },
    {
        let ghost before = n@;
        let ghost held = rest@;
        let d: u64 = n.div_rem(10);
        rest.push(digit_of(d));
        proof {
            vstd::arithmetic::div_mod::lemma_fundamental_div_mod_converse(
                before as int,
                10,
                n@ as int,
                d as int,
            );
            assert(rest@.reverse() =~= seq![digit_char(d as nat)] + held.reverse());
        }
        if n.is_zero() {
            more = false;
            assert(numeral(before) =~= seq![digit_char(d as nat)]);
        } else {
            assert(numeral(before) =~= numeral(n@).push(digit_char(d as nat)));
            assert(numeral(before) + held.reverse() =~= numeral(n@) + rest@.reverse());
        }
    }
    let ghost head = s@;
    push_reversed(s, &rest);
    if k > 0 {
        s.push('.');
        push_reversed(s, &after);
        assert(s@ =~= head + (numeral(high) + seq!['.'] + last_digits(start, k as nat)));
    }
}

/// The digit before the last `k` digits.
proof fn lemma_last_digits(n: nat, k: nat)
    ensures
        last_digits(n, k + 1) == seq![digit_char((n / ten(k)) % 10)] + last_digits(n, k),
    decreases k,
{
    lemma_ten(0);
    if k == 0 {
        assert(last_digits(n / 10, 0) =~= Seq::<char>::empty());
        assert(n / 1 == n);
        assert(last_digits(n, 1) =~= seq![digit_char(n % 10)] + last_digits(n, 0));
    } else {
        let j: nat = (k - 1) as nat;
        lemma_last_digits(n / 10, j);
        lemma_ten(j);
        vstd::arithmetic::div_mod::lemma_div_denominator(n as int, 10, ten(j) as int);
        assert(last_digits(n, k + 1) =~= seq![digit_char((n / ten(k)) % 10)] + last_digits(n, k));
    }
}

/// The numeral of a number with a fixed count of decimal places.
pub fn write_fixed(v: Double, places: usize, plus: bool) -> (r: String)
    requires
        places <= 9,
    ensures
        r@ == fixed(v, places as nat, plus),
{
    let mut r: String = String::new();
    let m: u64 = v.bits % SIGN;
    if m > INFINITY {
        r.append("NaN");
        assert(r@ =~= fixed(v, places as nat, plus));
        return r;
    }
    if v.bits >= SIGN {
        r.push('-');
    } else if plus {
        r.push('+');
    }
    assert(r@ =~= sign_text(v.negative(), plus));
    if m == INFINITY {
        r.append("inf");
    } else {
        push_pointed(&mut r, count_places(m, places), places);
    }
    r
}

/// The numeral of a whole number.
pub fn write_number(n: u64) -> (r: String)
    ensures
        r@ == numeral(n as nat),
{
    let mut r: String = String::new();
    push_pointed(&mut r, BigNat::from_u128(n as u128), 0);
    assert(r@ =~= numeral(n as nat));
    r
}

/// The numeral of a whole number with its sign, where it is negative.
pub open spec fn signed_numeral(n: int) -> Seq<char> {
    if n < 0 {
        seq!['-'] + numeral((-n) as nat)
    } else {
        numeral(n as nat)
    }
}

/// The whole number that a numeral stands for.
pub open spec fn whole_number(s: Seq<char>) -> Option<int> {
    let t = unsigned(s);
    if t.len() > 0 && all_digits(t) {
        Some(
            if minus(s) {
                -digits_value(t)
            } else {
                digits_value(t) as int
            },
        )
    } else {
        None
    }
}

/// The numeral of a whole number.
pub fn write_i64(n: i64) -> (r: String)
    ensures
        r@ == signed_numeral(n as int),
{
    if n < 0 {
        let size: i128 = -(n as i128);
        let mut r: String = String::new();
        r.push('-');
        r.append(&write_number(size as u64));
        assert(r@ =~= signed_numeral(n as int));
        r
    } else {
        write_number(n as u64)
    }
}

/// The whole number that a numeral stands for, if it has 64 bits.
pub fn read_i64(v: &Vec<char>) -> (r: Option<i64>)
    ensures
        r == match whole_number(v@) {
            Some(n) => if i64::MIN <= n <= i64::MAX {
                Some(n as i64)
            } else {
                None
            },
            None => None,
        },
{
    let t: Vec<char> = without_sign(v);
    if t.len() == 0 || !only_digits(&t) {
        return None;
    }
    let size: i128 = bounded_value(&t);
    let n: i128 = if v[0] == '-' { -size } else { size };
    if -0x8000_0000_0000_0000 <= n && n <= 0x7fff_ffff_ffff_ffff {
        Some(n as i64)
    } else {
        None
    }
}

} // verus!
