//! What is decided about a response, as opposed to computed: which bands shape it, and
//! how much headroom it needs.

use vstd::prelude::*;
use vstd::arithmetic::power2::{lemma2_to64, lemma2_to64_rest, lemma_pow2_adds, lemma_pow2_pos, lemma_pow2_unfold, pow2};

use crate::arith::lemma_rounded;
use crate::double::{double, lemma_order, lemma_units_increase, units, Double, EXPONENT, INFINITY};
use crate::profile::{lemma_bounds, pregain, within, FilterBand, HALF, ONE, TWENTY, TWENTY_THOUSAND};
use crate::rounding::{lemma_nearest_exact, lemma_nearest_exists, lemma_nearest_ordered, lemma_units_zero, nearest};

verus! {

/// 0.000001 dB: a band with less gain than that shapes nothing.
pub const UNITY: u64 = 0x3eb0_c6f7_a0b5_ed8d;

/// The bands that shape a response.
pub open spec fn shaping(bands: Seq<FilterBand>) -> Seq<FilterBand>
    decreases bands.len(),
{
    if bands.len() == 0 {
        seq![]
    } else {
        let before = shaping(bands.drop_last());
        if double(UNITY).at_most(bands.last().gain.absolute()) {
            before.push(bands.last())
        } else {
            before
        }
    }
}

/// The bands that shape a response; those of unity gain are left out.
pub fn shaping_bands(bands: &Vec<FilterBand>) -> (r: Vec<FilterBand>)
    ensures
        r@ == shaping(bands@),
{
    let mut r: Vec<FilterBand> = Vec::new();
    assert(r@ =~= shaping(bands@.take(0)));
    for i in 0..bands.len()
        invariant
            r@ == shaping(bands@.take(i as int)),
    {
        assert(bands@.take(i + 1).drop_last() =~= bands@.take(i as int));
        if (Double { bits: UNITY }).le(&bands[i].gain.abs()) {
            r.push(bands[i]);
        }
    }
    assert(bands@.take(bands@.len() as int) =~= bands@);
    r
}

/// The highest boost among some levels in dB; zero where none is positive. Anything
/// that is not a number does not count.
pub open spec fn highest_boost(levels: Seq<Double>) -> Double
    decreases levels.len(),
{
    if levels.len() == 0 {
        double(0)
    } else {
        highest_boost(levels.drop_last()).larger(levels.last())
    }
}

/// The highest boost of a response, given by its levels in dB: what headroom has to make
/// up for. Never negative.
pub fn max_positive_gain_db(levels: &Vec<Double>) -> (r: Double)
    ensures
        r == highest_boost(levels@),
        double(0).at_most(r),
        forall|i: int|
            0 <= i < levels@.len() && !(#[trigger] levels@[i]).nan() ==> levels@[i].at_most(r),
{
    let mut r: Double = Double { bits: 0 };
    assert(r == highest_boost(levels@.take(0)));
    for i in 0..levels.len()
        invariant
            r == highest_boost(levels@.take(i as int)),
            double(0).at_most(r),
            forall|j: int|
                0 <= j < i && !(#[trigger] levels@[j]).nan() ==> levels@[j].at_most(r),
    {
        assert(levels@.take(i + 1).drop_last() =~= levels@.take(i as int));
        r = r.max(levels[i]);
    }
    assert(levels@.take(levels@.len() as int) =~= levels@);
    r
}

/// No level lies above the highest boost.
proof fn lemma_boost_bounds(levels: Seq<Double>, i: int)
    requires
        0 <= i < levels.len(),
        !levels[i].nan(),
    ensures
        levels[i].at_most(highest_boost(levels)),
    decreases levels.len(),
{
    if i < levels.len() - 1 {
        assert(levels.drop_last()[i] == levels[i]);
        lemma_boost_bounds(levels.drop_last(), i);
    } else {
        lemma_boost_is_number(levels.drop_last());
    }
}

proof fn lemma_boost_is_number(levels: Seq<Double>)
    ensures
        double(0).at_most(highest_boost(levels)),
    decreases levels.len(),
{
    if levels.len() > 0 {
        lemma_boost_is_number(levels.drop_last());
    }
}

/// With headroom no boost clips: the broadband gain takes away as much as the response
/// adds at its highest level, and so no level of the response ends up above zero, whatever
/// the preamp of the profile.
pub proof fn law_headroom_prevents_clipping(preamp: Double, levels: Seq<Double>, i: int)
    requires
        0 <= i < levels.len(),
        levels[i].finite(),
        highest_boost(levels).finite(),
    ensures
        pregain(preamp, true, highest_boost(levels)).value() == -highest_boost(levels).value(),
        levels[i].value() + pregain(preamp, true, highest_boost(levels)).value() <= 0,
{
    let peak = highest_boost(levels);
    lemma_boost_bounds(levels, i);
    lemma_order(levels[i], peak);
    assert(peak.negated().magnitude() == peak.magnitude());
}

/// 0.49, the part of the sample rate up to which a corner frequency may go.
pub const CORNER_LIMIT: u64 = 0x3fdf_5c28_f5c2_8f5c;

/// The corner frequency of a filter at a sample rate.
pub open spec fn corner(frequency: Double, rate: Double) -> Double {
    frequency.smaller(double(CORNER_LIMIT).product(rate).larger(double(ONE))).larger(double(ONE))
}

/// The corner frequency that a filter is made for: that of its band, but kept below half
/// of the sample rate, beyond which the filter would not be stable, and not below 1 Hz.
pub fn corner_frequency(frequency: Double, rate: Double) -> (r: Double)
    ensures
        r == corner(frequency, rate),
        double(ONE).at_most(r),
{
    let one: Double = Double { bits: ONE };
    let limit: Double = (Double { bits: CORNER_LIMIT }).times(rate).max(one);
    frequency.min(limit).max(one)
}

/// The corner frequency of a valid band lies below half of the sample rate, as long as 0.49
/// of that is at least 1 Hz.
pub proof fn law_corner_is_stable(frequency: Double, rate: Double)
    requires
        within(frequency, TWENTY, TWENTY_THOUSAND),
        rate.finite(),
        !rate.negative(),
        double(ONE).at_most(double(CORNER_LIMIT).product(rate)),
    ensures
        corner(frequency, rate).less(double(HALF).product(rate)),
{
    let u: int = units(rate.magnitude() as int);
    let p = pow2(1074);
    lemma_pow2_pos(1074);
    lemma_units_zero();
    if rate.magnitude() > 0 {
        lemma_units_increase(0, rate.magnitude() as int);
    }
    lemma_units_increase(0, CORNER_LIMIT as int);
    let x: int = units(CORNER_LIMIT as int);
    let y: int = units(HALF as int);
    assert(0 <= x * u) by (nonlinear_arith)
        requires
            0 <= x,
            u >= 0,
    ;
    let m = lemma_nearest_exists((x * u) as nat, p);
    lemma_rounded((x * u) as nat, p, m);
    lemma_rate_is_normal(rate, m);
    let n: u64 = (rate.magnitude() - EXPONENT) as u64;
    lemma_halved(rate.magnitude());
    lemma_half();
    let h: int = units(n as int);
    assert(y * u == h * p) by (nonlinear_arith)
        requires
            u == 2 * h,
            p == 2 * y,
    ;
    lemma_nearest_exact(n, p);
    lemma_units_increase(0, n as int);
    assert(h * p >= 0) by (nonlinear_arith)
        requires
            h >= 0,
            p > 0,
    ;
    lemma_rounded((y * u) as nat, p, n);
    // The double below half of the rate is still above 0.49 of it.
    let g: int = units(n - 1);
    lemma_limit();
    assert(x * u <= g * p) by (nonlinear_arith)
        requires
            u == 2 * h,
            100 * x <= 49 * p,
            49 * h <= 50 * g,
            h >= 0,
            p > 0,
            x >= 0,
    ;
    lemma_nearest_exact((n - 1) as u64, p);
    lemma_nearest_ordered((x * u) as nat, (g * p) as nat, p, m, (n - 1) as u64);
}

/// 0.5 in units.
pub(crate) proof fn lemma_half()
    ensures
        pow2(1074) == 2 * units(HALF as int),
{
    lemma2_to64_rest();
    lemma_pow2_adds(1021, 52);
    lemma_pow2_adds(1073, 1);
    assert(HALF as int / EXPONENT as int == 1022);
    assert(HALF as int % EXPONENT as int == 0);
    assert(units(HALF as int) == EXPONENT * pow2(1021));
    lemma2_to64();
    assert(pow2(52) == EXPONENT);
    assert(pow2(1073) == EXPONENT * pow2(1021)) by (nonlinear_arith)
        requires
            pow2(1073) == pow2(1021) * pow2(52),
            pow2(52) == EXPONENT,
    ;
}

/// [`CORNER_LIMIT`] is no more than 0.49.
proof fn lemma_limit()
    ensures
        100 * units(CORNER_LIMIT as int) <= 49 * pow2(1074),
{
    lemma2_to64();
    lemma2_to64_rest();
    lemma_pow2_adds(1020, 54);
    lemma_pow2_pos(1020);
    assert(CORNER_LIMIT as int / EXPONENT as int == 1021);
    let s: int = EXPONENT + CORNER_LIMIT as int % EXPONENT as int;
    assert(100 * s <= 49 * 0x40_0000_0000_0000);
    assert(pow2(54) == 0x40_0000_0000_0000);
    let q = pow2(1020);
    assert(100 * (s * q) <= 49 * (q * 0x40_0000_0000_0000)) by (nonlinear_arith)
        requires
            100 * s <= 49 * 0x40_0000_0000_0000,
            q > 0,
    ;
}

/// A number of which 0.49 is at least 1 is at least 1.
proof fn lemma_rate_is_normal(rate: Double, m: u64)
    requires
        rate.finite(),
        !rate.negative(),
        nearest(
            (units(CORNER_LIMIT as int) * units(rate.magnitude() as int)) as nat,
            pow2(1074),
            m,
        ),
        ONE <= m,
    ensures
        rate.magnitude() >= ONE,
{
    if rate.magnitude() < ONE {
        let p = pow2(1074);
        let u: int = units(rate.magnitude() as int);
        let x: int = units(CORNER_LIMIT as int);
        lemma_pow2_pos(1074);
        lemma_units_zero();
        if rate.magnitude() > 0 {
            lemma_units_increase(0, rate.magnitude() as int);
        }
        lemma_units_increase(0, CORNER_LIMIT as int);
        lemma_units_increase(rate.magnitude() as int, ONE as int);
        lemma_bounds();
        assert(0 <= x * u <= x * p) by (nonlinear_arith)
            requires
                0 <= u <= p,
                x >= 0,
        ;
        lemma_nearest_exact(CORNER_LIMIT, p);
        lemma_nearest_ordered((x * u) as nat, (x * p) as nat, p, m, CORNER_LIMIT);
    }
}

/// Half of a number of at least 1 has the same significand and the exponent before, and the
/// number before that half differs from it by less than a fiftieth.
proof fn lemma_halved(m: u64)
    requires
        ONE <= m < INFINITY,
    ensures
        units(m as int) == 2 * units(m - EXPONENT),
        49 * units(m - EXPONENT) <= 50 * units(m - EXPONENT - 1),
{
    let n: int = m - EXPONENT;
    let e: int = m as int / EXPONENT as int;
    let f: int = m as int % EXPONENT as int;
    assert(e >= 1023) by (nonlinear_arith)
        requires
            e == m as int / EXPONENT as int,
            m >= ONE,
            ONE == 1023 * EXPONENT,
    ;
    assert(n / EXPONENT as int == e - 1 && n % EXPONENT as int == f) by (nonlinear_arith)
        requires
            n == m - EXPONENT,
            e == m as int / EXPONENT as int,
            f == m as int % EXPONENT as int,
            EXPONENT == 0x10_0000_0000_0000,
    ;
    let q = pow2((e - 2) as nat);
    lemma_pow2_pos((e - 2) as nat);
    lemma_pow2_unfold((e - 1) as nat);
    let s: int = EXPONENT + f;
    assert(units(n) == s * q);
    assert(units(m as int) == s * (2 * q));
    assert(s * (2 * q) == 2 * (s * q)) by (nonlinear_arith);
    if f > 0 {
        assert((n - 1) / EXPONENT as int == e - 1 && (n - 1) % EXPONENT as int == f - 1) by (nonlinear_arith)
            requires
                n / EXPONENT as int == e - 1,
                n % EXPONENT as int == f,
                f > 0,
                EXPONENT == 0x10_0000_0000_0000,
        ;
        assert(units(n - 1) == (s - 1) * q);
        assert(49 * (s * q) <= 50 * ((s - 1) * q)) by (nonlinear_arith)
            requires
                s >= 50,
                q > 0,
        ;
    } else {
        assert((n - 1) / EXPONENT as int == e - 2 && (n - 1) % EXPONENT as int == EXPONENT - 1) by (nonlinear_arith)
            requires
                n / EXPONENT as int == e - 1,
                n % EXPONENT as int == 0,
                EXPONENT == 0x10_0000_0000_0000,
        ;
        let w = pow2((e - 3) as nat);
        lemma_pow2_pos((e - 3) as nat);
        lemma_pow2_unfold((e - 2) as nat);
        assert(units(n - 1) == (2 * EXPONENT - 1) * w);
        assert(49 * (EXPONENT * (2 * w)) <= 50 * ((2 * EXPONENT - 1) * w)) by (nonlinear_arith)
            requires
                w > 0,
                EXPONENT == 0x10_0000_0000_0000,
        ;
    }
}

} // verus!
