//! The tone layer: what the correction amount, the trims and the headroom make of a profile.

use vstd::prelude::*;
use vstd::arithmetic::power2::{lemma2_to64, lemma2_to64_rest, lemma_pow2_adds, lemma_pow2_pos, lemma_pow2_unfold, pow2};

use crate::arith::lemma_rounded;
use crate::double::{
    double, lemma_order, lemma_units_increase, units, whole, Double, EXPONENT, INFINITY,
};
use crate::dsp::lemma_half;
use crate::profile::{
    effective, lemma_bounds, neutral_tone, pregain, sane, tone_shelves, wet_amount, BandType, FilterBand,
    ToneSettings, BASS_FREQ, BASS_Q, GAIN_MAX, GAIN_MIN, HALF, ONE,
};
use crate::rounding::{lemma_nearest_exact, lemma_nearest_exists, lemma_nearest_ordered, lemma_units_zero, nearest};

verus! {

/// The distance of two numbers.
pub open spec fn apart(a: int, b: int) -> int {
    if a < b {
        b - a
    } else {
        a - b
    }
}

/// Rounding takes the closest number there is: no other finite number lies closer to the
/// quotient.
pub proof fn law_nearest_is_closest(num: nat, den: nat, m: u64, other: u64)
    requires
        den > 0,
        nearest(num, den, m),
        m < INFINITY,
        other < INFINITY,
    ensures
        apart(units(m as int) * den, num as int) <= apart(units(other as int) * den, num as int),
{
    reveal(nearest);
    let u: int = units(m as int) * den;
    let v: int = units(other as int) * den;
    if other < m {
        let below: int = units(m - 1) * den;
        assert((units(m - 1) + units(m as int)) * den == below + u) by (nonlinear_arith)
            requires
                below == units(m - 1) * den,
                u == units(m as int) * den,
        ;
        if other < m - 1 {
            lemma_units_increase(other as int, m - 1);
        }
        lemma_units_increase(m - 1, m as int);
        assert(v <= below <= u) by (nonlinear_arith)
            requires
                v == units(other as int) * den,
                below == units(m - 1) * den,
                u == units(m as int) * den,
                units(other as int) <= units(m - 1) <= units(m as int),
                den > 0,
        ;
    } else if other > m {
        let above: int = units(m + 1) * den;
        assert((units(m as int) + units(m + 1)) * den == u + above) by (nonlinear_arith)
            requires
                above == units(m + 1) * den,
                u == units(m as int) * den,
        ;
        if other > m + 1 {
            lemma_units_increase(m + 1, other as int);
        }
        lemma_units_increase(m as int, m + 1);
        assert(u <= above <= v) by (nonlinear_arith)
            requires
                v == units(other as int) * den,
                above == units(m + 1) * den,
                u == units(m as int) * den,
                units(m as int) <= units(m + 1) <= units(other as int),
                den > 0,
        ;
    }
}

pub proof fn lemma_units_positive(m: u64)
    ensures
        units(m as int) >= 0,
{
    lemma_units_zero();
    if m > 0 {
        lemma_units_increase(0, m as int);
    }
}

/// A correction amount from none to all of it is used as it is.
proof fn lemma_amount(wet: Double)
    requires
        wet.finite(),
        0 <= wet.value() <= whole(1),
    ensures
        wet.clamped(double(0), double(ONE)) == wet,
{
    lemma_bounds();
    lemma_order(wet, double(0));
    lemma_order(double(0), wet);
    lemma_order(wet, double(ONE));
    lemma_order(double(ONE), wet);
}

/// The product of two numbers is the number nearest to it.
pub proof fn lemma_product(a: Double, b: Double)
    requires
        a.finite(),
        b.finite(),
    ensures
        nearest(
            (units(a.magnitude() as int) * units(b.magnitude() as int)) as nat,
            pow2(1074),
            a.product(b).magnitude(),
        ),
        a.product(b).negative() == (a.negative() != b.negative()),
{
    lemma_units_positive(a.magnitude());
    lemma_units_positive(b.magnitude());
    lemma_pow2_pos(1074);
    let x: int = units(a.magnitude() as int);
    let y: int = units(b.magnitude() as int);
    assert(0 <= x * y) by (nonlinear_arith)
        requires
            0 <= x,
            0 <= y,
    ;
    let m = lemma_nearest_exists((x * y) as nat, pow2(1074));
    lemma_rounded((x * y) as nat, pow2(1074), m);
    assert(m <= INFINITY) by {
        reveal(nearest);
    }
}

/// Every correction band is in effect at its own place, whatever its type: with its type, its
/// frequency and its quality factor, and with the gain that is nearest to the product of its
/// gain and the correction amount.
pub proof fn law_amount_scales_every_band(bands: Seq<FilterBand>, tone: ToneSettings, i: int)
    requires
        0 <= i < bands.len(),
        bands[i].gain.finite(),
        tone.wet.finite(),
        0 <= tone.wet.value() <= whole(1),
    ensures
        effective(bands, tone).len() == bands.len() + 3,
        effective(bands, tone)[i].kind == bands[i].kind,
        effective(bands, tone)[i].frequency == bands[i].frequency,
        effective(bands, tone)[i].q == bands[i].q,
        nearest(
            (units(bands[i].gain.magnitude() as int) * units(tone.wet.magnitude() as int)) as nat,
            pow2(1074),
            effective(bands, tone)[i].gain.magnitude(),
        ),
        effective(bands, tone)[i].gain.negative() == (bands[i].gain.negative()
            != tone.wet.negative()),
{
    lemma_amount(tone.wet);
    lemma_product(bands[i].gain, tone.wet);
}

/// With all of the correction every gain is what it is in the profile.
pub proof fn law_full_amount_keeps_gains(bands: Seq<FilterBand>, tone: ToneSettings, i: int)
    requires
        0 <= i < bands.len(),
        bands[i].gain.finite(),
        tone.wet.finite(),
        tone.wet.value() >= whole(1),
    ensures
        effective(bands, tone)[i] == bands[i],
{
    lemma_bounds();
    lemma_order(tone.wet, double(0));
    lemma_order(double(ONE), tone.wet);
    lemma_order(tone.wet, double(ONE));
    let wet = tone.wet.clamped(double(0), double(ONE));
    lemma_order(wet, double(ONE));
    lemma_order(double(ONE), wet);
    assert(wet.rank() == double(ONE).rank());
    let g = bands[i].gain;
    let p = pow2(1074);
    lemma_pow2_pos(1074);
    lemma_product(g, wet);
    lemma_units_positive(g.magnitude());
    lemma_nearest_exact(g.magnitude(), p);
    assert(units(ONE as int) == p) by {
        assert(whole(1) == p) by (nonlinear_arith)
            requires
                whole(1) == 1 * p,
        ;
    }
    lemma_rounded((units(g.magnitude() as int) * p) as nat, p, g.magnitude());
    lemma_rounded((units(g.magnitude() as int) * p) as nat, p, g.product(wet).magnitude());
}

/// Without any of it every gain is zero.
pub proof fn law_no_amount_silences_gains(bands: Seq<FilterBand>, tone: ToneSettings, i: int)
    requires
        0 <= i < bands.len(),
        bands[i].gain.finite(),
        tone.wet.finite(),
        tone.wet.value() <= 0,
    ensures
        effective(bands, tone)[i].gain.value() == 0,
{
    lemma_bounds();
    lemma_order(tone.wet, double(0));
    lemma_order(double(0), tone.wet);
    let wet = tone.wet.clamped(double(0), double(ONE));
    assert(wet.magnitude() == 0);
    let g = bands[i].gain;
    lemma_product(g, wet);
    lemma_units_zero();
    lemma_pow2_pos(1074);
    let x: int = units(g.magnitude() as int);
    assert(x * 0 == 0 * pow2(1074));
    lemma_nearest_exact(0, pow2(1074));
    lemma_rounded(0, pow2(1074), 0);
    lemma_rounded(0, pow2(1074), g.product(wet).magnitude());
}

/// The greater the correction amount, the greater the size of every gain, or it stays as it
/// is.
pub proof fn law_more_amount_more_gain(
    bands: Seq<FilterBand>,
    less: ToneSettings,
    more: ToneSettings,
    i: int,
)
    requires
        0 <= i < bands.len(),
        bands[i].gain.finite(),
        less.wet.finite(),
        more.wet.finite(),
        0 <= less.wet.value() <= more.wet.value() <= whole(1),
    ensures
        effective(bands, less)[i].gain.magnitude() <= effective(bands, more)[i].gain.magnitude(),
{
    lemma_amount(less.wet);
    lemma_amount(more.wet);
    lemma_product(bands[i].gain, less.wet);
    lemma_product(bands[i].gain, more.wet);
    lemma_pow2_pos(1074);
    lemma_units_positive(bands[i].gain.magnitude());
    lemma_units_positive(less.wet.magnitude());
    lemma_units_positive(more.wet.magnitude());
    let x: int = units(bands[i].gain.magnitude() as int);
    let a: int = units(less.wet.magnitude() as int);
    let b: int = units(more.wet.magnitude() as int);
    assert(a <= b);
    assert(0 <= x * a <= x * b) by (nonlinear_arith)
        requires
            0 <= a <= b,
            0 <= x,
    ;
    lemma_nearest_ordered(
        (x * a) as nat,
        (x * b) as nat,
        pow2(1074),
        bands[i].gain.product(less.wet).magnitude(),
        bands[i].gain.product(more.wet).magnitude(),
    );
}

/// Half of a number that is not too small has the exponent before.
proof fn lemma_halved(m: u64)
    requires
        2 * EXPONENT <= m < INFINITY,
    ensures
        units(m as int) == 2 * units(m - EXPONENT),
{
    let n: int = m - EXPONENT;
    let e: int = m as int / EXPONENT as int;
    let f: int = m as int % EXPONENT as int;
    assert(e >= 2) by (nonlinear_arith)
        requires
            e == m as int / EXPONENT as int,
            m >= 2 * EXPONENT,
            EXPONENT == 0x10_0000_0000_0000,
    ;
    assert(n / EXPONENT as int == e - 1 && n % EXPONENT as int == f) by (nonlinear_arith)
        requires
            n == m - EXPONENT,
            e == m as int / EXPONENT as int,
            f == m as int % EXPONENT as int,
            EXPONENT == 0x10_0000_0000_0000,
    ;
    let q = pow2((e - 2) as nat);
    lemma_pow2_unfold((e - 1) as nat);
    let s: int = EXPONENT + f;
    assert(units(n) == s * q);
    assert(units(m as int) == s * (2 * q));
    assert(s * (2 * q) == 2 * (s * q)) by (nonlinear_arith);
}

/// The smallest numbers lie one unit apart.
proof fn lemma_small(m: int)
    requires
        0 <= m <= 2 * EXPONENT,
    ensures
        units(m) == m,
{
    lemma2_to64();
    if m < EXPONENT {
        assert(m / EXPONENT as int == 0) by (nonlinear_arith)
            requires
                0 <= m < EXPONENT,
        ;
        assert(units(m) == m * pow2(0));
    } else if m < 2 * EXPONENT {
        assert(m / EXPONENT as int == 1 && m % EXPONENT as int == m - EXPONENT) by (nonlinear_arith)
            requires
                EXPONENT <= m < 2 * EXPONENT,
        ;
        assert(units(m) == m * pow2(0));
    } else {
        assert(m / EXPONENT as int == 2 && m % EXPONENT as int == 0) by (nonlinear_arith)
            requires
                m == 2 * EXPONENT,
        ;
        assert(units(m) == EXPONENT * pow2(1));
    }
}

/// At one half every gain is halved, whatever the type of its band. The doubled result is the
/// gain itself, but for the smallest numbers there are: there it may differ by one unit of
/// 2^-1074.
pub proof fn law_half_amount_halves(bands: Seq<FilterBand>, tone: ToneSettings, i: int)
    requires
        0 <= i < bands.len(),
        bands[i].gain.finite(),
        tone.wet == double(HALF),
    ensures
        apart(2 * effective(bands, tone)[i].gain.value(), bands[i].gain.value()) <= 1,
        bands[i].gain.magnitude() >= 2 * EXPONENT ==> 2 * effective(bands, tone)[i].gain.value()
            == bands[i].gain.value(),
{
    let g = bands[i].gain;
    let p = pow2(1074);
    lemma_pow2_pos(1074);
    lemma_half();
    assert(whole(1) == p) by (nonlinear_arith)
        requires
            whole(1) == 1 * p,
    ;
    lemma_amount(tone.wet);
    lemma_product(g, tone.wet);
    let y: int = units(HALF as int);
    let u: int = units(g.magnitude() as int);
    lemma_units_positive(g.magnitude());
    let m = g.product(tone.wet).magnitude();
    if g.magnitude() >= 2 * EXPONENT {
        let n: u64 = (g.magnitude() - EXPONENT) as u64;
        lemma_halved(g.magnitude());
        let h: int = units(n as int);
        assert(u * y == h * p) by (nonlinear_arith)
            requires
                u == 2 * h,
                p == 2 * y,
        ;
        lemma_nearest_exact(n, p);
        lemma_rounded((u * y) as nat, p, n);
        lemma_rounded((u * y) as nat, p, m);
    } else {
        lemma_small(g.magnitude() as int);
        let n: u64 = (g.magnitude() / 2) as u64;
        lemma_small(n as int);
        lemma_small(n + 1);
        // Half of the gain lies between two neighbours.
        let a: nat = (n * p) as nat;
        let b: nat = ((n + 1) * p) as nat;
        assert(a <= u * y <= b) by (nonlinear_arith)
            requires
                a == n * p,
                b == (n + 1) * p,
                p == 2 * y,
                2 * n <= u <= 2 * n + 1,
                y >= 0,
        ;
        lemma_nearest_exact(n, p);
        lemma_nearest_exact((n + 1) as u64, p);
        lemma_nearest_ordered(a, (u * y) as nat, p, n, m);
        lemma_nearest_ordered((u * y) as nat, b, p, m, (n + 1) as u64);
        if u == 2 * n {
            assert(u * y == n * p) by (nonlinear_arith)
                requires
                    u == 2 * n,
                    p == 2 * y,
            ;
            lemma_rounded((u * y) as nat, p, n);
            lemma_rounded((u * y) as nat, p, m);
        }
    }
}

/// An amount out of range counts as the nearer end of the range.
pub proof fn law_amount_is_bounded(bands: Seq<FilterBand>, tone: ToneSettings)
    requires
        tone.wet.finite(),
    ensures
        tone.wet.value() > whole(1) ==> effective(bands, tone) == effective(
            bands,
            ToneSettings { wet: double(ONE), ..tone },
        ),
        tone.wet.value() < 0 ==> effective(bands, tone) == effective(
            bands,
            ToneSettings { wet: double(0), ..tone },
        ),
{
    lemma_bounds();
    lemma_order(tone.wet, double(0));
    lemma_order(double(ONE), tone.wet);
    let a = ToneSettings { wet: double(ONE), ..tone };
    let b = ToneSettings { wet: double(0), ..tone };
    if tone.wet.value() > whole(1) {
        assert(wet_amount(tone) == wet_amount(a));
        assert(effective(bands, tone) =~= effective(bands, a));
    }
    if tone.wet.value() < 0 {
        assert(wet_amount(tone) == wet_amount(b));
        assert(effective(bands, tone) =~= effective(bands, b));
    }
}

/// Behind the correction bands come the trims, whatever the profile and the correction amount:
/// a low shelf at 105 Hz with the bass, and a low and a high shelf at 1 kHz with opposite
/// gains, the high one with the tilt.
pub proof fn law_trims_follow(bands: Seq<FilterBand>, tone: ToneSettings)
    requires
        tone.bass.finite(),
        tone.tilt.finite(),
        whole(-24) <= tone.bass.value() <= whole(24),
        whole(-24) <= tone.tilt.value() <= whole(24),
    ensures
        ({
            let e = effective(bands, tone);
            let n = bands.len() as int;
            &&& e.len() == n + 3
            &&& e[n].kind == BandType::LowShelf
            &&& e[n].frequency.value() == whole(105)
            &&& e[n].gain.value() == tone.bass.value()
            &&& nearest(7 * pow2(1074), 10, e[n].q.magnitude()) && !e[n].q.negative()
            &&& e[n + 1].kind == BandType::LowShelf
            &&& e[n + 1].frequency.value() == whole(1000)
            &&& e[n + 1].gain.value() == -tone.tilt.value()
            &&& 2 * e[n + 1].q.value() == whole(1)
            &&& e[n + 2].kind == BandType::HighShelf
            &&& e[n + 2].frequency.value() == whole(1000)
            &&& e[n + 2].gain.value() == tone.tilt.value()
            &&& 2 * e[n + 2].q.value() == whole(1)
        }),
{
    let e = effective(bands, tone);
    let n = bands.len() as int;
    let s = tone_shelves(tone);
    assert(e[n] == s[0]);
    assert(e[n + 1] == s[1]);
    assert(e[n + 2] == s[2]);
    lemma_bounds();
    lemma_trim(tone.bass);
    lemma_trim(tone.tilt);
    lemma_trim_negated(tone.tilt);
    lemma_half();
    lemma_bass_frequency();
    lemma_bass_q();
    assert(whole(1) == pow2(1074)) by (nonlinear_arith)
        requires
            whole(1) == 1 * pow2(1074),
    ;
}

proof fn lemma_trim(v: Double)
    requires
        v.finite(),
        whole(-24) <= v.value() <= whole(24),
    ensures
        sane(v, 0, GAIN_MIN, GAIN_MAX) == v,
{
    lemma_bounds();
    lemma_order(v, double(GAIN_MIN));
    lemma_order(double(GAIN_MAX), v);
}

proof fn lemma_trim_negated(v: Double)
    requires
        v.finite(),
        whole(-24) <= v.value() <= whole(24),
    ensures
        sane(v.negated(), 0, GAIN_MIN, GAIN_MAX).value() == -v.value(),
{
    let w = v.negated();
    assert(w.magnitude() == v.magnitude());
    assert(w.value() == -v.value());
    assert(whole(-24) == -whole(24)) by (nonlinear_arith);
    lemma_trim(w);
}

proof fn lemma_bass_frequency()
    ensures
        double(BASS_FREQ).value() == whole(105),
{
    lemma2_to64();
    lemma2_to64_rest();
    assert(BASS_FREQ as int / EXPONENT as int == 1029);
    assert(BASS_FREQ as int % EXPONENT as int == 0xa_4000_0000_0000);
    assert(units(BASS_FREQ as int) == 0x1a_4000_0000_0000 * pow2(1028));
    lemma_pow2_adds(1028, 46);
    assert(pow2(46) == 0x4000_0000_0000);
    let q = pow2(1028);
    assert(0x1a_4000_0000_0000 * q == 105 * (q * 0x4000_0000_0000)) by (nonlinear_arith);
}

proof fn lemma_bass_q()
    ensures
        nearest(7 * pow2(1074), 10, BASS_Q),
{
    reveal(nearest);
    lemma2_to64();
    lemma2_to64_rest();
    let q = pow2(1021);
    lemma_pow2_pos(1021);
    lemma_pow2_adds(1021, 53);
    assert(pow2(53) == 0x20_0000_0000_0000);
    let b: int = BASS_Q as int;
    assert(b / EXPONENT as int == 1022);
    assert((b - 1) / EXPONENT as int == 1022);
    assert((b + 1) / EXPONENT as int == 1022);
    let s: int = EXPONENT + b % EXPONENT as int;
    assert(s == 0x16_6666_6666_6666);
    assert(units(b) == s * q);
    assert(units(b - 1) == (s - 1) * q);
    assert(units(b + 1) == (s + 1) * q);
    let p = pow2(1074);
    assert(p == q * 0x20_0000_0000_0000);
    assert(((s - 1) * q + s * q) * 10 < 2 * (7 * p)) by (nonlinear_arith)
        requires
            p == q * 0x20_0000_0000_0000,
            s == 0x16_6666_6666_6666,
            q > 0,
    ;
    assert(2 * (7 * p) < (s * q + (s + 1) * q) * 10) by (nonlinear_arith)
        requires
            p == q * 0x20_0000_0000_0000,
            s == 0x16_6666_6666_6666,
            q > 0,
    ;
}

/// Without headroom the broadband gain is the preamp where that attenuates, and none where it
/// would boost; the response makes no difference. With it the preamp makes none, and what the
/// response adds at most is taken away.
pub proof fn law_broadband_gain(preamp: Double, peak: Double)
    requires
        preamp.finite(),
        peak.finite(),
    ensures
        preamp.value() <= 0 ==> pregain(preamp, false, peak).value() == preamp.value(),
        preamp.value() > 0 ==> pregain(preamp, false, peak).value() == 0,
        pregain(preamp, true, peak).value() == -peak.value(),
{
    lemma_bounds();
    lemma_order(double(0), preamp);
    lemma_order(preamp, double(0));
    assert(peak.negated().magnitude() == peak.magnitude());
}

/// The tone settings that a new user has leave a profile as it is: all of the correction, no
/// trims, and headroom.
pub proof fn law_neutral_tone(bands: Seq<FilterBand>, i: int)
    requires
        0 <= i < bands.len(),
        bands[i].gain.finite(),
    ensures
        ({
            let e = effective(bands, neutral_tone());
            let n = bands.len() as int;
            &&& e[i] == bands[i]
            &&& e[n].gain.value() == 0
            &&& e[n + 1].gain.value() == 0
            &&& e[n + 2].gain.value() == 0
            &&& neutral_tone().headroom
        }),
{
    lemma_bounds();
    lemma_pow2_pos(1074);
    assert(whole(-24) < 0 < whole(24));
    law_full_amount_keeps_gains(bands, neutral_tone(), i);
    law_trims_follow(bands, neutral_tone());
}

} // verus!
