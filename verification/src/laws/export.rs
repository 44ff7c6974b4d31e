//! Writing the ParametricEQ text: which lines there are, and how close they come to the profile.

use vstd::prelude::*;
use vstd::arithmetic::power2::{lemma2_to64, lemma2_to64_rest, lemma_pow2_adds, lemma_pow2_pos, pow2};

use crate::apo::processor::{active, INAUDIBLE};
use crate::decimal::{digit, fixed, in_places, last_digits, lemma_ten, numeral, ten};
use crate::double::{double, units, Double, EXPONENT};
use crate::dsp::{highest_boost, shaping, UNITY};
use crate::parametric_eq::{
    audible, band_lines, band_words, exported, imported, preamp_words, rendered, NEAR_ZERO,
};
use crate::profile::{effective, pregain, BandType, FilterBand, ProfileView, ToneSettings};
use crate::rounding::nearest;
use crate::round_trip::{
    law_export_reads_back, law_fixed_reads_back, law_reread_close, lemma_last_digits_value, lemma_lines_document,
    lemma_numeral, lemma_spaced_unbroken, reread, unbroken,
};
use crate::text::{lines, one_line, spaced, white};

verus! {

/// `v` is written as `written`: the double nearest to the decimal number with `k` places that is
/// nearest to `v`, with the sign of `v`.
pub open spec fn close(v: Double, written: Double, k: nat) -> bool {
    &&& written.negative() == v.negative()
    &&& exists|n: nat|
        {
            &&& -(pow2(1074) as int) <= 2 * (n * pow2(1074) - units(v.magnitude() as int) * ten(k))
            &&& 2 * (n * pow2(1074) - units(v.magnitude() as int) * ten(k)) <= pow2(1074)
            &&& #[trigger] nearest(n * pow2(1074), ten(k), written.magnitude())
        }
}

proof fn lemma_close(v: Double, k: nat)
    requires
        v.finite(),
    ensures
        close(v, reread(v, k), k),
{
    law_reread_close(v, k);
}

/// What is exported comes back on import, band for band and in order: each with its type, its
/// frequency to the nearest Hz, its gain to a tenth of a dB and its quality factor to a
/// hundredth; and so does the preamp, to a tenth of a dB.
pub proof fn law_export_is_close(p: ProfileView, name: Seq<char>, i: int)
    requires
        p.valid(),
        0 <= i < p.bands.len(),
    ensures
        ({
            let back = imported(exported(p), name);
            &&& back.bands.len() == p.bands.len()
            &&& back.bands[i].kind == p.bands[i].kind
            &&& close(p.bands[i].frequency, back.bands[i].frequency, 0)
            &&& close(p.bands[i].gain, back.bands[i].gain, 1)
            &&& close(p.bands[i].q, back.bands[i].q, 2)
            &&& close(p.preamp, back.preamp, 1)
        }),
{
    law_export_reads_back(p, name);
    assert(p.bands[i].valid());
    lemma_close(p.bands[i].frequency, 0);
    lemma_close(p.bands[i].gain, 1);
    lemma_close(p.bands[i].q, 2);
    lemma_close(p.preamp, 1);
}

/// The filter line of a band, with its number.
pub open spec fn filter_line(n: nat, b: FilterBand) -> Seq<char> {
    "Filter "@ + numeral(n) + ": ON "@ + (match b.kind {
        BandType::LowShelf => "LSC"@,
        BandType::Peaking => "PK"@,
        BandType::HighShelf => "HSC"@,
    }) + " Fc "@ + fixed(b.frequency, 0, false) + " Hz Gain "@ + fixed(b.gain, 1, false) + " dB Q "@
        + fixed(b.q, 2, false)
}

proof fn lemma_filter_literals()
    ensures
        "Filter "@ == "Filter"@ + seq![' '],
        ": ON "@ == ":"@ + seq![' '] + "ON"@ + seq![' '],
        " Fc "@ == seq![' '] + "Fc"@ + seq![' '],
        " Hz Gain "@ == seq![' '] + "Hz"@ + seq![' '] + "Gain"@ + seq![' '],
        " dB Q "@ == seq![' '] + "dB"@ + seq![' '] + "Q"@ + seq![' '],
        "Preamp: "@ == "Preamp:"@ + seq![' '],
        " dB"@ == seq![' '] + "dB"@,
{
    reveal_strlit("Filter ");
    reveal_strlit("Filter");
    reveal_strlit(": ON ");
    reveal_strlit(":");
    reveal_strlit("ON");
    reveal_strlit(" Fc ");
    reveal_strlit("Fc");
    reveal_strlit(" Hz Gain ");
    reveal_strlit("Hz");
    reveal_strlit("Gain");
    reveal_strlit(" dB Q ");
    reveal_strlit("dB");
    reveal_strlit("Q");
    reveal_strlit("Preamp: ");
    reveal_strlit("Preamp:");
    reveal_strlit(" dB");
    assert("Filter "@ =~= "Filter"@ + seq![' ']);
    assert(": ON "@ =~= ":"@ + seq![' '] + "ON"@ + seq![' ']);
    assert(" Fc "@ =~= seq![' '] + "Fc"@ + seq![' ']);
    assert(" Hz Gain "@ =~= seq![' '] + "Hz"@ + seq![' '] + "Gain"@ + seq![' ']);
    assert(" dB Q "@ =~= seq![' '] + "dB"@ + seq![' '] + "Q"@ + seq![' ']);
    assert("Preamp: "@ =~= "Preamp:"@ + seq![' ']);
    assert(" dB"@ =~= seq![' '] + "dB"@);
}

proof fn lemma_spaced_push(ws: Seq<Seq<char>>, x: Seq<char>)
    requires
        ws.len() > 0,
    ensures
        spaced(ws.push(x)) == spaced(ws) + seq![' '] + x,
{
    assert(ws.push(x).drop_last() =~= ws);
}

proof fn lemma_glue_words(
    a: Seq<char>,
    n: Seq<char>,
    colon: Seq<char>,
    on: Seq<char>,
    code: Seq<char>,
    fc: Seq<char>,
    f: Seq<char>,
    hz: Seq<char>,
    gain: Seq<char>,
    g: Seq<char>,
    db: Seq<char>,
    qq: Seq<char>,
    q: Seq<char>,
    s: Seq<char>,
)
    ensures
        (a + s) + n + (colon + s + on + s) + code + (s + fc + s) + f + (s + hz + s + gain + s) + g + (s
            + db + s + qq + s) + q == a + s + (n + colon) + s + on + s + code + s + fc + s + f + s + hz
            + s + gain + s + g + s + db + s + qq + s + q,
{
    assert((a + s) + n + (colon + s + on + s) + code + (s + fc + s) + f + (s + hz + s + gain + s) + g
        + (s + db + s + qq + s) + q =~= a + s + (n + colon) + s + on + s + code + s + fc + s + f + s
        + hz + s + gain + s + g + s + db + s + qq + s + q);
}

proof fn lemma_filter_line(n: nat, b: FilterBand)
    ensures
        spaced(band_words(n, b)) == filter_line(n, b),
{
    let w = band_words(n, b);
    let s0 = seq![w[0]];
    assert(spaced(s0) == w[0]);
    let s1 = s0.push(w[1]);
    lemma_spaced_push(s0, w[1]);
    let s2 = s1.push(w[2]);
    lemma_spaced_push(s1, w[2]);
    let s3 = s2.push(w[3]);
    lemma_spaced_push(s2, w[3]);
    let s4 = s3.push(w[4]);
    lemma_spaced_push(s3, w[4]);
    let s5 = s4.push(w[5]);
    lemma_spaced_push(s4, w[5]);
    let s6 = s5.push(w[6]);
    lemma_spaced_push(s5, w[6]);
    let s7 = s6.push(w[7]);
    lemma_spaced_push(s6, w[7]);
    let s8 = s7.push(w[8]);
    lemma_spaced_push(s7, w[8]);
    let s9 = s8.push(w[9]);
    lemma_spaced_push(s8, w[9]);
    let s10 = s9.push(w[10]);
    lemma_spaced_push(s9, w[10]);
    let s11 = s10.push(w[11]);
    lemma_spaced_push(s10, w[11]);
    assert(w =~= s11);
    lemma_filter_literals();
    lemma_glue_words(
        "Filter"@,
        numeral(n),
        ":"@,
        "ON"@,
        b.kind.code(),
        "Fc"@,
        fixed(b.frequency, 0, false),
        "Hz"@,
        "Gain"@,
        fixed(b.gain, 1, false),
        "dB"@,
        "Q"@,
        fixed(b.q, 2, false),
        seq![' '],
    );
}

proof fn lemma_preamp_line(db: Double)
    ensures
        spaced(preamp_words(db)) == "Preamp: "@ + fixed(db, 1, false) + " dB"@,
{
    let w = preamp_words(db);
    let s0 = seq![w[0]];
    let s1 = s0.push(w[1]);
    lemma_spaced_push(s0, w[1]);
    let s2 = s1.push(w[2]);
    lemma_spaced_push(s1, w[2]);
    assert(w =~= s2);
    lemma_filter_literals();
    assert("Preamp:"@ + seq![' '] + fixed(db, 1, false) + seq![' '] + "dB"@ =~= ("Preamp:"@ + seq![' '])
        + fixed(db, 1, false) + (seq![' '] + "dB"@));
}

proof fn lemma_fixed_unbroken(v: Double, k: nat)
    ensures
        unbroken(fixed(v, k, false)),
{
    let s = fixed(v, k, false);
    if v.finite() {
        law_fixed_reads_back(v, k);
        assert forall|i: int| 0 <= i < s.len() implies #[trigger] s[i] != '\n' by {
            assert(!white(s[i]));
        }
    } else {
        reveal_strlit("NaN");
        reveal_strlit("inf");
    }
}

proof fn lemma_words_unbroken(n: nat, b: FilterBand)
    ensures
        unbroken(spaced(band_words(n, b))),
{
    let w = band_words(n, b);
    reveal_strlit("Filter");
    reveal_strlit(":");
    reveal_strlit("ON");
    reveal_strlit("Fc");
    reveal_strlit("Hz");
    reveal_strlit("Gain");
    reveal_strlit("dB");
    reveal_strlit("Q");
    reveal_strlit("LSC");
    reveal_strlit("PK");
    reveal_strlit("HSC");
    lemma_numeral(n);
    let s = numeral(n);
    assert forall|i: int| 0 <= i < s.len() implies #[trigger] s[i] != '\n' by {
        assert(crate::decimal::digit(s[i]));
    }
    assert(unbroken(s + ":"@)) by {
        assert forall|i: int| 0 <= i < (s + ":"@).len() implies #[trigger] (s + ":"@)[i] != '\n' by {
            if i < s.len() {
                assert(s[i] != '\n');
            }
        }
    }
    lemma_fixed_unbroken(b.frequency, 0);
    lemma_fixed_unbroken(b.gain, 1);
    lemma_fixed_unbroken(b.q, 2);
    assert(unbroken(w[0]));
    assert(unbroken(w[2]));
    assert(unbroken(w[3]));
    assert(unbroken(w[4]));
    assert(unbroken(w[6]));
    assert(unbroken(w[7]));
    assert(unbroken(w[9]));
    assert(unbroken(w[10]));
    lemma_spaced_unbroken(w);
}

proof fn lemma_preamp_unbroken(db: Double)
    ensures
        unbroken(spaced(preamp_words(db))),
{
    let w = preamp_words(db);
    reveal_strlit("Preamp:");
    reveal_strlit("dB");
    lemma_fixed_unbroken(db, 1);
    assert(unbroken(w[0]));
    assert(unbroken(w[2]));
    lemma_spaced_unbroken(w);
}

/// An exported profile has a line that names it, a line with its preamp, and a filter line for
/// each of its bands, in order and numbered from one; and no other line.
pub proof fn law_export_lines(p: ProfileView, i: int)
    ensures
        ({
            let text = lines(exported(p));
            &&& text.len() == p.bands.len() + 2
            &&& text[0] == "# "@ + one_line(p.name)
            &&& text[1] == "Preamp: "@ + fixed(p.preamp, 1, false) + " dB"@
            &&& 0 <= i < p.bands.len() ==> text[i + 2] == filter_line((i + 1) as nat, p.bands[i])
        }),
{
    let head = seq!["# "@ + one_line(p.name), spaced(preamp_words(p.preamp))];
    let all = head + band_lines(p.bands);
    reveal_strlit("# ");
    lemma_preamp_unbroken(p.preamp);
    assert(unbroken("# "@ + one_line(p.name)));
    assert forall|k: int| 0 <= k < all.len() implies unbroken(#[trigger] all[k]) by {
        if k >= 2 {
            lemma_words_unbroken((k - 1) as nat, p.bands[k - 2]);
        }
    }
    lemma_lines_document(all);
    lemma_preamp_line(p.preamp);
    if 0 <= i < p.bands.len() {
        lemma_filter_line((i + 1) as nat, p.bands[i]);
        assert(all[i + 2] == band_lines(p.bands)[i]);
    }
}

/// A rendered configuration has two comments, a line with the broadband gain, and a filter line
/// for each band in effect that is not next to nothing, in order and numbered from one; and no
/// other line.
pub proof fn law_render_lines(p: ProfileView, tone: ToneSettings, peak: Double, i: int)
    ensures
        ({
            let text = lines(rendered(p, tone, peak));
            let bands = audible(effective(p.bands, tone));
            &&& text.len() == bands.len() + 3
            &&& text[2] == "Preamp: "@ + fixed(pregain(p.preamp, tone.headroom, peak), 1, false)
                + " dB"@
            &&& 0 <= i < bands.len() ==> text[i + 3] == filter_line((i + 1) as nat, bands[i])
        }),
{
    let bands = audible(effective(p.bands, tone));
    let db = pregain(p.preamp, tone.headroom, peak);
    let head = seq![
        "# Generated by ADtune — overwritten when a profile is applied."@,
        "# Profile: "@ + one_line(p.name),
        spaced(preamp_words(db)),
    ];
    let all = head + band_lines(bands);
    reveal_strlit("# Generated by ADtune — overwritten when a profile is applied.");
    reveal_strlit("# Profile: ");
    lemma_preamp_unbroken(db);
    assert(unbroken("# Profile: "@ + one_line(p.name)));
    assert(unbroken("# Generated by ADtune — overwritten when a profile is applied."@));
    assert forall|k: int| 0 <= k < all.len() implies unbroken(#[trigger] all[k]) by {
        if k >= 3 {
            lemma_words_unbroken((k - 2) as nat, bands[k - 3]);
        }
    }
    lemma_lines_document(all);
    lemma_preamp_line(db);
    if 0 <= i < bands.len() {
        lemma_filter_line((i + 1) as nat, bands[i]);
        assert(all[i + 3] == band_lines(bands)[i]);
    }
}

/// Of two lists of bands, what is written of both is what is written of each.
pub proof fn law_audible_parts(a: Seq<FilterBand>, b: Seq<FilterBand>)
    ensures
        audible(a + b) == audible(a) + audible(b),
    decreases b.len(),
{
    if b.len() == 0 {
        assert(a + b =~= a);
        assert(audible(a) + audible(b) =~= audible(a));
    } else {
        law_audible_parts(a, b.drop_last());
        assert((a + b).drop_last() =~= a + b.drop_last());
        assert((a + b).last() == b.last());
        assert(audible(a + b) =~= audible(a) + audible(b));
    }
}

/// A band is written where the size of its gain is at least 0.05 dB, and left out where it is
/// less, whatever its type and its frequency.
pub proof fn law_audible_band(b: FilterBand)
    requires
        b.gain.finite(),
    ensures
        exists|t: u64|
            #[trigger] nearest(5 * pow2(1074), 100, t) && audible(seq![b]) == if b.gain.magnitude()
                >= t {
                seq![b]
            } else {
                seq![]
            },
{
    lemma_threshold_audible();
    let one = seq![b];
    assert(one.drop_last() =~= Seq::<FilterBand>::empty());
    assert(one.last() == b);
    assert(audible(one.drop_last()) =~= seq![]);
    assert(audible(one) =~= if b.gain.magnitude() >= NEAR_ZERO {
        seq![b]
    } else {
        seq![]
    });
}

proof fn lemma_threshold_audible()
    ensures
        nearest(5 * pow2(1074), 100, NEAR_ZERO),
{
    reveal(nearest);
    lemma2_to64();
    lemma2_to64_rest();
    let q = pow2(1017);
    lemma_pow2_pos(1017);
    lemma_pow2_adds(1017, 57);
    assert(pow2(57) == 0x200_0000_0000_0000);
    let b: int = NEAR_ZERO as int;
    assert(b / EXPONENT as int == 1018);
    assert((b - 1) / EXPONENT as int == 1018);
    assert((b + 1) / EXPONENT as int == 1018);
    let s: int = EXPONENT + b % EXPONENT as int;
    assert(s == 0x19_9999_9999_999a);
    assert(units(b) == s * q);
    assert(units(b - 1) == (s - 1) * q);
    assert(units(b + 1) == (s + 1) * q);
    let p = pow2(1074);
    assert(((s - 1) * q + s * q) * 100 < 2 * (5 * p)) by (nonlinear_arith)
        requires
            p == q * 0x200_0000_0000_0000,
            s == 0x19_9999_9999_999a,
            q > 0,
    ;
    assert(2 * (5 * p) < (s * q + (s + 1) * q) * 100) by (nonlinear_arith)
        requires
            p == q * 0x200_0000_0000_0000,
            s == 0x19_9999_9999_999a,
            q > 0,
    ;
}

/// The bands that the object runs are those of its configuration, in order, but for those whose
/// gain is 0.0001 dB or less.
pub proof fn law_active_parts(a: Seq<FilterBand>, b: Seq<FilterBand>)
    ensures
        active(a + b) == active(a) + active(b),
    decreases b.len(),
{
    if b.len() == 0 {
        assert(a + b =~= a);
        assert(active(a) + active(b) =~= active(a));
    } else {
        law_active_parts(a, b.drop_last());
        assert((a + b).drop_last() =~= a + b.drop_last());
        assert((a + b).last() == b.last());
        assert(active(a + b) =~= active(a) + active(b));
    }
}

/// A band runs where the size of its gain is more than 0.0001 dB.
pub proof fn law_active_band(b: FilterBand)
    requires
        b.gain.finite(),
    ensures
        exists|t: u64|
            #[trigger] nearest(pow2(1074), 10000, t) && active(seq![b]) == if b.gain.magnitude() > t {
                seq![b]
            } else {
                seq![]
            },
{
    lemma_threshold_active();
    let one = seq![b];
    assert(one.drop_last() =~= Seq::<FilterBand>::empty());
    assert(one.last() == b);
    assert(active(one.drop_last()) =~= seq![]);
    assert(active(one) =~= if b.gain.magnitude() > INAUDIBLE {
        seq![b]
    } else {
        seq![]
    });
}

proof fn lemma_threshold_active()
    ensures
        nearest(pow2(1074), 10000, INAUDIBLE),
{
    reveal(nearest);
    lemma2_to64();
    lemma2_to64_rest();
    let q = pow2(1008);
    lemma_pow2_pos(1008);
    lemma_pow2_adds(1008, 63);
    lemma_pow2_adds(1071, 3);
    assert(pow2(63) == 0x8000_0000_0000_0000);
    let b: int = INAUDIBLE as int;
    assert(b / EXPONENT as int == 1009);
    assert((b - 1) / EXPONENT as int == 1009);
    assert((b + 1) / EXPONENT as int == 1009);
    let s: int = EXPONENT + b % EXPONENT as int;
    assert(s == 0x1a_36e2_eb1c_432d);
    assert(units(b) == s * q);
    assert(units(b - 1) == (s - 1) * q);
    assert(units(b + 1) == (s + 1) * q);
    let p = pow2(1074);
    assert(((s - 1) * q + s * q) * 10000 < 2 * p) by (nonlinear_arith)
        requires
            p == q * 0x8000_0000_0000_0000 * 8,
            s == 0x1a_36e2_eb1c_432d,
            q > 0,
    ;
    assert(2 * p < (s * q + (s + 1) * q) * 10000) by (nonlinear_arith)
        requires
            p == q * 0x8000_0000_0000_0000 * 8,
            s == 0x1a_36e2_eb1c_432d,
            q > 0,
    ;
}

/// Every band with some gain shapes the response, in order.
pub proof fn law_shaping_parts(a: Seq<FilterBand>, b: Seq<FilterBand>)
    ensures
        shaping(a + b) == shaping(a) + shaping(b),
    decreases b.len(),
{
    if b.len() == 0 {
        assert(a + b =~= a);
        assert(shaping(a) + shaping(b) =~= shaping(a));
    } else {
        law_shaping_parts(a, b.drop_last());
        assert((a + b).drop_last() =~= a + b.drop_last());
        assert((a + b).last() == b.last());
        assert(shaping(a + b) =~= shaping(a) + shaping(b));
    }
}

/// A band shapes the response where the size of its gain is at least 0.000001 dB.
pub proof fn law_shaping_band(b: FilterBand)
    requires
        b.gain.finite(),
    ensures
        exists|t: u64|
            #[trigger] nearest(pow2(1074), 1000000, t) && shaping(seq![b]) == if b.gain.magnitude()
                >= t {
                seq![b]
            } else {
                seq![]
            },
{
    lemma_threshold_shaping();
    let one = seq![b];
    assert(one.drop_last() =~= Seq::<FilterBand>::empty());
    assert(one.last() == b);
    assert(shaping(one.drop_last()) =~= seq![]);
    assert(shaping(one) =~= if b.gain.magnitude() >= UNITY {
        seq![b]
    } else {
        seq![]
    });
}

proof fn lemma_threshold_shaping()
    ensures
        nearest(pow2(1074), 1000000, UNITY),
{
    reveal(nearest);
    lemma2_to64();
    lemma2_to64_rest();
    let q = pow2(1002);
    lemma_pow2_pos(1002);
    lemma_pow2_adds(1002, 63);
    lemma_pow2_adds(1065, 9);
    assert(pow2(63) == 0x8000_0000_0000_0000);
    assert(pow2(9) == 512);
    let b: int = UNITY as int;
    assert(b / EXPONENT as int == 1003);
    assert((b - 1) / EXPONENT as int == 1003);
    assert((b + 1) / EXPONENT as int == 1003);
    let s: int = EXPONENT + b % EXPONENT as int;
    assert(s == 0x10_c6f7_a0b5_ed8d);
    assert(units(b) == s * q);
    assert(units(b - 1) == (s - 1) * q);
    assert(units(b + 1) == (s + 1) * q);
    let p = pow2(1074);
    assert(((s - 1) * q + s * q) * 1000000 < 2 * p) by (nonlinear_arith)
        requires
            p == q * 0x8000_0000_0000_0000 * 512,
            s == 0x10_c6f7_a0b5_ed8d,
            q > 0,
    ;
    assert(2 * p < (s * q + (s + 1) * q) * 1000000) by (nonlinear_arith)
        requires
            p == q * 0x8000_0000_0000_0000 * 512,
            s == 0x10_c6f7_a0b5_ed8d,
            q > 0,
    ;
}

/// The highest boost is the highest of the levels where that is positive, and none else: no level
/// lies above it, and it is one of them or zero.
pub proof fn law_highest_boost(levels: Seq<Double>, i: int)
    requires
        forall|k: int| 0 <= k < levels.len() ==> !(#[trigger] levels[k]).nan(),
    ensures
        0 <= i < levels.len() ==> levels[i].at_most(highest_boost(levels)),
        double(0).at_most(highest_boost(levels)),
        highest_boost(levels) == double(0) || levels.contains(highest_boost(levels)),
    decreases levels.len(),
{
    if levels.len() > 0 {
        let before = levels.drop_last();
        assert forall|k: int| 0 <= k < before.len() implies !(#[trigger] before[k]).nan() by {
            assert(!levels[k].nan());
        }
        law_highest_boost(before, i);
        assert(!levels[levels.len() - 1].nan());
        if before.contains(highest_boost(before)) {
            let k = choose|k: int| 0 <= k < before.len() && before[k] == highest_boost(before);
            assert(levels[k] == highest_boost(before));
        }
        assert(levels[levels.len() - 1] == levels.last());
    }
}

/// A number that is written with `k` places has a point and `k` digits behind it, and no point
/// where it is written without any.
pub proof fn law_places(v: Double, k: nat, i: int)
    requires
        v.finite(),
    ensures
        ({
            let s = fixed(v, k, false);
            &&& k > 0 ==> s.len() > k + 1 && s[s.len() - k - 1] == '.'
            &&& k > 0 && s.len() - k <= i < s.len() ==> digit(s[i])
            &&& k == 0 && 0 <= i < s.len() ==> s[i] != '.'
        }),
{
    let s = fixed(v, k, false);
    let n = in_places(v, k);
    lemma_numeral(n);
    lemma_ten(k);
    lemma_numeral(n / ten(k));
    lemma_last_digits_value(n, k);
    let sign = crate::decimal::sign_text(v.negative(), false);
    if k > 0 {
        let head = numeral(n / ten(k));
        let tail = last_digits(n, k);
        assert(s =~= sign + head + seq!['.'] + tail);
        if s.len() - k <= i < s.len() {
            assert(s[i] == tail[i - (s.len() - k)]);
            assert(digit(tail[i - (s.len() - k)]));
        }
    } else {
        assert(s =~= sign + numeral(n));
        if 0 <= i < s.len() {
            if i >= sign.len() {
                assert(s[i] == numeral(n)[i - sign.len()]);
                assert(digit(numeral(n)[i - sign.len()]));
            }
        }
    }
}

} // verus!
