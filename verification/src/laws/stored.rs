//! What is stored: which bands come back, and with which values.

use vstd::prelude::*;
use vstd::arithmetic::power2::{lemma2_to64, lemma2_to64_rest, lemma_pow2_adds, pow2};

use crate::double::{double, lemma_order, units, whole, Double, EXPONENT, SIGN};
use crate::profile::{
    band_type, byte_len, fold, folds_to, law_short_text, lemma_bounds, sane_band, short_text, BandType,
    FilterBand, GAIN_MAX, GAIN_MIN, ONE, Q_MIN, TWENTY, TWENTY_THOUSAND,
};
use crate::state::{capped, restored, restored_tone, usable, StoredBandView, StoredProfileView, StoredTone, TRIM_MAX, TRIM_MIN};
use crate::text::{alike, lower};

verus! {

pub proof fn lemma_usable(bands: Seq<StoredBandView>)
    ensures
        usable(bands).len() > 0 <==> exists|i: int|
            0 <= i < bands.len() && band_type((#[trigger] bands[i]).kind) is Some,
    decreases bands.len(),
{
    if bands.len() > 0 {
        let before = bands.drop_last();
        lemma_usable(before);
        if exists|i: int| 0 <= i < before.len() && band_type((#[trigger] before[i]).kind) is Some {
            let i = choose|i: int|
                0 <= i < before.len() && band_type((#[trigger] before[i]).kind) is Some;
            assert(bands[i] == before[i]);
        }
        if exists|i: int| 0 <= i < bands.len() && band_type((#[trigger] bands[i]).kind) is Some {
            let i = choose|i: int|
                0 <= i < bands.len() && band_type((#[trigger] bands[i]).kind) is Some;
            if i < before.len() {
                assert(before[i] == bands[i]);
            }
        }
    }
}

/// The values of a band are what is given where that is in range, and the nearer end of the range
/// where it is not: 20 Hz to 20 kHz, -24 dB to 24 dB, and a quality factor up to 20.
pub proof fn law_band_stays_in_range(kind: BandType, frequency: Double, gain: Double, q: Double)
    requires
        frequency.finite(),
        gain.finite(),
        q.finite(),
    ensures
        ({
            let b = sane_band(kind, frequency, gain, q);
            &&& b.kind == kind
            &&& whole(20) <= frequency.value() <= whole(20000) ==> b.frequency == frequency
            &&& frequency.value() < whole(20) ==> b.frequency.value() == whole(20)
            &&& frequency.value() > whole(20000) ==> b.frequency.value() == whole(20000)
            &&& whole(-24) <= gain.value() <= whole(24) ==> b.gain == gain
            &&& gain.value() < whole(-24) ==> b.gain.value() == whole(-24)
            &&& gain.value() > whole(24) ==> b.gain.value() == whole(24)
            &&& double(Q_MIN).value() <= q.value() <= whole(20) ==> b.q == q
            &&& q.value() < double(Q_MIN).value() ==> b.q == double(Q_MIN)
            &&& q.value() > whole(20) ==> b.q.value() == whole(20)
        }),
{
    lemma_bounds();
    lemma_order(frequency, double(TWENTY));
    lemma_order(double(TWENTY_THOUSAND), frequency);
    lemma_order(gain, double(GAIN_MIN));
    lemma_order(double(GAIN_MAX), gain);
    lemma_order(q, double(Q_MIN));
    lemma_order(double(TWENTY), q);
    vstd::arithmetic::power2::lemma_pow2_pos(1074);
    assert(whole(20) < whole(20000));
    assert(whole(-24) < whole(24));
    lemma_order(double(Q_MIN), double(TWENTY));
}

/// What is not finite becomes 1 kHz, no gain, and a quality factor of 1.
pub proof fn law_missing_values(kind: BandType, frequency: Double, gain: Double, q: Double)
    ensures
        !frequency.finite() ==> sane_band(kind, frequency, gain, q).frequency.value() == whole(1000),
        !gain.finite() ==> sane_band(kind, frequency, gain, q).gain.value() == 0,
        !q.finite() ==> sane_band(kind, frequency, gain, q).q.value() == whole(1),
{
    lemma_bounds();
}

/// What is usable of two lists of bands is what is usable of each, in order.
pub proof fn law_usable_parts(a: Seq<StoredBandView>, b: Seq<StoredBandView>)
    ensures
        usable(a + b) == usable(a) + usable(b),
    decreases b.len(),
{
    if b.len() == 0 {
        assert(a + b =~= a);
        assert(usable(a) + usable(b) =~= usable(a));
    } else {
        law_usable_parts(a, b.drop_last());
        assert((a + b).drop_last() =~= a + b.drop_last());
        assert((a + b).last() == b.last());
        assert(usable(a + b) =~= usable(a) + usable(b));
    }
}

/// A stored band of a known type comes back, with its values within their ranges; one of another
/// type is left out.
pub proof fn law_usable_band(b: StoredBandView)
    ensures
        usable(seq![b]) == match band_type(b.kind) {
            Some(kind) => seq![sane_band(kind, b.frequency, b.gain, b.q)],
            None => Seq::<FilterBand>::empty(),
        },
{
    let one = seq![b];
    assert(one.drop_last() =~= Seq::<StoredBandView>::empty());
    assert(one.last() == b);
    assert(usable(one.drop_last()) =~= Seq::<FilterBand>::empty());
    assert(usable(one) =~= match band_type(b.kind) {
        Some(kind) => seq![sane_band(kind, b.frequency, b.gain, b.q)],
        None => Seq::<FilterBand>::empty(),
    });
}

/// What is restored: the bands of the first 32 entries, the preamp within 24 dB, and the texts,
/// shortened where they are too long.
pub proof fn law_restored(s: StoredProfileView)
    ensures
        s.bands.len() <= 32 ==> restored(s).bands == usable(s.bands),
        s.bands.len() > 32 ==> restored(s).bands == usable(s.bands.take(32)),
        s.preamp.finite() && whole(-24) <= s.preamp.value() <= whole(24) ==> restored(s).preamp
            == s.preamp,
        s.preamp.finite() && s.preamp.value() < whole(-24) ==> restored(s).preamp.value() == whole(-24),
        s.preamp.finite() && s.preamp.value() > whole(24) ==> restored(s).preamp.value() == whole(24),
        !s.preamp.finite() ==> restored(s).preamp.value() == 0,
        byte_len(s.name) <= 256 ==> restored(s).name == s.name,
        byte_len(s.key) <= 256 ==> restored(s).key == s.key,
        byte_len(s.detail) <= 256 ==> restored(s).detail == s.detail,
        byte_len(s.source) <= 256 ==> restored(s).source == s.source,
        byte_len(s.form) <= 256 ==> restored(s).form == s.form,
{
    lemma_bounds();
    if s.preamp.finite() {
        lemma_order(s.preamp, double(GAIN_MIN));
        lemma_order(double(GAIN_MAX), s.preamp);
        vstd::arithmetic::power2::lemma_pow2_pos(1074);
        assert(whole(-24) < whole(24));
    }
    law_short_text(s.name);
    law_short_text(s.key);
    law_short_text(s.detail);
    law_short_text(s.source);
    law_short_text(s.form);
    assert(s.bands.len() <= 32 ==> capped(s.bands) =~= s.bands);
    assert(s.bands.len() > 32 ==> capped(s.bands) =~= s.bands.take(32));
}

/// Tone settings come back within their ranges: the amount from none to all, the trims up to 6 dB
/// either way.
pub proof fn law_restored_tone(t: StoredTone)
    requires
        t.wet.finite(),
        t.bass.finite(),
        t.tilt.finite(),
    ensures
        ({
            let r = restored_tone(t);
            &&& r.headroom == t.headroom
            &&& 0 <= t.wet.value() <= whole(1) ==> r.wet == t.wet
            &&& t.wet.value() < 0 ==> r.wet.value() == 0
            &&& t.wet.value() > whole(1) ==> r.wet.value() == whole(1)
            &&& whole(-6) <= t.bass.value() <= whole(6) ==> r.bass == t.bass
            &&& t.bass.value() < whole(-6) ==> r.bass.value() == whole(-6)
            &&& t.bass.value() > whole(6) ==> r.bass.value() == whole(6)
            &&& whole(-6) <= t.tilt.value() <= whole(6) ==> r.tilt == t.tilt
            &&& t.tilt.value() < whole(-6) ==> r.tilt.value() == whole(-6)
            &&& t.tilt.value() > whole(6) ==> r.tilt.value() == whole(6)
        }),
{
    lemma_bounds();
    lemma_six();
    vstd::arithmetic::power2::lemma_pow2_pos(1074);
    assert(whole(-6) < whole(6));
    assert(0 < whole(1));
    lemma_order(t.wet, double(0));
    lemma_order(double(ONE), t.wet);
    lemma_order(t.bass, double(TRIM_MIN));
    lemma_order(double(TRIM_MAX), t.bass);
    lemma_order(t.tilt, double(TRIM_MIN));
    lemma_order(double(TRIM_MAX), t.tilt);
}

proof fn lemma_six()
    ensures
        double(TRIM_MAX).value() == whole(6),
        double(TRIM_MIN).value() == whole(-6),
{
    lemma2_to64();
    lemma2_to64_rest();
    assert(TRIM_MAX as int / EXPONENT as int == 1025);
    assert(TRIM_MAX as int % EXPONENT as int == 0x8_0000_0000_0000);
    assert(units(TRIM_MAX as int) == 0x18_0000_0000_0000 * pow2(1024));
    lemma_pow2_adds(1024, 50);
    assert(pow2(50) == 0x4_0000_0000_0000);
    let q = pow2(1024);
    assert(0x18_0000_0000_0000 * q == 6 * (q * 0x4_0000_0000_0000)) by (nonlinear_arith);
    assert(TRIM_MIN == TRIM_MAX + SIGN);
    assert(TRIM_MIN % SIGN == TRIM_MAX);
    assert(whole(-6) == -whole(6)) by (nonlinear_arith);
}

/// A spelling of a type: made of ASCII letters and underscores.
pub open spec fn plain(s: Seq<char>) -> bool {
    forall|i: int| 0 <= i < s.len() ==> {
        let c = #[trigger] s[i];
        ('a' <= c && c <= 'z') || ('A' <= c && c <= 'Z') || c == '_'
    }
}

proof fn lemma_folds(s: Seq<char>, w: Seq<char>)
    requires
        plain(s),
        plain(w),
        forall|i: int| 0 <= i < w.len() ==> !('A' <= #[trigger] w[i] && w[i] <= 'Z'),
    ensures
        folds_to(s, w) <==> alike(s, w),
{
    if folds_to(s, w) {
        assert forall|i: int| 0 <= i < s.len() implies lower(#[trigger] s[i]) == lower(w[i]) by {
            assert(fold(s[i]) == w[i]);
        }
    }
    if alike(s, w) {
        assert forall|i: int| 0 <= i < s.len() implies fold(#[trigger] s[i]) == w[i] by {
            assert(lower(s[i]) == lower(w[i]));
            assert(!('A' <= w[i] && w[i] <= 'Z'));
            let c = s[i];
        }
    }
}

/// Every spelling of a type is known, in any case, and no other is.
pub proof fn law_types(s: Seq<char>)
    requires
        plain(s),
        s.len() > 0,
        !(s.len() >= 3 && alike(s.take(3), "bq_"@)),
    ensures
        band_type(s) == Some(BandType::LowShelf) <==> alike(s, "lowshelf"@) || alike(s, "low_shelf"@)
            || alike(s, "lsc"@) || alike(s, "ls"@),
        band_type(s) == Some(BandType::Peaking) <==> alike(s, "peaking"@) || alike(s, "peak"@) || alike(
            s,
            "pk"@,
        ) || alike(s, "bell"@),
        band_type(s) == Some(BandType::HighShelf) <==> alike(s, "highshelf"@) || alike(
            s,
            "high_shelf"@,
        ) || alike(s, "hsc"@) || alike(s, "hs"@),
{
    reveal_strlit("lowshelf");
    reveal_strlit("low_shelf");
    reveal_strlit("lsc");
    reveal_strlit("ls");
    reveal_strlit("peaking");
    reveal_strlit("peak");
    reveal_strlit("pk");
    reveal_strlit("bell");
    reveal_strlit("highshelf");
    reveal_strlit("high_shelf");
    reveal_strlit("hsc");
    reveal_strlit("hs");
    reveal_strlit("bq_");
    lemma_folds(s, "lowshelf"@);
    lemma_folds(s, "low_shelf"@);
    lemma_folds(s, "lsc"@);
    lemma_folds(s, "ls"@);
    lemma_folds(s, "peaking"@);
    lemma_folds(s, "peak"@);
    lemma_folds(s, "pk"@);
    lemma_folds(s, "bell"@);
    lemma_folds(s, "highshelf"@);
    lemma_folds(s, "high_shelf"@);
    lemma_folds(s, "hsc"@);
    lemma_folds(s, "hs"@);
    let e = Seq::<char>::empty();
    crate::laws::text::law_whitespace(s[0]);
    crate::laws::text::law_whitespace(s.last());
    assert(e + s + e =~= s);
    crate::laws::text::law_trim(e, s, e);
    if s.len() >= 3 {
        assert forall|i: int| 0 <= i < 3 implies {
            let c = #[trigger] s.take(3)[i];
            ('a' <= c && c <= 'z') || ('A' <= c && c <= 'Z') || c == '_'
        } by {
            assert(s.take(3)[i] == s[i]);
        }
        lemma_folds(s.take(3), "bq_"@);
    }
    // The first letters tell the three apart.
    if alike(s, "peaking"@) || alike(s, "peak"@) || alike(s, "pk"@) || alike(s, "bell"@) {
        assert(lower(s[0]) == 'p' || lower(s[0]) == 'b');
    }
    if alike(s, "highshelf"@) || alike(s, "high_shelf"@) || alike(s, "hsc"@) || alike(s, "hs"@) {
        assert(lower(s[0]) == 'h');
    }
    if alike(s, "lowshelf"@) || alike(s, "low_shelf"@) || alike(s, "lsc"@) || alike(s, "ls"@) {
        assert(lower(s[0]) == 'l');
    }
}

/// A text is cut no sooner than it has to be: what is left of one that is cut has at least 256
/// bytes, and all but its last character have fewer.
pub proof fn law_texts_are_cut_late(s: Seq<char>)
    ensures
        short_text(s).len() < s.len() ==> byte_len(short_text(s)) >= 256 && byte_len(
            short_text(s).drop_last(),
        ) < 256,
    decreases s.len(),
{
    if s.len() > 0 && byte_len(s.drop_last()) >= 256 {
        let t = s.drop_last();
        law_texts_are_cut_late(t);
        if short_text(t).len() == t.len() {
            law_short_text(t);
            assert(short_text(t) =~= t);
            assert(byte_len(Seq::<char>::empty()) == 0);
            if t.len() == 0 {
                assert(t =~= Seq::<char>::empty());
            } else if byte_len(t.drop_last()) >= 256 {
                law_short_text(t.drop_last());
            }
        } else {
            law_short_text(t);
        }
    }
}

} // verus!
