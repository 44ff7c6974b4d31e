//! The persisted state, as it stands in `state.json` and in profile files.
//!
//! Only the target's identifier differs between platforms (a PipeWire node number,
//! a Windows endpoint name), so [`StoredState`] is generic over it.

use vstd::prelude::*;
use vstd::string::*;

use crate::double::{double, Double};
use crate::profile::{band_type, law_sane_band_keeps_valid, law_short_text, law_spellings_read_back, sane, sane_band, sane_preamp, sane_str, short_text, within, AudioProfile, BandType, FilterBand, ProfileView, ToneSettings, GAIN_MAX, GAIN_MIN, MAX_BANDS, ONE};

verus! {

/// A band as it is stored: with the name of its type.
#[derive(Debug)]
pub struct StoredBand {
    pub kind: String,
    pub frequency: Double,
    pub gain: Double,
    pub q: Double,
}

/// A profile as it is stored.
#[derive(Debug)]
pub struct StoredProfile {
    pub key: String,
    pub name: String,
    pub detail: String,
    pub preamp: Double,
    pub bands: Vec<StoredBand>,
    pub source: String,
    pub form: String,
}

/// Tone settings as they are stored.
#[derive(Clone, Copy, Debug, PartialEq, Eq, Structural)]
pub struct StoredTone {
    pub wet: Double,
    pub bass: Double,
    pub tilt: Double,
    pub headroom: bool,
}

/// The whole persisted state.
#[derive(Debug)]
pub struct StoredState<Id> {
    pub profile: StoredProfile,
    /// The output in the terms of the platform.
    pub target_id: Id,
    pub target_name: String,
    pub tone: StoredTone,
    pub bypassed: bool,
}

/// What a stored band holds.
pub struct StoredBandView {
    pub kind: Seq<char>,
    pub frequency: Double,
    pub gain: Double,
    pub q: Double,
}

/// What a stored profile holds.
pub struct StoredProfileView {
    pub key: Seq<char>,
    pub name: Seq<char>,
    pub detail: Seq<char>,
    pub preamp: Double,
    pub bands: Seq<StoredBandView>,
    pub source: Seq<char>,
    pub form: Seq<char>,
}

impl View for StoredBand {
    type V = StoredBandView;

    open spec fn view(&self) -> StoredBandView {
        StoredBandView {
            kind: self.kind@,
            frequency: self.frequency,
            gain: self.gain,
            q: self.q,
        }
    }
}

/// What some stored bands hold.
pub open spec fn band_views(bands: Seq<StoredBand>) -> Seq<StoredBandView> {
    Seq::new(bands.len(), |i: int| bands[i]@)
}

impl View for StoredProfile {
    type V = StoredProfileView;

    open spec fn view(&self) -> StoredProfileView {
        StoredProfileView {
            key: self.key@,
            name: self.name@,
            detail: self.detail@,
            preamp: self.preamp,
            bands: band_views(self.bands@),
            source: self.source@,
            form: self.form@,
        }
    }
}

/// A band in its stored form.
pub open spec fn stored_band(b: FilterBand) -> StoredBandView {
    StoredBandView { kind: b.kind.name(), frequency: b.frequency, gain: b.gain, q: b.q }
}

/// A profile in its stored form.
pub open spec fn stored(p: ProfileView) -> StoredProfileView {
    StoredProfileView {
        key: p.key,
        name: p.name,
        detail: p.detail,
        preamp: p.preamp,
        bands: Seq::new(p.bands.len(), |i: int| stored_band(p.bands[i])),
        source: p.source,
        form: p.form,
    }
}

/// The bands of known types among some stored bands, with their values in range.
pub open spec fn usable(bands: Seq<StoredBandView>) -> Seq<FilterBand>
    decreases bands.len(),
{
    if bands.len() == 0 {
        seq![]
    } else {
        let before = usable(bands.drop_last());
        let b = bands.last();
        match band_type(b.kind) {
            Some(kind) => before.push(sane_band(kind, b.frequency, b.gain, b.q)),
            None => before,
        }
    }
}

/// The first of some stored bands, as many as a profile may have.
pub open spec fn capped(bands: Seq<StoredBandView>) -> Seq<StoredBandView> {
    if bands.len() <= MAX_BANDS {
        bands
    } else {
        bands.take(MAX_BANDS as int)
    }
}

/// The profile that a stored one stands for.
pub open spec fn restored(s: StoredProfileView) -> ProfileView {
    ProfileView {
        key: short_text(s.key),
        name: short_text(s.name),
        detail: short_text(s.detail),
        source: short_text(s.source),
        form: short_text(s.form),
        preamp: sane(s.preamp, 0, GAIN_MIN, GAIN_MAX),
        bands: usable(capped(s.bands)),
    }
}

/// The usable ones among the first of some stored bands.
pub fn usable_bands(bands: &Vec<StoredBand>) -> (r: Vec<FilterBand>)
    ensures
        r@ == usable(capped(band_views(bands@))),
        r@.len() <= MAX_BANDS,
        forall|i: int| 0 <= i < r@.len() ==> (#[trigger] r@[i]).valid(),
{
    let ghost all = band_views(bands@);
    let n: usize = if bands.len() <= MAX_BANDS { bands.len() } else { MAX_BANDS };
    let mut r: Vec<FilterBand> = Vec::new();
    assert(capped(all) =~= all.take(n as int));
    assert(r@ =~= usable(all.take(0)));
    for i in 0..n
        invariant
            all == band_views(bands@),
            n <= bands@.len(),
            n <= MAX_BANDS,
            r@ == usable(all.take(i as int)),
            r@.len() <= i,
            forall|i: int| 0 <= i < r@.len() ==> (#[trigger] r@[i]).valid(),
    {
        let b: &StoredBand = &bands[i];
        assert(all.take(i + 1).drop_last() =~= all.take(i as int));
        if let Some(kind) = BandType::parse(&b.kind) {
            r.push(FilterBand::new(kind, b.frequency, b.gain, b.q));
        }
    }
    r
}

impl StoredProfile {
    /// The stored form of a profile.
    pub fn from_profile(p: &AudioProfile) -> (r: StoredProfile)
        ensures
            r@ == stored(p@),
    {
        let mut bands: Vec<StoredBand> = Vec::new();
        for i in 0..p.bands.len()
            invariant
                band_views(bands@) =~= stored(p@).bands.take(i as int),
        {
            let b: FilterBand = p.bands[i];
            let ghost before = band_views(bands@);
            bands.push(
                StoredBand {
                    kind: b.kind.as_str().to_owned(),
                    frequency: b.frequency,
                    gain: b.gain,
                    q: b.q,
                },
            );
            assert(band_views(bands@) =~= before.push(stored_band(b)));
        }
        assert(band_views(bands@) =~= stored(p@).bands);
        StoredProfile {
            key: p.key.clone(),
            name: p.name.clone(),
            detail: p.detail.clone(),
            preamp: p.preamp,
            bands,
            source: p.source.clone(),
            form: p.form.clone(),
        }
    }

    /// The profile that the stored one stands for. What is stored may come from
    /// anywhere, so every text is bounded, every number brought into range, and no
    /// more than [`MAX_BANDS`] bands are looked at.
    pub fn to_profile(&self) -> (r: AudioProfile)
        ensures
            r@ == restored(self@),
            r@.valid(),
    {
        AudioProfile {
            key: sane_str(&self.key),
            name: sane_str(&self.name),
            detail: sane_str(&self.detail),
            source: sane_str(&self.source),
            form: sane_str(&self.form),
            preamp: sane_preamp(self.preamp),
            bands: usable_bands(&self.bands),
        }
    }
}

proof fn lemma_usable_stored(bands: Seq<FilterBand>)
    requires
        forall|i: int| 0 <= i < bands.len() ==> (#[trigger] bands[i]).valid(),
    ensures
        usable(Seq::new(bands.len(), |i: int| stored_band(bands[i]))) == bands,
    decreases bands.len(),
{
    let s = Seq::new(bands.len(), |i: int| stored_band(bands[i]));
    if bands.len() > 0 {
        let before = bands.drop_last();
        assert forall|i: int| 0 <= i < before.len() implies (#[trigger] before[i]).valid() by {
            assert(bands[i].valid());
        }
        lemma_usable_stored(before);
        assert(s.drop_last() =~= Seq::new(before.len(), |i: int| stored_band(before[i])));
        assert(bands.last().valid());
        law_spellings_read_back(bands.last().kind);
        law_sane_band_keeps_valid(bands.last());
        assert(before.push(bands.last()) =~= bands);
    } else {
        assert(usable(s) =~= bands);
    }
}

/// A profile whose values are in range and whose texts need no shortening comes back from
/// its stored form unchanged.
pub proof fn law_stored_profile_restores(p: ProfileView)
    requires
        p.valid(),
        p.short(),
    ensures
        restored(stored(p)) == p,
{
    lemma_usable_stored(p.bands);
    assert(capped(stored(p).bands) =~= stored(p).bands);
}

proof fn lemma_usable_valid(bands: Seq<StoredBandView>)
    ensures
        usable(bands).len() <= bands.len(),
        forall|i: int| 0 <= i < usable(bands).len() ==> (#[trigger] usable(bands)[i]).valid(),
    decreases bands.len(),
{
    if bands.len() > 0 {
        lemma_usable_valid(bands.drop_last());
    }
}

/// Whatever is stored, what comes back from it is in range and is stored and comes back
/// again unchanged.
pub proof fn law_restored_restores(s: StoredProfileView)
    ensures
        restored(s).valid(),
        restored(s).short(),
        restored(stored(restored(s))) == restored(s),
{
    lemma_usable_valid(capped(s.bands));
    law_short_text(s.key);
    law_short_text(s.name);
    law_short_text(s.detail);
    law_short_text(s.source);
    law_short_text(s.form);
    law_stored_profile_restores(restored(s));
}

/// -6 dB, the lowest trim.
pub const TRIM_MIN: u64 = 0xc018_0000_0000_0000;

/// 6 dB, the highest trim.
pub const TRIM_MAX: u64 = 0x4018_0000_0000_0000;

/// The tone settings that stored ones stand for.
pub open spec fn restored_tone(t: StoredTone) -> ToneSettings {
    ToneSettings {
        wet: t.wet.clamped(double(0), double(ONE)),
        bass: t.bass.clamped(double(TRIM_MIN), double(TRIM_MAX)),
        tilt: t.tilt.clamped(double(TRIM_MIN), double(TRIM_MAX)),
        headroom: t.headroom,
    }
}

/// The stored form of tone settings.
pub open spec fn stored_tone(t: ToneSettings) -> StoredTone {
    StoredTone { wet: t.wet, bass: t.bass, tilt: t.tilt, headroom: t.headroom }
}

/// Every tone value is in its range.
pub open spec fn tone_valid(t: ToneSettings) -> bool {
    within(t.wet, 0, ONE) && within(t.bass, TRIM_MIN, TRIM_MAX) && within(t.tilt, TRIM_MIN, TRIM_MAX)
}

impl StoredTone {
    /// The stored form of tone settings.
    pub fn from_tone(t: &ToneSettings) -> (r: StoredTone)
        ensures
            r == stored_tone(*t),
    {
        StoredTone { wet: t.wet, bass: t.bass, tilt: t.tilt, headroom: t.headroom }
    }

    /// The tone settings, each value brought into its range. A not-a-number stays
    /// what it is.
    pub fn to_tone(&self) -> (r: ToneSettings)
        ensures
            r == restored_tone(*self),
            !self.wet.nan() && !self.bass.nan() && !self.tilt.nan() ==> tone_valid(r),
    {
        ToneSettings {
            wet: self.wet.clamp(Double { bits: 0 }, Double { bits: ONE }),
            bass: self.bass.clamp(Double { bits: TRIM_MIN }, Double { bits: TRIM_MAX }),
            tilt: self.tilt.clamp(Double { bits: TRIM_MIN }, Double { bits: TRIM_MAX }),
            headroom: self.headroom,
        }
    }
}

/// Tone settings in range come back from their stored form unchanged.
pub proof fn law_stored_tone_restores(t: ToneSettings)
    requires
        tone_valid(t),
    ensures
        restored_tone(stored_tone(t)) == t,
{
}

impl<Id> StoredState<Id> {
    /// The state to store. It counts as bypassed where the correction amount is
    /// zero or less.
    pub fn new(profile: &AudioProfile, target_id: Id, target_name: &str, tone: &ToneSettings) -> (r:
        StoredState<Id>)
        ensures
            r.profile@ == stored(profile@),
            r.target_id == target_id,
            r.target_name@ == target_name@,
            r.tone == stored_tone(*tone),
            r.bypassed == tone.wet.at_most(double(0)),
    {
        StoredState {
            profile: StoredProfile::from_profile(profile),
            target_id,
            target_name: target_name.to_owned(),
            tone: StoredTone::from_tone(tone),
            bypassed: tone.wet.le(&Double { bits: 0 }),
        }
    }
}

} // verus!
