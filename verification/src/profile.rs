//! Profiles, bands and the tone layer: the data model that every frontend and
//! every platform backend shares.

use vstd::prelude::*;
use vstd::arithmetic::power2::{lemma2_to64, lemma2_to64_rest, lemma_pow2_adds, lemma_pow2_pos, pow2};
use vstd::string::*;

use crate::double::{double, lemma_order, lemma_units, whole, Double, EXPONENT, SIGN};
use crate::text::{chars_of, lower, piece, text_of, to_lower, trim, trimmed};

verus! {

/// A single biquad filter type. Three shapes are modelled: those that the
/// ParametricEQ ecosystem uses (`PK`, `LSC`, `HSC`).
#[derive(Clone, Copy, Debug, PartialEq, Eq, Structural)]
pub enum BandType {
    LowShelf,
    Peaking,
    HighShelf,
}

/// The lower-case form of a character, where that is an ASCII character: of the
/// letters A to Z and of the Kelvin sign. Any other character as it is.
pub open spec fn fold(c: char) -> char {
    if c == '\u{212a}' {
        'k'
    } else {
        lower(c)
    }
}

/// `s` in lower case is the ASCII word `w`.
pub open spec fn folds_to(s: Seq<char>, w: Seq<char>) -> bool {
    s.len() == w.len() && forall|i: int| 0 <= i < s.len() ==> fold(#[trigger] s[i]) == w[i]
}

/// `s` without the prefix `bq_`, in any case.
pub open spec fn unprefixed(s: Seq<char>) -> Seq<char> {
    if s.len() >= 3 && folds_to(s.take(3), "bq_"@) {
        s.skip(3)
    } else {
        s
    }
}

/// The band type that a spelling stands for.
pub open spec fn band_type(s: Seq<char>) -> Option<BandType> {
    let t = unprefixed(trim(s));
    if folds_to(t, "lowshelf"@) || folds_to(t, "low_shelf"@) || folds_to(t, "lsc"@) || folds_to(
        t,
        "ls"@,
    ) {
        Some(BandType::LowShelf)
    } else if folds_to(t, "peaking"@) || folds_to(t, "peak"@) || folds_to(t, "pk"@) || folds_to(
        t,
        "bell"@,
    ) {
        Some(BandType::Peaking)
    } else if folds_to(t, "highshelf"@) || folds_to(t, "high_shelf"@) || folds_to(t, "hsc"@)
        || folds_to(t, "hs"@) {
        Some(BandType::HighShelf)
    } else {
        None
    }
}

/// Whether a text in lower case is the ASCII word `w`.
fn is_word(s: &Vec<char>, w: &str) -> (r: bool)
    ensures
        r == folds_to(s@, w@),
{
    let word: Vec<char> = chars_of(w);
    if s.len() != word.len() {
        return false;
    }
    for i in 0..s.len()
        invariant
            word@ == w@,
            s@.len() == w@.len(),
            forall|j: int| 0 <= j < i ==> fold(#[trigger] s@[j]) == w@[j],
    {
        let c: char = if s[i] == '\u{212a}' { 'k' } else { to_lower(s[i]) };
        if c != word[i] {
            return false;
        }
    }
    true
}

impl BandType {
    /// The name used in profile files.
    pub open spec fn name(self) -> Seq<char> {
        match self {
            BandType::LowShelf => "lowshelf"@,
            BandType::Peaking => "peaking"@,
            BandType::HighShelf => "highshelf"@,
        }
    }

    /// The label of the PipeWire builtin filter.
    pub open spec fn label(self) -> Seq<char> {
        match self {
            BandType::LowShelf => "bq_lowshelf"@,
            BandType::Peaking => "bq_peaking"@,
            BandType::HighShelf => "bq_highshelf"@,
        }
    }

    /// The code used in ParametricEQ text.
    pub open spec fn code(self) -> Seq<char> {
        match self {
            BandType::LowShelf => "LSC"@,
            BandType::Peaking => "PK"@,
            BandType::HighShelf => "HSC"@,
        }
    }

    /// The band type of any of the common spellings, with or without the PipeWire
    /// prefix `bq_`; `None` for unsupported shapes.
    pub fn parse(s: &str) -> (r: Option<BandType>)
        ensures
            r == band_type(s@),
    {
        BandType::parse_chars(&chars_of(s))
    }

    /// As [`BandType::parse`].
    pub fn parse_chars(s: &Vec<char>) -> (r: Option<BandType>)
        ensures
            r == band_type(s@),
    {
        let t: Vec<char> = trimmed(s);
        let mut t: Vec<char> = t;
        if t.len() >= 3 {
            assert(t@.subrange(0, 3) =~= t@.take(3));
            if is_word(&piece(&t, 0, 3), "bq_") {
                assert(t@.subrange(3, t@.len() as int) =~= t@.skip(3));
                t = piece(&t, 3, t.len());
            }
        }
        if is_word(&t, "lowshelf") || is_word(&t, "low_shelf") || is_word(&t, "lsc") || is_word(
            &t,
            "ls",
        ) {
            Some(BandType::LowShelf)
        } else if is_word(&t, "peaking") || is_word(&t, "peak") || is_word(&t, "pk") || is_word(
            &t,
            "bell",
        ) {
            Some(BandType::Peaking)
        } else if is_word(&t, "highshelf") || is_word(&t, "high_shelf") || is_word(&t, "hsc")
            || is_word(&t, "hs") {
            Some(BandType::HighShelf)
        } else {
            None
        }
    }

    /// The name used in profile files: `lowshelf`, `peaking` or `highshelf`.
    pub fn as_str(&self) -> (r: &'static str)
        ensures
            r@ == self.name(),
    {
        match self {
            BandType::LowShelf => "lowshelf",
            BandType::Peaking => "peaking",
            BandType::HighShelf => "highshelf",
        }
    }

    /// The label of the PipeWire builtin filter: `bq_lowshelf` and so on.
    pub fn pw_label(&self) -> (r: &'static str)
        ensures
            r@ == self.label(),
    {
        match self {
            BandType::LowShelf => "bq_lowshelf",
            BandType::Peaking => "bq_peaking",
            BandType::HighShelf => "bq_highshelf",
        }
    }

    /// The code used in ParametricEQ text: `LSC`, `PK` or `HSC`.
    pub fn eq_code(&self) -> (r: &'static str)
        ensures
            r@ == self.code(),
    {
        match self {
            BandType::LowShelf => "LSC",
            BandType::Peaking => "PK",
            BandType::HighShelf => "HSC",
        }
    }
}

/// Every way in which a band type is written is read back as that type.
pub proof fn law_spellings_read_back(kind: BandType)
    ensures
        band_type(kind.name()) == Some(kind),
        band_type(kind.label()) == Some(kind),
        band_type(kind.code()) == Some(kind),
{
    reveal_strlit("lowshelf");
    reveal_strlit("peaking");
    reveal_strlit("highshelf");
    reveal_strlit("bq_lowshelf");
    reveal_strlit("bq_peaking");
    reveal_strlit("bq_highshelf");
    reveal_strlit("LSC");
    reveal_strlit("PK");
    reveal_strlit("HSC");
    reveal_strlit("bq_");
    reveal_strlit("low_shelf");
    reveal_strlit("lsc");
    reveal_strlit("ls");
    reveal_strlit("peak");
    reveal_strlit("pk");
    reveal_strlit("bell");
    reveal_strlit("high_shelf");
    reveal_strlit("hsc");
    reveal_strlit("hs");
    match kind {
        BandType::LowShelf => {
            assert(trim("lowshelf"@) == "lowshelf"@);
            assert(trim("LSC"@) == "LSC"@);
            assert(trim("bq_lowshelf"@) == "bq_lowshelf"@);
            assert(folds_to("bq_lowshelf"@.take(3), "bq_"@));
            assert("bq_lowshelf"@.skip(3) =~= "lowshelf"@);
            assert(folds_to("lowshelf"@, "lowshelf"@));
            assert(folds_to("LSC"@, "lsc"@));
            assert("lowshelf"@.take(3)[0] == 'l');
            assert(fold("lowshelf"@.take(3)[0]) != "bq_"@[0]);
            assert(fold("LSC"@.take(3)[0]) != "bq_"@[0]);
        },
        BandType::Peaking => {
            assert(trim("peaking"@) == "peaking"@);
            assert(trim("PK"@) == "PK"@);
            assert(trim("bq_peaking"@) == "bq_peaking"@);
            assert(folds_to("bq_peaking"@.take(3), "bq_"@));
            assert("bq_peaking"@.skip(3) =~= "peaking"@);
            assert(folds_to("peaking"@, "peaking"@));
            assert(folds_to("PK"@, "pk"@));
            assert(fold("peaking"@.take(3)[0]) != "bq_"@[0]);
            assert(fold("PK"@[0]) != "ls"@[0]);
        },
        BandType::HighShelf => {
            assert(trim("highshelf"@) == "highshelf"@);
            assert(trim("HSC"@) == "HSC"@);
            assert(trim("bq_highshelf"@) == "bq_highshelf"@);
            assert(folds_to("bq_highshelf"@.take(3), "bq_"@));
            assert("bq_highshelf"@.skip(3) =~= "highshelf"@);
            assert(folds_to("highshelf"@, "highshelf"@));
            assert(folds_to("HSC"@, "hsc"@));
            assert(fold("highshelf"@.take(3)[0]) != "bq_"@[0]);
            assert(fold("HSC"@.take(3)[0]) != "bq_"@[0]);
            assert(fold("HSC"@[0]) != "lsc"@[0]);
            assert(fold("highshelf"@[0]) != "low_shelf"@[0]);
        },
    }
}

/// Upper bound on the number of bands of a profile that is built from external
/// data.
pub const MAX_BANDS: usize = 32;

/// 20 Hz, the lowest band frequency; also the highest quality factor.
pub const TWENTY: u64 = 0x4034_0000_0000_0000;

/// 20 kHz, the highest band frequency.
pub const TWENTY_THOUSAND: u64 = 0x40d3_8800_0000_0000;

/// 1000 Hz, the band frequency that stands for a missing one.
pub const THOUSAND: u64 = 0x408f_4000_0000_0000;

/// -24 dB, the lowest gain.
pub const GAIN_MIN: u64 = 0xc038_0000_0000_0000;

/// 24 dB, the highest gain.
pub const GAIN_MAX: u64 = 0x4038_0000_0000_0000;

/// 0.1, the lowest quality factor.
pub const Q_MIN: u64 = 0x3fb9_9999_9999_999a;

/// One.
pub const ONE: u64 = 0x3ff0_0000_0000_0000;

/// One half.
pub const HALF: u64 = 0x3fe0_0000_0000_0000;

/// 0.7, the quality factor of the bass shelf.
pub const BASS_Q: u64 = 0x3fe6_6666_6666_6666;

/// The frequency of the bass shelf, 105 Hz.
pub const BASS_FREQ: u64 = 0x405a_4000_0000_0000;

/// The frequency about which the tilt pivots, 1000 Hz.
pub const TILT_FREQ: u64 = 0x408f_4000_0000_0000;

/// One correction band: a single biquad, given by its shape, frequency, gain and
/// quality factor.
#[derive(Clone, Copy, Debug, PartialEq, Eq, Structural)]
pub struct FilterBand {
    /// The shape of the filter.
    pub kind: BandType,
    /// Centre (peaking) or corner (shelf) frequency, in Hz.
    pub frequency: Double,
    /// Gain in dB: positive boosts, negative cuts.
    pub gain: Double,
    /// Quality factor: bandwidth for peaking, slope for shelves.
    pub q: Double,
}

/// `v` within `low..=high`, or `fallback` where it is not finite.
pub open spec fn sane(v: Double, fallback: u64, low: u64, high: u64) -> Double {
    if v.finite() {
        v.clamped(double(low), double(high))
    } else {
        double(fallback)
    }
}

/// The band made of raw values.
pub open spec fn sane_band(kind: BandType, frequency: Double, gain: Double, q: Double) -> FilterBand {
    FilterBand {
        kind,
        frequency: sane(frequency, THOUSAND, TWENTY, TWENTY_THOUSAND),
        gain: sane(gain, 0, GAIN_MIN, GAIN_MAX),
        q: sane(q, ONE, Q_MIN, TWENTY),
    }
}

/// `low <= v <= high`.
pub open spec fn within(v: Double, low: u64, high: u64) -> bool {
    double(low).at_most(v) && v.at_most(double(high))
}

fn sanitize(v: Double, fallback: u64, low: u64, high: u64) -> (r: Double)
    requires
        double(low).at_most(double(high)),
    ensures
        r == sane(v, fallback, low, high),
{
    if v.is_finite() {
        v.clamp(Double { bits: low }, Double { bits: high })
    } else {
        Double { bits: fallback }
    }
}

impl FilterBand {
    /// Every value of the band is finite and in its range.
    pub open spec fn valid(self) -> bool {
        &&& within(self.frequency, TWENTY, TWENTY_THOUSAND)
        &&& within(self.gain, GAIN_MIN, GAIN_MAX)
        &&& within(self.q, Q_MIN, TWENTY)
    }

    pub open spec fn with_gain(self, gain: Double) -> FilterBand {
        FilterBand { gain, ..self }
    }

    /// A band of raw values. A value out of range is moved to the nearer bound, one
    /// that is not finite is replaced, so that nothing else reaches a filter.
    pub fn new(kind: BandType, frequency: Double, gain: Double, q: Double) -> (r: FilterBand)
        ensures
            r == sane_band(kind, frequency, gain, q),
            r.valid(),
    {
        FilterBand {
            kind,
            frequency: sanitize(frequency, THOUSAND, TWENTY, TWENTY_THOUSAND),
            gain: sanitize(gain, 0, GAIN_MIN, GAIN_MAX),
            q: sanitize(q, ONE, Q_MIN, TWENTY),
        }
    }

    /// The band with its gain scaled.
    pub fn scaled(&self, factor: Double) -> (r: FilterBand)
        ensures
            r == self.with_gain(self.gain.product(factor)),
    {
        FilterBand {
            kind: self.kind,
            frequency: self.frequency,
            gain: self.gain.times(factor),
            q: self.q,
        }
    }
}

/// What is in range is kept as it is.
pub proof fn law_sane_band_keeps_valid(b: FilterBand)
    requires
        b.valid(),
    ensures
        sane_band(b.kind, b.frequency, b.gain, b.q) == b,
{
}

/// The ranges of a valid band: 20 Hz to 20 kHz, -24 dB to 24 dB, and a quality
/// factor of at least the double nearest to 0.1 and at most 20.
pub proof fn law_valid_ranges(b: FilterBand)
    requires
        b.valid(),
    ensures
        b.frequency.finite(),
        b.gain.finite(),
        b.q.finite(),
        whole(20) <= b.frequency.value() <= whole(20000),
        whole(-24) <= b.gain.value() <= whole(24),
        whole(1) <= 10 * b.q.value(),
        b.q.value() <= whole(20),
{
    lemma_bounds();
    lemma_order(double(TWENTY), b.frequency);
    lemma_order(b.frequency, double(TWENTY_THOUSAND));
    lemma_order(double(GAIN_MIN), b.gain);
    lemma_order(b.gain, double(GAIN_MAX));
    lemma_order(double(Q_MIN), b.q);
    lemma_order(b.q, double(TWENTY));
}

/// The values of the range bounds, in units.
pub proof fn lemma_bounds()
    ensures
        double(TWENTY).value() == whole(20),
        double(TWENTY_THOUSAND).value() == whole(20000),
        double(THOUSAND).value() == whole(1000),
        double(GAIN_MIN).value() == whole(-24),
        double(GAIN_MAX).value() == whole(24),
        double(ONE).value() == whole(1),
        double(0).value() == 0,
        whole(1) <= 10 * double(Q_MIN).value() < whole(1) + 10 * pow2(1018),
{
    lemma2_to64();
    lemma2_to64_rest();
    lemma_value(TWENTY, 4, 5, 2);
    lemma_value(TWENTY_THOUSAND, 14, 625, 5);
    lemma_value(THOUSAND, 9, 125, 3);
    lemma_value(GAIN_MAX, 4, 3, 3);
    lemma_value(ONE, 0, 1, 0);
    lemma_units(0, 0);
    assert(GAIN_MIN == GAIN_MAX + SIGN);
    assert(GAIN_MIN % SIGN == GAIN_MAX);
    assert(whole(-24) == -whole(24)) by (nonlinear_arith);
    lemma_tenth();
}

/// The double nearest to 0.1 lies a little above it.
proof fn lemma_tenth()
    ensures
        whole(1) <= 10 * double(Q_MIN).value() < whole(1) + 10 * pow2(1018),
{
    // It is stored as 0x1999999999999a times 2^-56, which is 2^1018 units.
    let p = pow2(1018);
    lemma2_to64_rest();
    lemma_units(1018, 0x19_9999_9999_999a);
    assert(1018 * EXPONENT + 0x19_9999_9999_999a == Q_MIN);
    lemma_pow2_adds(56, 1018);
    lemma_pow2_pos(1018);
    assert(pow2(1074) == 0x100_0000_0000_0000 * p) by (nonlinear_arith)
        requires
            pow2(1074) == pow2(56) * p,
            pow2(56) == 0x100_0000_0000_0000,
    ;
    assert(10 * (0x19_9999_9999_999a * p) == 0x100_0000_0000_0000 * p + 4 * p) by (nonlinear_arith);
}

/// `bits` is the double of `n`, which is the odd number `odd` times `2^tz`.
proof fn lemma_value(bits: u64, log: nat, odd: nat, tz: nat)
    requires
        bits < SIGN,
        log <= 52,
        tz <= log,
        EXPONENT <= odd * pow2((52 - log + tz) as nat) < 2 * EXPONENT,
        bits == (1022 + log) * EXPONENT + odd * pow2((52 - log + tz) as nat),
    ensures
        double(bits).value() == whole((odd * pow2(tz)) as int),
{
    let v: int = (odd * pow2((52 - log + tz) as nat)) as int;
    lemma_units(1022 + log, v);
    lemma_pow2_adds((52 - log + tz) as nat, 1022 + log);
    lemma_pow2_adds(tz, 1074);
    let a = pow2((52 - log + tz) as nat);
    let b = pow2(1022 + log);
    let c = pow2(tz);
    let d = pow2(1074);
    assert((odd * a) * b == (odd * c) * d) by (nonlinear_arith)
        requires
            a * b == c * d,
    ;
}

/// A correction profile: a cascade of filter bands and a broadband preamp. It
/// applies to any output device.
#[derive(Debug)]
pub struct AudioProfile {
    /// Stable identifier; empty for imports.
    pub key: String,
    /// Display name.
    pub name: String,
    /// One-line description.
    pub detail: String,
    /// Who measured the device, where known.
    pub source: String,
    /// Form factor, such as `over-ear`.
    pub form: String,
    /// Broadband gain of the profile in dB, usually negative.
    pub preamp: Double,
    /// The filter bands, in the order in which they apply.
    pub bands: Vec<FilterBand>,
}

/// What a profile holds.
pub struct ProfileView {
    pub key: Seq<char>,
    pub name: Seq<char>,
    pub detail: Seq<char>,
    pub source: Seq<char>,
    pub form: Seq<char>,
    pub preamp: Double,
    pub bands: Seq<FilterBand>,
}

impl View for AudioProfile {
    type V = ProfileView;

    open spec fn view(&self) -> ProfileView {
        ProfileView {
            key: self.key@,
            name: self.name@,
            detail: self.detail@,
            source: self.source@,
            form: self.form@,
            preamp: self.preamp,
            bands: self.bands@,
        }
    }
}

impl ProfileView {
    /// Every number of the profile is finite and in its range, and the bands are
    /// not too many.
    pub open spec fn valid(self) -> bool {
        &&& within(self.preamp, GAIN_MIN, GAIN_MAX)
        &&& self.bands.len() <= MAX_BANDS
        &&& forall|i: int| 0 <= i < self.bands.len() ==> (#[trigger] self.bands[i]).valid()
    }

    /// No text of the profile is so long that it would be shortened.
    pub open spec fn short(self) -> bool {
        &&& short_text(self.key) == self.key
        &&& short_text(self.name) == self.name
        &&& short_text(self.detail) == self.detail
        &&& short_text(self.source) == self.source
        &&& short_text(self.form) == self.form
    }
}

impl Clone for AudioProfile {
    fn clone(&self) -> (r: AudioProfile)
        ensures
            r@ == self@,
    {
        AudioProfile {
            key: self.key.clone(),
            name: self.name.clone(),
            detail: self.detail.clone(),
            source: self.source.clone(),
            form: self.form.clone(),
            preamp: self.preamp,
            bands: copy_bands(&self.bands),
        }
    }
}

impl Default for AudioProfile {
    /// A profile without a name, without gain and without bands.
    fn default() -> (r: AudioProfile)
        ensures
            r@ == empty_profile(),
    {
        let r: AudioProfile = AudioProfile {
            key: String::new(),
            name: String::new(),
            detail: String::new(),
            source: String::new(),
            form: String::new(),
            preamp: Double { bits: 0 },
            bands: Vec::new(),
        };
        assert(r@.key =~= seq![]);
        assert(r@.bands =~= seq![]);
        r
    }
}

/// The profile that changes nothing.
pub open spec fn empty_profile() -> ProfileView {
    ProfileView {
        key: seq![],
        name: seq![],
        detail: seq![],
        source: seq![],
        form: seq![],
        preamp: double(0),
        bands: seq![],
    }
}

/// A copy of some bands.
pub fn copy_bands(bands: &Vec<FilterBand>) -> (r: Vec<FilterBand>)
    ensures
        r@ == bands@,
{
    let mut r: Vec<FilterBand> = Vec::new();
    for i in 0..bands.len()
        invariant
            r@ =~= bands@.take(i as int),
    {
        r.push(bands[i]);
    }
    assert(bands@.take(bands@.len() as int) =~= bands@);
    r
}

/// User adjustments on top of the correction of a profile.
#[derive(Clone, Copy, Debug, PartialEq, Eq, Structural)]
pub struct ToneSettings {
    /// Correction amount, from 0 (flat) to 1 (full).
    pub wet: Double,
    /// Gain of the bass shelf in dB, from -6 to 6.
    pub bass: Double,
    /// Spectral tilt in dB, from -6 to 6; bright when positive.
    pub tilt: Double,
    /// Attenuate so that no boost can clip.
    pub headroom: bool,
}

/// Full correction, no trim, headroom on.
pub open spec fn neutral_tone() -> ToneSettings {
    ToneSettings { wet: double(ONE), bass: double(0), tilt: double(0), headroom: true }
}

impl Default for ToneSettings {
    /// Full correction, no trim, headroom on.
    fn default() -> (r: ToneSettings)
        ensures
            r == neutral_tone(),
    {
        ToneSettings {
            wet: Double { bits: ONE },
            bass: Double { bits: 0 },
            tilt: Double { bits: 0 },
            headroom: true,
        }
    }
}

/// The longest text of a profile, in bytes of UTF-8.
pub const MAX_TEXT: usize = 256;

/// The bytes that a character takes in UTF-8.
pub open spec fn char_len(c: char) -> nat {
    let n = c as u32;
    if n < 0x80 {
        1
    } else if n < 0x800 {
        2
    } else if n < 0x10000 {
        3
    } else {
        4
    }
}

/// The bytes that a text takes in UTF-8.
pub open spec fn byte_len(s: Seq<char>) -> nat
    decreases s.len(),
{
    if s.len() == 0 {
        0
    } else {
        byte_len(s.drop_last()) + char_len(s.last())
    }
}

/// The longest start of `s` whose last character begins within the first 256 bytes.
pub open spec fn short_text(s: Seq<char>) -> Seq<char>
    decreases s.len(),
{
    if s.len() == 0 || byte_len(s.drop_last()) < MAX_TEXT {
        s
    } else {
        short_text(s.drop_last())
    }
}

pub fn width(c: char) -> (r: usize)
    ensures
        r == char_len(c),
        1 <= r <= 4,
{
    let n: u32 = c as u32;
    if n < 0x80 {
        1
    } else if n < 0x800 {
        2
    } else if n < 0x10000 {
        3
    } else {
        4
    }
}

pub proof fn lemma_byte_len_grows(s: Seq<char>, m: int, n: int)
    requires
        0 <= m <= n <= s.len(),
    ensures
        byte_len(s.take(m)) + (n - m) <= byte_len(s.take(n)),
    decreases n - m,
{
    if m < n {
        lemma_byte_len_grows(s, m, n - 1);
        assert(s.take(n).drop_last() =~= s.take(n - 1));
    }
}

proof fn lemma_short_text(s: Seq<char>, n: int, k: int)
    requires
        0 <= n <= k <= s.len(),
        n > 0 ==> byte_len(s.take(n - 1)) < MAX_TEXT,
        n < s.len() ==> byte_len(s.take(n)) >= MAX_TEXT,
        n < k ==> n < s.len(),
    ensures
        short_text(s.take(k)) == s.take(n),
    decreases k,
{
    if k == n {
        if n > 0 {
            assert(s.take(n).drop_last() =~= s.take(n - 1));
        }
    } else {
        assert(s.take(k).drop_last() =~= s.take(k - 1));
        lemma_byte_len_grows(s, n, k - 1);
        lemma_short_text(s, n, k - 1);
    }
}

/// A text of bounded length: the text itself, up to the character that crosses the
/// bound.
pub fn sane_str(s: &str) -> (r: String)
    ensures
        r@ == short_text(s@),
{
    let v: Vec<char> = chars_of(s);
    let mut n: usize = 0;
    let mut size: usize = 0;
    assert(v@.take(0) =~= Seq::<char>::empty());
    while n < v.len() && size < MAX_TEXT
        invariant
            n <= v@.len(),
            size == byte_len(v@.take(n as int)),
            size < MAX_TEXT + 4,
            n > 0 ==> byte_len(v@.take(n - 1)) < MAX_TEXT,
        decreases v@.len() - n,
    {
        assert(v@.take(n + 1).drop_last() =~= v@.take(n as int));
        size = size + width(v[n]);
        n = n + 1;
    }
    proof {
        lemma_short_text(v@, n as int, v@.len() as int);
        assert(v@.take(v@.len() as int) =~= v@);
        assert(v@.take(n as int) =~= v@.subrange(0, n as int));
    }
    text_of(&piece(&v, 0, n))
}

/// A shortened text is a start of the original, holds at most 256 characters, and
/// is not shortened again; a text of at most 256 bytes is kept whole.
pub proof fn law_short_text(s: Seq<char>)
    ensures
        short_text(s).len() <= MAX_TEXT,
        short_text(s).len() <= s.len(),
        short_text(s) == s.take(short_text(s).len() as int),
        short_text(short_text(s)) == short_text(s),
        byte_len(s) <= MAX_TEXT ==> short_text(s) == s,
    decreases s.len(),
{
    if s.len() == 0 || byte_len(s.drop_last()) < MAX_TEXT {
        assert(s.take(s.len() as int) =~= s);
        if s.len() > 0 {
            let t = s.drop_last();
            lemma_byte_len_grows(t, 0, t.len() as int);
            assert(t.take(t.len() as int) =~= t);
        }
    } else {
        law_short_text(s.drop_last());
        assert(s.drop_last().take(short_text(s).len() as int) =~= s.take(
            short_text(s).len() as int,
        ));
    }
}

/// A broadband gain within its range; none where it is not finite.
pub fn sane_preamp(db: Double) -> (r: Double)
    ensures
        r == sane(db, 0, GAIN_MIN, GAIN_MAX),
        within(r, GAIN_MIN, GAIN_MAX),
{
    sanitize(db, 0, GAIN_MIN, GAIN_MAX)
}

/// The bass shelf and the two mirrored shelves of the tilt.
pub open spec fn tone_shelves(tone: ToneSettings) -> Seq<FilterBand> {
    seq![
        sane_band(BandType::LowShelf, double(BASS_FREQ), tone.bass, double(BASS_Q)),
        sane_band(BandType::LowShelf, double(TILT_FREQ), tone.tilt.negated(), double(HALF)),
        sane_band(BandType::HighShelf, double(TILT_FREQ), tone.tilt, double(HALF)),
    ]
}

/// The bands of the tone layer, which are always present and do nothing at neutral
/// settings: a bass shelf, and a low and a high shelf of opposite gains that tilt
/// the spectrum about 1 kHz.
pub fn tone_bands(tone: &ToneSettings) -> (r: [FilterBand; 3])
    ensures
        r@ == tone_shelves(*tone),
{
    let r: [FilterBand; 3] = [
        FilterBand::new(
            BandType::LowShelf,
            Double { bits: BASS_FREQ },
            tone.bass,
            Double { bits: BASS_Q },
        ),
        FilterBand::new(
            BandType::LowShelf,
            Double { bits: TILT_FREQ },
            tone.tilt.neg(),
            Double { bits: HALF },
        ),
        FilterBand::new(
            BandType::HighShelf,
            Double { bits: TILT_FREQ },
            tone.tilt,
            Double { bits: HALF },
        ),
    ];
    assert(r@ =~= tone_shelves(*tone));
    r
}

/// The correction amount within its range.
pub open spec fn wet_amount(tone: ToneSettings) -> Double {
    tone.wet.clamped(double(0), double(ONE))
}

/// The correction bands scaled by the correction amount, then the tone shelves.
pub open spec fn effective(bands: Seq<FilterBand>, tone: ToneSettings) -> Seq<FilterBand> {
    Seq::new(
        bands.len(),
        |i: int| bands[i].with_gain(bands[i].gain.product(wet_amount(tone))),
    ) + tone_shelves(tone)
}

/// The bands that are in effect: the correction bands scaled by the correction
/// amount, followed by the tone shelves.
pub fn effective_bands(profile: &AudioProfile, tone: &ToneSettings) -> (r: Vec<FilterBand>)
    ensures
        r@ == effective(profile@.bands, *tone),
{
    let wet: Double = tone.wet.clamp(Double { bits: 0 }, Double { bits: ONE });
    let mut bands: Vec<FilterBand> = Vec::new();
    let ghost all = effective(profile@.bands, *tone);
    for i in 0..profile.bands.len()
        invariant
            wet == wet_amount(*tone),
            all == effective(profile@.bands, *tone),
            bands@ =~= all.take(i as int),
    {
        bands.push(profile.bands[i].scaled(wet));
    }
    let shelves: [FilterBand; 3] = tone_bands(tone);
    for i in 0..3
        invariant
            shelves@ == tone_shelves(*tone),
            all == effective(profile@.bands, *tone),
            bands@ =~= all.take(profile@.bands.len() + i),
    {
        bands.push(shelves[i]);
    }
    assert(bands@ =~= all);
    bands
}

/// The broadband gain ahead of the filters: with headroom the opposite of the
/// highest boost of the response, otherwise the preamp of the profile if that is
/// negative.
pub open spec fn pregain(preamp: Double, headroom: bool, peak: Double) -> Double {
    if headroom {
        peak.negated()
    } else {
        preamp.smaller(double(0))
    }
}

/// The broadband gain that the filter chain applies, given the highest boost of
/// its response; never positive, as long as that boost is not negative.
pub fn profile_preamp_db(profile: &AudioProfile, tone: &ToneSettings, peak: Double) -> (r: Double)
    ensures
        r == pregain(profile@.preamp, tone.headroom, peak),
        double(0).at_most(peak) ==> r.at_most(double(0)),
{
    if tone.headroom {
        peak.neg()
    } else {
        profile.preamp.min(Double { bits: 0 })
    }
}

} // verus!
