//! The ParametricEQ text format, read and written.
//!
//! Lines look like this:
//!
//! ```text
//! Preamp: -6.3 dB
//! Filter 1: ON LSC Fc 105 Hz Gain 6.5 dB Q 0.70
//! ```

use vstd::prelude::*;
use vstd::string::*;

use crate::decimal::{fixed, numeral, read, read_double, write_fixed, write_number};
use crate::double::{double, Double};
use crate::profile::{
    band_type, effective, effective_bands, pregain, profile_preamp_db, sane_band, within,
    AudioProfile, BandType, FilterBand, ProfileView, ToneSettings, GAIN_MAX, GAIN_MIN, MAX_BANDS,
};
use crate::text::{alike, alike_chars, chars_of, document, end_line, lines, one_line, piece, push_one_line, push_word, spaced, split_lines, split_words, text_of, trim, trim_start, trimmed, trimmed_start, views, words};

verus! {

/// The index of the first word that is `key`, in any case, or the number of words.
pub open spec fn key_index(words: Seq<Seq<char>>, key: Seq<char>) -> nat
    decreases words.len(),
{
    if words.len() == 0 || alike(words[0], key) {
        0
    } else {
        1 + key_index(words.drop_first(), key)
    }
}

/// The word right after the first `key`.
pub open spec fn word_after(words: Seq<Seq<char>>, key: Seq<char>) -> Option<Seq<char>> {
    let i = key_index(words, key) as int;
    if i + 1 < words.len() {
        Some(words[i + 1])
    } else {
        None
    }
}

/// The finite number right after the first `key`.
pub open spec fn number_after(words: Seq<Seq<char>>, key: Seq<char>) -> Option<Double> {
    match word_after(words, key) {
        Some(w) => finite_number(w),
        None => None,
    }
}

pub open spec fn finite_number(w: Seq<char>) -> Option<Double> {
    match read(w) {
        Some(v) => if v.finite() {
            Some(v)
        } else {
            None
        },
        None => None,
    }
}

/// The band of a filter line: of one that is on, of a known type, and with finite
/// numbers after `Fc`, `Gain` and `Q`.
pub open spec fn line_band(words: Seq<Seq<char>>) -> Option<FilterBand> {
    let kind = match word_after(words, "ON"@) {
        Some(w) => band_type(w),
        None => None,
    };
    match (
        kind,
        number_after(words, "Fc"@),
        number_after(words, "Gain"@),
        number_after(words, "Q"@),
    ) {
        (Some(kind), Some(fc), Some(gain), Some(q)) => Some(sane_band(kind, fc, gain, q)),
        _ => None,
    }
}

/// What a line makes of the preamp and the bands before it.
pub open spec fn eq_step(state: (Double, Seq<FilterBand>), line: Seq<char>) -> (
    Double,
    Seq<FilterBand>,
) {
    let w = words(line);
    if w.len() > 0 && alike(w[0], "Preamp:"@) {
        if w.len() > 1 && finite_number(w[1]) is Some {
            (
                finite_number(w[1])->0.clamped(double(GAIN_MIN), double(GAIN_MAX)),
                state.1,
            )
        } else {
            state
        }
    } else if w.len() > 0 && alike(w[0], "Filter"@) && state.1.len() < MAX_BANDS {
        match line_band(w) {
            Some(band) => (state.0, state.1.push(band)),
            None => state,
        }
    } else {
        state
    }
}

/// The preamp and the bands of some lines: the last valid preamp, or none, and the
/// bands of the filter lines, as far as they are not too many.
pub open spec fn eq_bands(lines: Seq<Seq<char>>) -> (Double, Seq<FilterBand>)
    decreases lines.len(),
{
    if lines.len() == 0 {
        (double(0), seq![])
    } else {
        eq_step(eq_bands(lines.drop_last()), lines.last())
    }
}

fn key_position(words: &Vec<Vec<char>>, key: &str) -> (r: usize)
    ensures
        r == key_index(views(words@), key@),
        r <= words@.len(),
{
    let mut i: usize = 0;
    let ghost all = views(words@);
    assert(all.skip(0) =~= all);
    while i < words.len() && !alike_chars(&words[i], key)
        invariant
            i <= words@.len(),
            all == views(words@),
            key_index(all, key@) == i + key_index(all.skip(i as int), key@),
        decreases words@.len() - i,
    {
        assert(all.skip(i as int).drop_first() =~= all.skip(i + 1));
        i = i + 1;
    }
    i
}

fn read_finite(w: &Vec<char>) -> (r: Option<Double>)
    ensures
        r == finite_number(w@),
{
    match read_double(w) {
        Some(v) => if v.is_finite() {
            Some(v)
        } else {
            None
        },
        None => None,
    }
}

/// The finite number right after the first `key`.
fn value_after(words: &Vec<Vec<char>>, key: &str) -> (r: Option<Double>)
    ensures
        r == number_after(views(words@), key@),
{
    let i: usize = key_position(words, key);
    if words.len() > 0 && i < words.len() - 1 {
        read_finite(&words[i + 1])
    } else {
        None
    }
}

fn read_line_band(words: &Vec<Vec<char>>) -> (r: Option<FilterBand>)
    ensures
        r == line_band(views(words@)),
        r matches Some(b) ==> b.valid(),
{
    let on: usize = key_position(words, "ON");
    let kind: Option<BandType> = if words.len() > 0 && on < words.len() - 1 {
        BandType::parse_chars(&words[on + 1])
    } else {
        None
    };
    match (kind, value_after(words, "Fc"), value_after(words, "Gain"), value_after(words, "Q")) {
        (Some(kind), Some(fc), Some(gain), Some(q)) => Some(FilterBand::new(kind, fc, gain, q)),
        _ => None,
    }
}

/// The preamp and the bands of a ParametricEQ text. Anything else is passed over:
/// a text without bands is a flat correction. Whatever the text holds, the numbers
/// are finite and in range and the bands are at most [`MAX_BANDS`].
pub fn parse_eq_bands(text: &str) -> (r: (Double, Vec<FilterBand>))
    ensures
        (r.0, r.1@) == eq_bands(lines(text@)),
        within(r.0, GAIN_MIN, GAIN_MAX),
        r.1@.len() <= MAX_BANDS,
        forall|i: int| 0 <= i < r.1@.len() ==> (#[trigger] r.1@[i]).valid(),
{
    let body: Vec<Vec<char>> = split_lines(&chars_of(text));
    let mut preamp: Double = Double { bits: 0 };
    let mut bands: Vec<FilterBand> = Vec::new();
    let ghost all = lines(text@);
    assert((preamp, bands@) == eq_bands(all.take(0)));
    for i in 0..body.len()
        invariant
            all == lines(text@),
            views(body@) == all,
            (preamp, bands@) == eq_bands(all.take(i as int)),
            within(preamp, GAIN_MIN, GAIN_MAX),
            bands@.len() <= MAX_BANDS,
            forall|i: int| 0 <= i < bands@.len() ==> (#[trigger] bands@[i]).valid(),
    {
        let tokens: Vec<Vec<char>> = split_words(&body[i]);
        proof {
            assert(all[i as int] == body@[i as int]@);
            assert(all.take(i + 1).drop_last() =~= all.take(i as int));
        }
        if tokens.len() > 0 && alike_chars(&tokens[0], "Preamp:") {
            if tokens.len() > 1 {
                if let Some(v) = read_finite(&tokens[1]) {
                    preamp = v.clamp(Double { bits: GAIN_MIN }, Double { bits: GAIN_MAX });
                }
            }
        } else if tokens.len() > 0 && alike_chars(&tokens[0], "Filter") && bands.len() < MAX_BANDS {
            if let Some(band) = read_line_band(&tokens) {
                bands.push(band);
            }
        }
    }
    assert(all.take(all.len() as int) =~= all);
    (preamp, bands)
}

/// The line begins with the word `preamp:`, in any case.
pub open spec fn preamp_line(line: Seq<char>) -> bool {
    let t = trim_start(line);
    t.len() >= 7 && alike(t.take(7), "preamp:"@)
}

/// The text holds a filter band or a preamp line.
pub open spec fn has_eq(text: Seq<char>) -> bool {
    eq_bands(lines(text)).1.len() > 0 || exists|i: int|
        0 <= i < lines(text).len() && preamp_line(#[trigger] lines(text)[i])
}

/// The profile of an imported text.
pub open spec fn imported(text: Seq<char>, name: Seq<char>) -> ProfileView {
    ProfileView {
        key: seq![],
        name: if trim(name).len() == 0 {
            "Imported profile"@
        } else {
            trim(name)
        },
        detail: "Imported ParametricEQ"@,
        source: seq![],
        form: seq![],
        preamp: eq_bands(lines(text)).0,
        bands: eq_bands(lines(text)).1,
    }
}

fn has_preamp(text: &str) -> (r: bool)
    ensures
        r == exists|i: int| 0 <= i < lines(text@).len() && preamp_line(#[trigger] lines(text@)[i]),
{
    let body: Vec<Vec<char>> = split_lines(&chars_of(text));
    for i in 0..body.len()
        invariant
            views(body@) == lines(text@),
            forall|j: int| 0 <= j < i ==> !preamp_line(#[trigger] lines(text@)[j]),
    {
        let t: Vec<char> = trimmed_start(&body[i]);
        assert(lines(text@)[i as int] == body@[i as int]@);
        if t.len() >= 7 {
            assert(t@.subrange(0, 7) =~= t@.take(7));
            if alike_chars(&piece(&t, 0, 7), "preamp:") {
                assert(preamp_line(lines(text@)[i as int]));
                return true;
            }
        }
    }
    false
}

/// The profile of a ParametricEQ text that holds at least a filter band or a
/// preamp, under the given name.
pub fn parse_parametric_eq(text: &str, name: &str) -> (r: Result<AudioProfile, String>)
    ensures
        r is Ok <==> has_eq(text@),
        r matches Ok(p) ==> p@ == imported(text@, name@) && p@.valid(),
        r matches Err(e) ==> e@
            == "No 'Filter N: ON PK/LSC/HSC …' lines were found in that file."@,
{
    let (preamp, bands) = parse_eq_bands(text);
    if bands.len() == 0 && !has_preamp(text) {
        return Err("No 'Filter N: ON PK/LSC/HSC …' lines were found in that file.".to_owned());
    }
    let label: Vec<char> = trimmed(&chars_of(name));
    let p: AudioProfile = AudioProfile {
        key: String::new(),
        name: if label.len() == 0 {
            "Imported profile".to_owned()
        } else {
            text_of(&label)
        },
        detail: "Imported ParametricEQ".to_owned(),
        source: String::new(),
        form: String::new(),
        preamp,
        bands,
    };
    assert(p@.key =~= seq![]);
    assert(p@ == imported(text@, name@));
    Ok(p)
}

/// The words of the filter line of a band.
pub open spec fn band_words(n: nat, band: FilterBand) -> Seq<Seq<char>> {
    seq![
        "Filter"@,
        numeral(n) + ":"@,
        "ON"@,
        band.kind.code(),
        "Fc"@,
        fixed(band.frequency, 0, false),
        "Hz"@,
        "Gain"@,
        fixed(band.gain, 1, false),
        "dB"@,
        "Q"@,
        fixed(band.q, 2, false),
    ]
}

/// The words of a preamp line.
pub open spec fn preamp_words(db: Double) -> Seq<Seq<char>> {
    seq!["Preamp:"@, fixed(db, 1, false), "dB"@]
}

/// The filter lines of some bands, numbered from one.
pub open spec fn band_lines(bands: Seq<FilterBand>) -> Seq<Seq<char>> {
    Seq::new(bands.len(), |i: int| spaced(band_words((i + 1) as nat, bands[i])))
}

/// The text of a profile without any tone layer.
pub open spec fn exported(profile: ProfileView) -> Seq<char> {
    document(
        seq!["# "@ + one_line(profile.name), spaced(preamp_words(profile.preamp))] + band_lines(
            profile.bands,
        ),
    )
}

/// Appends the filter line of a band.
fn push_band(r: &mut String, n: usize, band: &FilterBand)
    ensures
        final(r)@ == old(r)@ + spaced(band_words(n as nat, *band)) + seq!['\r', '\n'],
{
    let mut line: String = "Filter".to_owned();
    let mut number: String = write_number(n as u64);
    number.append(":");
    let ghost w = band_words(n as nat, *band);
    assert(spaced(w.take(1)) =~= line@);
    push_word(&mut line, &number, Ghost(w.take(1)));
    assert(w.take(1).push(number@) =~= w.take(2));
    push_word(&mut line, "ON", Ghost(w.take(2)));
    assert(w.take(2).push("ON"@) =~= w.take(3));
    push_word(&mut line, band.kind.eq_code(), Ghost(w.take(3)));
    assert(w.take(3).push(band.kind.code()) =~= w.take(4));
    push_word(&mut line, "Fc", Ghost(w.take(4)));
    assert(w.take(4).push("Fc"@) =~= w.take(5));
    push_word(&mut line, &write_fixed(band.frequency, 0, false), Ghost(w.take(5)));
    assert(w.take(5).push(fixed(band.frequency, 0, false)) =~= w.take(6));
    push_word(&mut line, "Hz", Ghost(w.take(6)));
    assert(w.take(6).push("Hz"@) =~= w.take(7));
    push_word(&mut line, "Gain", Ghost(w.take(7)));
    assert(w.take(7).push("Gain"@) =~= w.take(8));
    push_word(&mut line, &write_fixed(band.gain, 1, false), Ghost(w.take(8)));
    assert(w.take(8).push(fixed(band.gain, 1, false)) =~= w.take(9));
    push_word(&mut line, "dB", Ghost(w.take(9)));
    assert(w.take(9).push("dB"@) =~= w.take(10));
    push_word(&mut line, "Q", Ghost(w.take(10)));
    assert(w.take(10).push("Q"@) =~= w.take(11));
    push_word(&mut line, &write_fixed(band.q, 2, false), Ghost(w.take(11)));
    assert(w.take(11).push(fixed(band.q, 2, false)) =~= w);
    r.append(&line);
    end_line(r);
}

/// Appends a preamp line.
fn push_preamp(r: &mut String, db: Double)
    ensures
        final(r)@ == old(r)@ + spaced(preamp_words(db)) + seq!['\r', '\n'],
{
    let mut line: String = "Preamp:".to_owned();
    let ghost w = preamp_words(db);
    assert(spaced(w.take(1)) =~= line@);
    push_word(&mut line, &write_fixed(db, 1, false), Ghost(w.take(1)));
    assert(w.take(1).push(fixed(db, 1, false)) =~= w.take(2));
    push_word(&mut line, "dB", Ghost(w.take(2)));
    assert(w.take(2).push("dB"@) =~= w);
    r.append(&line);
    end_line(r);
}

/// Appends a comment that names a profile.
fn push_comment(r: &mut String, prefix: &str, name: &str)
    ensures
        final(r)@ == old(r)@ + (prefix@ + one_line(name@)) + seq!['\r', '\n'],
{
    let ghost head = r@;
    r.append(prefix);
    push_one_line(r, name);
    assert(r@ =~= head + (prefix@ + one_line(name@)));
    end_line(r);
}

proof fn lemma_document_push(lines: Seq<Seq<char>>, line: Seq<char>)
    ensures
        document(lines.push(line)) == document(lines) + line + seq!['\r', '\n'],
{
    assert(lines.push(line).drop_last() =~= lines);
}

/// The text of a profile, without any tone layer: what an export writes and an
/// import reads back.
pub fn profile_to_parametric_eq(profile: &AudioProfile) -> (r: String)
    ensures
        r@ == exported(profile@),
{
    let mut r: String = String::new();
    let ghost head = seq!["# "@ + one_line(profile@.name), spaced(preamp_words(profile@.preamp))];
    let ghost first = seq!["# "@ + one_line(profile@.name)];
    let ghost tail = band_lines(profile@.bands);
    push_comment(&mut r, "# ", &profile.name);
    push_preamp(&mut r, profile.preamp);
    proof {
        assert(first =~= Seq::<Seq<char>>::empty().push("# "@ + one_line(profile@.name)));
        lemma_document_push(Seq::empty(), "# "@ + one_line(profile@.name));
        lemma_document_push(first, spaced(preamp_words(profile@.preamp)));
        assert(first.push(spaced(preamp_words(profile@.preamp))) =~= head);
        assert(head + tail.take(0) =~= head);
        assert(document(Seq::<Seq<char>>::empty()) =~= seq![]);
        assert(r@ =~= document(head));
    }
    for i in 0..profile.bands.len()
        invariant
            tail == band_lines(profile@.bands),
            r@ == document(head + tail.take(i as int)),
    {
        push_band(&mut r, i + 1, &profile.bands[i]);
        proof {
            lemma_document_push(head + tail.take(i as int), tail[i as int]);
            assert((head + tail.take(i as int)).push(tail[i as int]) =~= head + tail.take(i + 1));
        }
    }
    assert(head + tail.take(tail.len() as int) =~= head + tail);
    r
}

/// 0.05 dB: a band with a lesser gain is left out.
pub const NEAR_ZERO: u64 = 0x3fa9_9999_9999_999a;

/// The bands whose gain is not next to nothing.
pub open spec fn audible(bands: Seq<FilterBand>) -> Seq<FilterBand>
    decreases bands.len(),
{
    if bands.len() == 0 {
        seq![]
    } else {
        let before = audible(bands.drop_last());
        if bands.last().gain.absolute().less(double(NEAR_ZERO)) {
            before
        } else {
            before.push(bands.last())
        }
    }
}

/// The text of a profile with the tone layer, given the highest boost of the
/// response.
pub open spec fn rendered(profile: ProfileView, tone: ToneSettings, peak: Double) -> Seq<char> {
    document(
        seq![
            "# Generated by ADtune — overwritten when a profile is applied."@,
            "# Profile: "@ + one_line(profile.name),
            spaced(preamp_words(pregain(profile.preamp, tone.headroom, peak))),
        ] + band_lines(audible(effective(profile.bands, tone))),
    )
}

/// The text of a profile with the tone layer: the correction scaled by its amount
/// and the tone shelves, less the bands that do next to nothing. `peak` is the
/// highest boost of the response of [`effective_bands`].
pub fn render_parametric_eq(profile: &AudioProfile, tone: &ToneSettings, peak: Double) -> (r: String)
    ensures
        r@ == rendered(profile@, *tone, peak),
{
    let before: Double = profile_preamp_db(profile, tone, peak);
    let mut r: String = String::new();
    r.append("# Generated by ADtune — overwritten when a profile is applied.");
    end_line(&mut r);
    push_comment(&mut r, "# Profile: ", &profile.name);
    push_preamp(&mut r, before);
    let ghost a = "# Generated by ADtune — overwritten when a profile is applied."@;
    let ghost b = "# Profile: "@ + one_line(profile@.name);
    let ghost c = spaced(preamp_words(before));
    let ghost head = seq![a, b, c];
    let bands: Vec<FilterBand> = effective_bands(profile, tone);
    proof {
        lemma_document_push(Seq::empty(), a);
        lemma_document_push(seq![a], b);
        lemma_document_push(seq![a, b], c);
        assert(Seq::<Seq<char>>::empty().push(a) =~= seq![a]);
        assert(seq![a].push(b) =~= seq![a, b]);
        assert(seq![a, b].push(c) =~= head);
        assert(document(Seq::<Seq<char>>::empty()) =~= seq![]);
        assert(r@ =~= document(head));
        assert(head + band_lines(audible(bands@.take(0))) =~= head);
    }
    let mut n: usize = 0;
    for i in 0..bands.len()
        invariant
            n <= i,
            n == audible(bands@.take(i as int)).len(),
            r@ == document(head + band_lines(audible(bands@.take(i as int)))),
    {
        let band: FilterBand = bands[i];
        assert(bands@.take(i + 1).drop_last() =~= bands@.take(i as int));
        if !band.gain.abs().lt(&Double { bits: NEAR_ZERO }) {
            push_band(&mut r, n + 1, &band);
            proof {
                let kept = audible(bands@.take(i as int));
                let line = spaced(band_words((n + 1) as nat, band));
                lemma_document_push(head + band_lines(kept), line);
                assert((head + band_lines(kept)).push(line) =~= head + band_lines(kept.push(band)));
            }
            n = n + 1;
        }
    }
    assert(bands@.take(bands@.len() as int) =~= bands@);
    r
}

} // verus!
