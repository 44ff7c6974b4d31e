//! Importing a ParametricEQ text: what each line makes of the profile.

use vstd::prelude::*;
use vstd::arithmetic::power2::pow2;

use crate::decimal::{
    all_digits, decimal, digit, digits_value, lemma_magnitude_of, minus, nearest_decimal, read,
    signed, ten, unsigned,
};
use crate::double::{double, lemma_order, whole, Double};
use crate::laws::text::{law_line_alone, law_lines_part};
use crate::parametric_eq::{
    eq_bands, eq_step, has_eq, imported, key_index, line_band, preamp_line, word_after,
};
use crate::profile::{
    band_type, lemma_bounds, sane_band, BandType, FilterBand, GAIN_MAX, GAIN_MIN, Q_MIN,
};
use crate::rounding::nearest;
use crate::round_trip::unbroken;
use crate::text::{alike, lemma_position, lines, lower, position, trim, words};

verus! {

/// A decimal number as it is written: a sign or none, digits, and a point with more digits or
/// none, and a power of ten or none.
pub struct Written {
    pub sign: Option<char>,
    pub before: Seq<char>,
    pub after: Option<Seq<char>>,
    pub power: Option<(bool, Seq<char>)>,
}

impl Written {
    /// The digits behind the point.
    pub open spec fn fraction(self) -> Seq<char> {
        match self.after {
            Some(d) => d,
            None => seq![],
        }
    }

    /// There are digits, and nothing but digits where digits belong.
    pub open spec fn sound(self) -> bool {
        &&& self.sign is None || self.sign == Some('+') || self.sign == Some('-')
        &&& all_digits(self.before)
        &&& all_digits(self.fraction())
        &&& self.before.len() + self.fraction().len() > 0
        &&& self.power matches Some((_, d)) ==> d.len() > 0 && all_digits(d)
    }

    pub open spec fn body(self) -> Seq<char> {
        match self.after {
            Some(d) => self.before + seq!['.'] + d,
            None => self.before,
        }
    }

    pub open spec fn unsigned_text(self) -> Seq<char> {
        match self.power {
            Some((negative, d)) => self.body() + seq!['e'] + (if negative {
                seq!['-']
            } else {
                seq![]
            }) + d,
            None => self.body(),
        }
    }

    /// The characters.
    pub open spec fn text(self) -> Seq<char> {
        match self.sign {
            Some(c) => seq![c] + self.unsigned_text(),
            None => self.unsigned_text(),
        }
    }

    /// The power of ten by which all the digits count.
    pub open spec fn exponent(self) -> int {
        (match self.power {
            Some((negative, d)) => if negative {
                -digits_value(d)
            } else {
                digits_value(d) as int
            },
            None => 0int,
        }) - self.fraction().len()
    }

    /// `v` is the double nearest to the number.
    pub open spec fn means(self, v: Double) -> bool {
        let digits = digits_value(self.before + self.fraction());
        let e = self.exponent();
        &&& v.negative() == (self.sign == Some('-'))
        &&& e >= 0 ==> nearest(digits * pow2(1074) * ten(e as nat), 1, v.magnitude())
        &&& e < 0 ==> nearest(digits * pow2(1074), ten((-e) as nat), v.magnitude())
    }
}

proof fn lemma_body(w: Written)
    requires
        w.sound(),
    ensures
        w.body().len() > 0,
        forall|i: int|
            0 <= i < w.body().len() ==> digit(#[trigger] w.body()[i]) || w.body()[i] == '.',
        w.unsigned_text().len() > 0,
        digit(w.unsigned_text()[0]) || w.unsigned_text()[0] == '.',
{
    let b = w.body();
    assert forall|i: int| 0 <= i < b.len() implies digit(#[trigger] b[i]) || b[i] == '.' by {
        if i < w.before.len() {
            assert(b[i] == w.before[i]);
            assert(digit(w.before[i]));
        } else if i > w.before.len() {
            assert(b[i] == w.fraction()[i - w.before.len() - 1]);
            assert(digit(w.fraction()[i - w.before.len() - 1]));
        }
    }
    assert(w.unsigned_text()[0] == b[0]);
}

proof fn lemma_decimal(w: Written)
    requires
        w.sound(),
    ensures
        decimal(w.unsigned_text()) == Some((
            digits_value(w.before + w.fraction()),
            w.exponent(),
        )),
{
    let t = w.unsigned_text();
    let b = w.body();
    lemma_body(w);
    let n: int = b.len() as int;
    assert forall|i: int| 0 <= i < n implies !seq!['e', 'E'].contains(t[i]) by {
        assert(t[i] == b[i]);
        assert(digit(b[i]) || b[i] == '.');
    }
    if w.power is Some {
        assert(t[n] == 'e');
        assert(seq!['e', 'E'][0] == 'e');
        assert(seq!['e', 'E'].contains(t[n]));
    }
    lemma_position(t, seq!['e', 'E'], n);
    assert(t.take(n) =~= b);
    let p: int = w.before.len() as int;
    assert forall|i: int| 0 <= i < p implies !seq!['.'].contains(b[i]) by {
        assert(b[i] == w.before[i]);
        assert(digit(w.before[i]));
    }
    if w.after is Some {
        assert(b[p] == '.');
        assert(seq!['.'][0] == '.');
        assert(seq!['.'].contains(b[p]));
    }
    lemma_position(b, seq!['.'], p);
    assert(b.take(p) =~= w.before);
    if w.after is Some {
        assert(b.skip(p + 1) =~= w.fraction());
    } else {
        assert(w.fraction() =~= seq![]);
    }
    match w.power {
        Some((negative, d)) => {
            let power = t.skip(n + 1);
            if negative {
                assert(power =~= seq!['-'] + d);
                assert(power[0] == '-');
                assert(power.drop_first() =~= d);
            } else {
                assert(power =~= d);
                assert(digit(d[0]));
            }
            assert(unsigned(power) == d);
            assert(minus(power) == negative);
        },
        None => {
            let zero = seq!['0'];
            assert(unsigned(zero) == zero);
            assert(zero.drop_last() =~= seq![]);
            assert(digits_value(zero.drop_last()) == 0);
            assert(digits_value(zero) == 0);
            assert(all_digits(zero));
        },
    }
}

/// Every decimal number is read as the double nearest to it, with its sign, whatever the number
/// of its digits before and behind the point.
pub proof fn law_decimals_are_read(w: Written, v: Double)
    requires
        w.sound(),
        w.means(v),
    ensures
        read(w.text()) == Some(v),
{
    let s = w.text();
    let t = w.unsigned_text();
    lemma_body(w);
    lemma_decimal(w);
    reveal_strlit("inf");
    reveal_strlit("infinity");
    reveal_strlit("nan");
    if w.sign is Some {
        assert(s[0] == w.sign->0);
        assert(s.drop_first() =~= t);
    } else {
        assert(s[0] == t[0]);
    }
    assert(unsigned(s) == t);
    assert(minus(s) == (w.sign == Some('-')));
    let c = t[0];
    assert(lower(c) == c);
    assert(!alike(t, "inf"@)) by {
        assert(lower("inf"@[0]) == 'i');
        assert(lower(t[0]) == c);
    }
    assert(!alike(t, "infinity"@)) by {
        assert(lower("infinity"@[0]) == 'i');
        assert(lower(t[0]) == c);
    }
    assert(!alike(t, "nan"@)) by {
        assert(lower("nan"@[0]) == 'n');
        assert(lower(t[0]) == c);
    }
    let digits = digits_value(w.before + w.fraction());
    assert(nearest_decimal(digits, w.exponent(), v.magnitude()));
    lemma_magnitude_of(digits, w.exponent(), v.magnitude());
    assert(signed(v.negative(), v.magnitude()) == v);
}

proof fn lemma_lines_append(text: Seq<char>, rest: Seq<char>)
    requires
        text.len() == 0 || text.last() == '\n',
    ensures
        lines(text + rest) == lines(text) + lines(rest),
    decreases text.len(),
{
    if text.len() == 0 {
        assert(text + rest =~= rest);
        assert(lines(text) =~= seq![]);
        assert(lines(text) + lines(rest) =~= lines(rest));
    } else {
        let n = position(text, seq!['\n']) as int;
        lemma_position_found(text);
        let a = text.take(n);
        let b = text.skip(n + 1);
        let s = text + rest;
        assert forall|i: int| 0 <= i < n implies !seq!['\n'].contains(s[i]) by {
            assert(s[i] == text[i]);
        }
        assert(s[n] == text[n]);
        lemma_position(s, seq!['\n'], n);
        assert(s.take(n) =~= a);
        assert(s.skip(n + 1) =~= b + rest);
        if b.len() > 0 {
            assert(b.last() == text.last());
        }
        lemma_lines_append(b, rest);
        assert(lines(s) =~= lines(text) + lines(rest));
    }
}

proof fn lemma_position_found(text: Seq<char>)
    requires
        text.len() > 0,
        text.last() == '\n',
    ensures
        position(text, seq!['\n']) < text.len(),
        seq!['\n'].contains(text[position(text, seq!['\n']) as int]),
        forall|i: int| 0 <= i < position(text, seq!['\n']) ==> !seq!['\n'].contains(text[i]),
    decreases text.len(),
{
    assert(seq!['\n'][0] == '\n');
    if !seq!['\n'].contains(text[0]) {
        let t = text.drop_first();
        assert(text.len() > 1);
        assert(t.last() == text.last());
        lemma_position_found(t);
        let n = position(text, seq!['\n']) as int;
        assert(text[n] == t[n - 1]);
        assert forall|i: int| 0 <= i < n implies !seq!['\n'].contains(text[i]) by {
            if i > 0 {
                assert(text[i] == t[i - 1]);
            }
        }
    }
}

/// A line at the end of a text: what comes before it ends in a line feed, and so does it.
pub open spec fn last_line(text: Seq<char>, line: Seq<char>) -> bool {
    &&& text.len() == 0 || text.last() == '\n'
    &&& unbroken(line)
    &&& line.len() > 0 ==> line.last() != '\r'
}

proof fn lemma_last_line(text: Seq<char>, line: Seq<char>)
    requires
        last_line(text, line),
    ensures
        lines(text + (line + seq!['\n'])) == lines(text).push(line),
        eq_bands(lines(text + (line + seq!['\n']))) == eq_step(eq_bands(lines(text)), line),
{
    lemma_lines_append(text, line + seq!['\n']);
    law_lines_part(line, seq![]);
    assert(line + seq!['\n'] + seq![] =~= line + seq!['\n']);
    law_line_alone(seq![]);
    assert(seq![line] + lines(Seq::<char>::empty()) =~= seq![line]);
    assert(lines(text + (line + seq!['\n'])) =~= lines(text).push(line));
    assert(lines(text).push(line).drop_last() =~= lines(text));
}

/// The words of a filter line that is on. The words that are always the same may be in any case.
pub open spec fn filter_words(
    w: Seq<Seq<char>>,
    code: Seq<char>,
    f: Written,
    g: Written,
    q: Written,
) -> bool {
    &&& w.len() == 12
    &&& alike(w[0], "Filter"@)
    &&& w[1].len() > 0 && w[1].last() == ':'
    &&& alike(w[2], "ON"@)
    &&& w[3] == code
    &&& alike(w[4], "Fc"@)
    &&& w[5] == f.text()
    &&& alike(w[6], "Hz"@)
    &&& alike(w[7], "Gain"@)
    &&& w[8] == g.text()
    &&& alike(w[9], "dB"@)
    &&& alike(w[10], "Q"@)
    &&& w[11] == q.text()
}

/// A code of the format stands for a type of band.
pub open spec fn codes(code: Seq<char>, kind: BandType) -> bool {
    match kind {
        BandType::LowShelf => code == "LSC"@,
        BandType::Peaking => code == "PK"@,
        BandType::HighShelf => code == "HSC"@,
    }
}

proof fn lemma_not_alike(a: Seq<char>, b: Seq<char>)
    requires
        a.len() != b.len() || (a.len() > 0 && (lower(a[0]) != lower(b[0]) || lower(a.last())
            != lower(b.last()))),
    ensures
        !alike(a, b),
{
    if a.len() == b.len() && a.len() > 0 && alike(a, b) {
        assert(lower(a[0]) == lower(b[0]));
        assert(lower(a[a.len() - 1]) == lower(b[a.len() - 1]));
    }
}

proof fn lemma_alike_ends(a: Seq<char>, b: Seq<char>)
    requires
        alike(a, b),
        a.len() > 0,
    ensures
        a.len() == b.len(),
        lower(a[0]) == lower(b[0]),
        lower(a.last()) == lower(b.last()),
{
    assert(lower(a[0]) == lower(b[0]));
    assert(lower(a[a.len() - 1]) == lower(b[a.len() - 1]));
}

proof fn lemma_key_at(ws: Seq<Seq<char>>, key: Seq<char>, n: int)
    requires
        0 <= n < ws.len(),
        forall|i: int| 0 <= i < n ==> !alike(#[trigger] ws[i], key),
        alike(ws[n], key),
    ensures
        key_index(ws, key) == n,
    decreases n,
{
    if n > 0 {
        assert(!alike(ws[0], key));
        let rest = ws.drop_first();
        assert forall|i: int| 0 <= i < n - 1 implies !alike(#[trigger] rest[i], key) by {
            assert(!alike(ws[i + 1], key));
        }
        lemma_key_at(rest, key, n - 1);
    }
}

proof fn lemma_no_key(ws: Seq<Seq<char>>, key: Seq<char>)
    requires
        forall|i: int| 0 <= i < ws.len() ==> !alike(#[trigger] ws[i], key),
    ensures
        key_index(ws, key) == ws.len(),
    decreases ws.len(),
{
    if ws.len() > 0 {
        assert(!alike(ws[0], key));
        let rest = ws.drop_first();
        assert forall|i: int| 0 <= i < rest.len() implies !alike(#[trigger] rest[i], key) by {
            assert(!alike(ws[i + 1], key));
        }
        lemma_no_key(rest, key);
    }
}

/// A word of a number begins with a digit, a sign or a point.
proof fn lemma_numeral_start(w: Written)
    requires
        w.sound(),
    ensures
        w.text().len() > 0,
        ({
            let c = w.text()[0];
            digit(c) || c == '.' || c == '+' || c == '-'
        }),
{
    lemma_body(w);
}

/// The first and last letters of the words of a filter line, in lower case.
spec fn shape(w: Seq<Seq<char>>) -> bool {
    &&& w.len() == 12
    &&& w[0].len() == 6 && lower(w[0][0]) == 'f' && lower(w[0].last()) == 'r'
    &&& w[1].len() > 0 && lower(w[1].last()) == ':'
    &&& w[2].len() == 2 && lower(w[2][0]) == 'o'
    &&& w[3].len() >= 2 && (w[3][0] == 'L' || w[3][0] == 'P' || w[3][0] == 'H')
    &&& w[4].len() == 2 && lower(w[4][0]) == 'f'
    &&& w[5].len() > 0 && (digit(w[5][0]) || w[5][0] == '.' || w[5][0] == '+' || w[5][0] == '-')
    &&& w[6].len() == 2 && lower(w[6][0]) == 'h'
    &&& w[7].len() == 4 && lower(w[7][0]) == 'g'
    &&& w[8].len() > 0 && (digit(w[8][0]) || w[8][0] == '.' || w[8][0] == '+' || w[8][0] == '-')
    &&& w[9].len() == 2 && lower(w[9][0]) == 'd'
    &&& w[10].len() == 1 && lower(w[10][0]) == 'q'
}

proof fn lemma_shape(w: Seq<Seq<char>>, kind: BandType, f: Written, g: Written, q: Written)
    requires
        filter_words(w, w[3], f, g, q),
        codes(w[3], kind),
        f.sound(),
        g.sound(),
    ensures
        shape(w),
{
    reveal_strlit("Filter");
    reveal_strlit("ON");
    reveal_strlit("Fc");
    reveal_strlit("Hz");
    reveal_strlit("Gain");
    reveal_strlit("dB");
    reveal_strlit("Q");
    reveal_strlit("LSC");
    reveal_strlit("PK");
    reveal_strlit("HSC");
    lemma_alike_ends(w[0], "Filter"@);
    lemma_alike_ends(w[2], "ON"@);
    lemma_alike_ends(w[4], "Fc"@);
    lemma_alike_ends(w[6], "Hz"@);
    lemma_alike_ends(w[7], "Gain"@);
    lemma_alike_ends(w[9], "dB"@);
    lemma_alike_ends(w[10], "Q"@);
    lemma_numeral_start(f);
    lemma_numeral_start(g);
}

proof fn lemma_on(w: Seq<Seq<char>>)
    requires
        shape(w),
        alike(w[2], "ON"@),
    ensures
        word_after(w, "ON"@) == Some(w[3]),
{
    reveal_strlit("ON");
    lemma_not_alike(w[0], "ON"@);
    lemma_not_alike(w[1], "ON"@);
    lemma_key_at(w, "ON"@, 2);
}

proof fn lemma_fc(w: Seq<Seq<char>>)
    requires
        shape(w),
        alike(w[4], "Fc"@),
    ensures
        word_after(w, "Fc"@) == Some(w[5]),
{
    reveal_strlit("Fc");
    lemma_not_alike(w[0], "Fc"@);
    lemma_not_alike(w[1], "Fc"@);
    lemma_not_alike(w[2], "Fc"@);
    lemma_not_alike(w[3], "Fc"@);
    lemma_key_at(w, "Fc"@, 4);
}

proof fn lemma_gain(w: Seq<Seq<char>>)
    requires
        shape(w),
        alike(w[7], "Gain"@),
    ensures
        word_after(w, "Gain"@) == Some(w[8]),
{
    reveal_strlit("Gain");
    lemma_not_alike(w[0], "Gain"@);
    lemma_not_alike(w[1], "Gain"@);
    lemma_not_alike(w[2], "Gain"@);
    lemma_not_alike(w[3], "Gain"@);
    lemma_not_alike(w[4], "Gain"@);
    lemma_not_alike(w[5], "Gain"@);
    lemma_not_alike(w[6], "Gain"@);
    lemma_key_at(w, "Gain"@, 7);
}

proof fn lemma_q(w: Seq<Seq<char>>)
    requires
        shape(w),
        alike(w[10], "Q"@),
    ensures
        word_after(w, "Q"@) == Some(w[11]),
{
    reveal_strlit("Q");
    lemma_not_alike(w[0], "Q"@);
    lemma_not_alike(w[1], "Q"@);
    lemma_not_alike(w[2], "Q"@);
    lemma_not_alike(w[3], "Q"@);
    lemma_not_alike(w[4], "Q"@);
    lemma_not_alike(w[5], "Q"@);
    lemma_not_alike(w[6], "Q"@);
    lemma_not_alike(w[7], "Q"@);
    lemma_not_alike(w[8], "Q"@);
    lemma_not_alike(w[9], "Q"@);
    lemma_key_at(w, "Q"@, 10);
}

proof fn lemma_filter_band(
    w: Seq<Seq<char>>,
    kind: BandType,
    f: Written,
    g: Written,
    q: Written,
    frequency: Double,
    gain: Double,
    quality: Double,
)
    requires
        filter_words(w, w[3], f, g, q),
        codes(w[3], kind),
        f.sound() && f.means(frequency) && frequency.finite(),
        g.sound() && g.means(gain) && gain.finite(),
        q.sound() && q.means(quality) && quality.finite(),
    ensures
        line_band(w) == Some(sane_band(kind, frequency, gain, quality)),
        alike(w[0], "Filter"@),
        !alike(w[0], "Preamp:"@),
{
    lemma_shape(w, kind, f, g, q);
    lemma_on(w);
    lemma_fc(w);
    lemma_gain(w);
    lemma_q(w);
    law_decimals_are_read(f, frequency);
    law_decimals_are_read(g, gain);
    law_decimals_are_read(q, quality);
    crate::profile::law_spellings_read_back(kind);
    assert(w[3] == kind.code());
    reveal_strlit("Preamp:");
    lemma_not_alike(w[0], "Preamp:"@);
}

/// A filter line that is on adds one band, of the type of its code and with the numbers that it
/// gives, each as the double nearest to it: with a point or without, with a sign or without. The
/// bands before it and the preamp stay as they are. A number out of range becomes the nearer end
/// of the range: 20 Hz to 20 kHz, -24 dB to 24 dB, and up to a quality factor of 20.
pub proof fn law_filter_line_adds_its_band(
    text: Seq<char>,
    line: Seq<char>,
    name: Seq<char>,
    kind: BandType,
    f: Written,
    g: Written,
    q: Written,
    frequency: Double,
    gain: Double,
    quality: Double,
)
    requires
        last_line(text, line),
        imported(text, name).bands.len() < 32,
        words(line).len() == 12,
        filter_words(words(line), words(line)[3], f, g, q),
        codes(words(line)[3], kind),
        f.sound() && f.means(frequency) && frequency.finite(),
        g.sound() && g.means(gain) && gain.finite(),
        q.sound() && q.means(quality) && quality.finite(),
    ensures
        ({
            let before = imported(text, name);
            let after = imported(text + (line + seq!['\n']), name);
            let b = after.bands.last();
            &&& has_eq(text + (line + seq!['\n']))
            &&& after.bands.len() == before.bands.len() + 1
            &&& after.bands.drop_last() == before.bands
            &&& after.preamp == before.preamp
            &&& b.kind == kind
            &&& whole(20) <= frequency.value() <= whole(20000) ==> b.frequency == frequency
            &&& frequency.value() < whole(20) ==> b.frequency.value() == whole(20)
            &&& frequency.value() > whole(20000) ==> b.frequency.value() == whole(20000)
            &&& whole(-24) <= gain.value() <= whole(24) ==> b.gain == gain
            &&& gain.value() < whole(-24) ==> b.gain.value() == whole(-24)
            &&& gain.value() > whole(24) ==> b.gain.value() == whole(24)
            &&& double(Q_MIN).value() <= quality.value() <= whole(20) ==> b.q == quality
            &&& quality.value() < double(Q_MIN).value() ==> b.q == double(Q_MIN)
            &&& quality.value() > whole(20) ==> b.q.value() == whole(20)
        }),
{
    let state = eq_bands(lines(text));
    let w = words(line);
    lemma_last_line(text, line);
    lemma_filter_band(w, kind, f, g, q, frequency, gain, quality);
    let b = sane_band(kind, frequency, gain, quality);
    let after = imported(text + (line + seq!['\n']), name);
    assert(after.bands == state.1.push(b));
    assert(state.1.push(b).drop_last() =~= state.1);
    crate::laws::stored::law_band_stays_in_range(kind, frequency, gain, quality);
}

/// A preamp line gives the preamp, as the double nearest to its number, within 24 dB; it takes
/// the place of an earlier one. The bands stay as they are.
pub proof fn law_preamp_line_sets_the_preamp(
    text: Seq<char>,
    line: Seq<char>,
    name: Seq<char>,
    g: Written,
    gain: Double,
)
    requires
        last_line(text, line),
        words(line).len() >= 2,
        alike(words(line)[0], "Preamp:"@),
        words(line)[1] == g.text(),
        g.sound() && g.means(gain) && gain.finite(),
    ensures
        ({
            let before = imported(text, name);
            let after = imported(text + (line + seq!['\n']), name);
            &&& after.bands == before.bands
            &&& whole(-24) <= gain.value() <= whole(24) ==> after.preamp == gain
            &&& gain.value() < whole(-24) ==> after.preamp.value() == whole(-24)
            &&& gain.value() > whole(24) ==> after.preamp.value() == whole(24)
        }),
{
    lemma_last_line(text, line);
    law_decimals_are_read(g, gain);
    lemma_bounds();
    lemma_order(gain, double(GAIN_MIN));
    lemma_order(double(GAIN_MAX), gain);
}

/// A line that is neither a filter nor a preamp changes nothing.
pub proof fn law_other_lines_change_nothing(text: Seq<char>, line: Seq<char>, name: Seq<char>)
    requires
        last_line(text, line),
        words(line).len() == 0 || (!alike(words(line)[0], "Preamp:"@) && !alike(
            words(line)[0],
            "Filter"@,
        )),
    ensures
        imported(text + (line + seq!['\n']), name) == imported(text, name),
{
    lemma_last_line(text, line);
}

/// A filter that is not on adds no band.
pub proof fn law_filters_that_are_off_are_left_out(
    text: Seq<char>,
    line: Seq<char>,
    name: Seq<char>,
)
    requires
        last_line(text, line),
        words(line).len() > 0,
        alike(words(line)[0], "Filter"@),
        forall|i: int| 0 <= i < words(line).len() ==> !alike(#[trigger] words(line)[i], "ON"@),
    ensures
        imported(text + (line + seq!['\n']), name) == imported(text, name),
{
    lemma_last_line(text, line);
    lemma_no_key(words(line), "ON"@);
    reveal_strlit("Filter");
    reveal_strlit("Preamp:");
    lemma_alike_ends(words(line)[0], "Filter"@);
    lemma_not_alike(words(line)[0], "Preamp:"@);
}

/// There are never more than 32 bands: with as many, filters add no more.
pub proof fn law_no_more_than_32_bands(text: Seq<char>, line: Seq<char>, name: Seq<char>)
    requires
        last_line(text, line),
        imported(text, name).bands.len() >= 32,
    ensures
        imported(text + (line + seq!['\n']), name).bands == imported(text, name).bands,
{
    lemma_last_line(text, line);
}

/// An empty text has neither bands nor a preamp, and is refused, as is any text without a filter
/// that counts and without a preamp line. The profile is named as asked, without the space around
/// the name.
pub proof fn law_import_of_nothing(name: Seq<char>, text: Seq<char>)
    ensures
        imported(Seq::<char>::empty(), name).bands.len() == 0,
        imported(Seq::<char>::empty(), name).preamp.value() == 0,
        !has_eq(Seq::<char>::empty()),
        imported(text, name).bands.len() > 0 ==> has_eq(text),
        imported(text, name).bands.len() == 0 && (forall|i: int|
            0 <= i < lines(text).len() ==> !preamp_line(#[trigger] lines(text)[i])) ==> !has_eq(text),
        trim(name).len() > 0 ==> imported(text, name).name == trim(name),
        trim(name).len() == 0 ==> imported(text, name).name == "Imported profile"@,
{
    law_line_alone(seq![]);
    lemma_bounds();
}

proof fn lemma_position_is(s: Seq<char>, set: Seq<char>)
    ensures
        position(s, set) <= s.len(),
        position(s, set) < s.len() ==> set.contains(s[position(s, set) as int]),
    decreases s.len(),
{
    if s.len() > 0 && !set.contains(s[0]) {
        lemma_position_is(s.drop_first(), set);
    }
}

/// A character that can stand in a decimal number.
pub open spec fn number_char(c: char) -> bool {
    digit(c) || c == '.' || c == 'e' || c == 'E' || c == '+' || c == '-'
}

/// What holds a character that no decimal number has, and is no word for an infinity or for
/// something that is no number, is not read as a number.
pub proof fn law_other_texts_are_no_numbers(s: Seq<char>, i: int)
    requires
        0 <= i < s.len(),
        !number_char(s[i]),
        !alike(unsigned(s), "inf"@),
        !alike(unsigned(s), "infinity"@),
        !alike(unsigned(s), "nan"@),
    ensures
        read(s) is None,
{
    let t = unsigned(s);
    if decimal(t) is Some {
        let e = position(t, seq!['e', 'E']) as int;
        lemma_position_is(t, seq!['e', 'E']);
        let mantissa = t.take(e);
        let p = position(mantissa, seq!['.']) as int;
        lemma_position_is(mantissa, seq!['.']);
        let k: int = if s.len() > 0 && (s[0] == '+' || s[0] == '-') {
            i - 1
        } else {
            i
        };
        assert(k >= 0);
        assert(t[k] == s[i]);
        if k < e {
            assert(mantissa[k] == t[k]);
            if k < p {
                assert(digit(mantissa.take(p)[k]));
            } else if k == p {
                let d = choose|d: int| 0 <= d < seq!['.'].len() && seq!['.'][d] == mantissa[p];
                assert(mantissa[p] == '.');
            } else {
                assert(digit(mantissa.skip(p + 1)[k - p - 1]));
            }
        } else if k == e {
            let d = choose|d: int| 0 <= d < seq!['e', 'E'].len() && seq!['e', 'E'][d] == t[e];
            assert(t[e] == 'e' || t[e] == 'E');
        } else {
            let power = t.skip(e + 1);
            let q: int = k - e - 1;
            assert(power[q] == t[k]);
            let d = unsigned(power);
            if power[0] == '+' || power[0] == '-' {
                if q > 0 {
                    assert(digit(d[q - 1]));
                }
            } else {
                assert(digit(d[q]));
            }
        }
    }
}

/// The first word that is the key, in any case, stands at `i`, with another word behind it.
pub open spec fn key_at(w: Seq<Seq<char>>, key: Seq<char>, i: int) -> bool {
    &&& 0 <= i < w.len() - 1
    &&& alike(w[i], key)
    &&& forall|j: int| 0 <= j < i ==> !alike(#[trigger] w[j], key)
}

/// Wherever the keys of a filter line stand, and whatever else stands between them, each gives the
/// value behind it.
pub proof fn law_filter_keys_stand_anywhere(
    text: Seq<char>,
    line: Seq<char>,
    name: Seq<char>,
    kind: BandType,
    on: int,
    fc: int,
    gain_at: int,
    q_at: int,
    f: Written,
    g: Written,
    q: Written,
    frequency: Double,
    gain: Double,
    quality: Double,
)
    requires
        last_line(text, line),
        imported(text, name).bands.len() < 32,
        words(line).len() > 0,
        alike(words(line)[0], "Filter"@),
        key_at(words(line), "ON"@, on),
        key_at(words(line), "Fc"@, fc),
        key_at(words(line), "Gain"@, gain_at),
        key_at(words(line), "Q"@, q_at),
        band_type(words(line)[on + 1]) == Some(kind),
        words(line)[fc + 1] == f.text(),
        words(line)[gain_at + 1] == g.text(),
        words(line)[q_at + 1] == q.text(),
        f.sound() && f.means(frequency) && frequency.finite(),
        g.sound() && g.means(gain) && gain.finite(),
        q.sound() && q.means(quality) && quality.finite(),
        whole(20) <= frequency.value() <= whole(20000),
        whole(-24) <= gain.value() <= whole(24),
        double(Q_MIN).value() <= quality.value() <= whole(20),
    ensures
        imported(text + (line + seq!['\n']), name).bands == imported(text, name).bands.push(
            FilterBand { kind, frequency, gain, q: quality },
        ),
        imported(text + (line + seq!['\n']), name).preamp == imported(text, name).preamp,
{
    let w = words(line);
    lemma_last_line(text, line);
    lemma_key_at(w, "ON"@, on);
    lemma_key_at(w, "Fc"@, fc);
    lemma_key_at(w, "Gain"@, gain_at);
    lemma_key_at(w, "Q"@, q_at);
    law_decimals_are_read(f, frequency);
    law_decimals_are_read(g, gain);
    law_decimals_are_read(q, quality);
    reveal_strlit("Filter");
    reveal_strlit("Preamp:");
    lemma_alike_ends(w[0], "Filter"@);
    lemma_not_alike(w[0], "Preamp:"@);
    crate::laws::stored::law_band_stays_in_range(kind, frequency, gain, quality);
}

/// A filter line that lacks one of its values, or has something else than a number for it, adds
/// no band.
pub proof fn law_broken_filter_lines_are_left_out(
    text: Seq<char>,
    line: Seq<char>,
    name: Seq<char>,
    key: Seq<char>,
    at: int,
)
    requires
        last_line(text, line),
        words(line).len() > 0,
        alike(words(line)[0], "Filter"@),
        key == "Fc"@ || key == "Gain"@ || key == "Q"@,
        (forall|i: int| 0 <= i < words(line).len() ==> !alike(#[trigger] words(line)[i], key)) || (
        key_at(words(line), key, at) && read(words(line)[at + 1]) is None),
    ensures
        imported(text + (line + seq!['\n']), name) == imported(text, name),
{
    let w = words(line);
    lemma_last_line(text, line);
    if forall|i: int| 0 <= i < w.len() ==> !alike(#[trigger] w[i], key) {
        lemma_no_key(w, key);
    } else {
        lemma_key_at(w, key, at);
    }
    reveal_strlit("Filter");
    reveal_strlit("Preamp:");
    lemma_alike_ends(w[0], "Filter"@);
    lemma_not_alike(w[0], "Preamp:"@);
}

/// A filter of a type that is not known adds no band.
pub proof fn law_unknown_filters_are_left_out(
    text: Seq<char>,
    line: Seq<char>,
    name: Seq<char>,
    on: int,
)
    requires
        last_line(text, line),
        words(line).len() > 0,
        alike(words(line)[0], "Filter"@),
        key_at(words(line), "ON"@, on),
        band_type(words(line)[on + 1]) is None,
    ensures
        imported(text + (line + seq!['\n']), name) == imported(text, name),
{
    let w = words(line);
    lemma_last_line(text, line);
    lemma_key_at(w, "ON"@, on);
    reveal_strlit("Filter");
    reveal_strlit("Preamp:");
    lemma_alike_ends(w[0], "Filter"@);
    lemma_not_alike(w[0], "Preamp:"@);
}

} // verus!
