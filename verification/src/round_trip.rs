//! What is written in the ParametricEQ format is read back.

use vstd::prelude::*;
use vstd::arithmetic::power2::{lemma2_to64_rest, lemma_pow2_adds, lemma_pow2_pos, pow2};

use crate::decimal::{
    all_digits, decimal, digit, digit_char, digit_value, digits_value, fixed, in_places,
    last_digits, lemma_half_even_bounds, lemma_half_even_close, lemma_digits_concat,
    lemma_magnitude_of, lemma_ten, magnitude_of, minus, numeral, pointed, read, signed, ten,
    unsigned,
};
use crate::double::{
    double, lemma_units, lemma_units_increase, units, whole, Double, EXPONENT, INFINITY, SIGN,
};
use crate::profile::{
    band_type, effective, law_spellings_read_back, lemma_bounds, pregain, sane_band, tone_shelves,
    wet_amount, within, BandType, FilterBand, ProfileView, ToneSettings, GAIN_MAX, GAIN_MIN,
    MAX_BANDS, ONE, Q_MIN, TWENTY, TWENTY_THOUSAND,
};
use crate::parametric_eq::{audible, band_lines, band_words, eq_bands, eq_step, exported, finite_number, has_eq, imported, key_index, line_band, number_after, preamp_line, preamp_words, rendered, word_after};
use crate::rounding::{lemma_nearest_exact, lemma_nearest_exists, lemma_nearest_ordered, lemma_units_zero, nearest};
use crate::text::{
    alike, document, lemma_position, lemma_words_open, lines, lower, one_line, spaced, white,
    without_return, words,
};

verus! {

/// No line feed stands in the text.
pub open spec fn unbroken(s: Seq<char>) -> bool {
    forall|i: int| 0 <= i < s.len() ==> #[trigger] s[i] != '\n'
}

/// A text without whitespace, and not empty.
pub open spec fn is_word(s: Seq<char>) -> bool {
    s.len() > 0 && forall|i: int| 0 <= i < s.len() ==> !white(#[trigger] s[i])
}

proof fn lemma_document_front(ls: Seq<Seq<char>>)
    requires
        ls.len() > 0,
    ensures
        document(ls) == ls[0] + seq!['\r', '\n'] + document(ls.drop_first()),
    decreases ls.len(),
{
    let rest = ls.drop_first();
    if ls.len() == 1 {
        assert(document(ls.drop_last()) =~= seq![]);
        assert(document(rest) =~= seq![]);
        assert(document(ls) =~= ls[0] + seq!['\r', '\n'] + document(rest));
    } else {
        lemma_document_front(ls.drop_last());
        assert(ls.drop_last().drop_first() =~= rest.drop_last());
        assert(document(ls) =~= ls[0] + seq!['\r', '\n'] + document(rest));
    }
}

/// The lines of a document are those that it was made of.
pub proof fn lemma_lines_document(ls: Seq<Seq<char>>)
    requires
        forall|i: int| 0 <= i < ls.len() ==> unbroken(#[trigger] ls[i]),
    ensures
        lines(document(ls)) == ls,
    decreases ls.len(),
{
    if ls.len() == 0 {
        assert(lines(document(ls)) =~= ls);
    } else {
        lemma_document_front(ls);
        let rest = ls.drop_first();
        assert forall|i: int| 0 <= i < rest.len() implies unbroken(#[trigger] rest[i]) by {
            assert(unbroken(ls[i + 1]));
        }
        lemma_lines_document(rest);
        let s = document(ls);
        let first = ls[0];
        let n = first.len() + 1;
        assert(unbroken(first));
        assert forall|i: int| 0 <= i < n implies !seq!['\n'].contains(s[i]) by {
            if i < first.len() {
                assert(s[i] == first[i]);
            } else {
                assert(s[i] == '\r');
            }
        }
        assert(s[n as int] == '\n');
        assert(seq!['\n'][0] == '\n');
        assert(seq!['\n'].contains(s[n as int]));
        lemma_position(s, seq!['\n'], n as int);
        assert(without_return(s.take(n as int)) =~= first);
        assert(s.skip(n as int + 1) =~= document(rest));
        assert(lines(s) =~= ls);
    }
}

/// A space parts the words before it from those after it.
pub proof fn lemma_words_split(a: Seq<char>, b: Seq<char>)
    ensures
        words(a + seq![' '] + b) == words(a) + words(b),
    decreases b.len(),
{
    let s = a + seq![' '] + b;
    if b.len() == 0 {
        assert(s.drop_last() =~= a);
        assert(s.last() == ' ');
        assert(words(a) + words(b) =~= words(a));
    } else {
        let t = b.drop_last();
        lemma_words_split(a, t);
        assert(s.drop_last() =~= a + seq![' '] + t);
        assert(s.last() == b.last());
        if !white(b.last()) {
            if t.len() == 0 {
                assert(s[s.len() - 2] == ' ');
            } else {
                assert(s[s.len() - 2] == b[b.len() - 2]);
                if !white(t.last()) {
                    lemma_words_open(t);
                }
            }
        }
        assert(words(s) =~= words(a) + words(b));
    }
}

pub proof fn lemma_one_word(w: Seq<char>)
    requires
        is_word(w),
    ensures
        words(w) == seq![w],
    decreases w.len(),
{
    assert(!white(w.last()));
    if w.len() == 1 {
        assert(words(w.drop_last()) =~= seq![]);
        assert(seq![w.last()] =~= w);
        assert(words(w) =~= seq![w]);
    } else {
        lemma_one_word(w.drop_last());
        assert(!white(w[w.len() - 2]));
        assert(w.drop_last().push(w.last()) =~= w);
        assert(words(w) =~= seq![w]);
    }
}

/// The words of spaced words are those words.
pub proof fn lemma_words_spaced(ws: Seq<Seq<char>>)
    requires
        forall|i: int| 0 <= i < ws.len() ==> is_word(#[trigger] ws[i]),
    ensures
        words(spaced(ws)) == ws,
    decreases ws.len(),
{
    if ws.len() == 0 {
        assert(words(spaced(ws)) =~= ws);
    } else if ws.len() == 1 {
        lemma_one_word(ws[0]);
        assert(words(spaced(ws)) =~= ws);
    } else {
        lemma_words_spaced(ws.drop_last());
        lemma_one_word(ws.last());
        lemma_words_split(spaced(ws.drop_last()), ws.last());
        assert(words(spaced(ws)) =~= ws);
    }
}

pub proof fn lemma_spaced_unbroken(ws: Seq<Seq<char>>)
    requires
        forall|i: int| 0 <= i < ws.len() ==> unbroken(#[trigger] ws[i]),
    ensures
        unbroken(spaced(ws)),
    decreases ws.len(),
{
    if ws.len() > 1 {
        lemma_spaced_unbroken(ws.drop_last());
    }
}

proof fn lemma_digit_char(n: nat)
    requires
        n < 10,
    ensures
        digit(digit_char(n)),
        digit_value(digit_char(n)) == n,
{
}

/// A numeral is made of digits and stands for its number.
pub proof fn lemma_numeral(n: nat)
    ensures
        numeral(n).len() > 0,
        all_digits(numeral(n)),
        digits_value(numeral(n)) == n,
    decreases n,
{
    if n < 10 {
        lemma_digit_char(n);
        let s = numeral(n);
        assert(s.drop_last() =~= seq![]);
        assert(digits_value(s.drop_last()) == 0);
    } else {
        lemma_numeral(n / 10);
        lemma_digit_char(n % 10);
        assert(numeral(n).drop_last() =~= numeral(n / 10));
    }
}

pub proof fn lemma_last_digits_value(n: nat, k: nat)
    ensures
        last_digits(n, k).len() == k,
        all_digits(last_digits(n, k)),
        digits_value(last_digits(n, k)) == n % ten(k),
    decreases k,
{
    lemma_ten(0);
    if k > 0 {
        let j: nat = (k - 1) as nat;
        lemma_last_digits_value(n / 10, j);
        lemma_digit_char(n % 10);
        assert(last_digits(n, k).drop_last() =~= last_digits(n / 10, j));
        lemma_ten(j);
        vstd::arithmetic::div_mod::lemma_mod_breakdown(n as int, 10, ten(j) as int);
    }
}

/// The number that is read back where `v` was written with `k` places.
pub open spec fn reread(v: Double, k: nat) -> Double {
    signed(v.negative(), magnitude_of(in_places(v, k), -(k as int)))
}

proof fn lemma_pointed(n: nat, k: nat)
    ensures
        pointed(n, k).len() > 0,
        digit(pointed(n, k)[0]),
        forall|i: int|
            0 <= i < pointed(n, k).len() ==> digit(#[trigger] pointed(n, k)[i]) || pointed(n, k)[i]
                == '.',
        decimal(pointed(n, k)) == Some((n, -(k as int))),
{
    let body = pointed(n, k);
    lemma_numeral(n);
    lemma_ten(k);
    lemma_numeral(n / ten(k));
    lemma_last_digits_value(n, k);
    let head = if k == 0 {
        numeral(n)
    } else {
        numeral(n / ten(k))
    };
    let tail = if k == 0 {
        seq![]
    } else {
        last_digits(n, k)
    };
    assert forall|i: int| 0 <= i < body.len() implies digit(#[trigger] body[i]) || body[i] == '.' by {
        if i < head.len() {
            assert(body[i] == head[i]);
            assert(digit(head[i]));
        } else if i > head.len() {
            assert(body[i] == tail[i - head.len() - 1]);
            assert(digit(tail[i - head.len() - 1]));
        }
    }
    assert(body[0] == head[0]);
    assert(digit(head[0]));
    assert forall|i: int| 0 <= i < body.len() implies !seq!['e', 'E'].contains(body[i]) by {
        assert(digit(body[i]) || body[i] == '.');
    }
    lemma_position(body, seq!['e', 'E'], body.len() as int);
    assert(body.take(body.len() as int) =~= body);
    assert forall|i: int| 0 <= i < head.len() implies !seq!['.'].contains(body[i]) by {
        assert(body[i] == head[i]);
        assert(digit(head[i]));
    }
    if k > 0 {
        assert(body[head.len() as int] == '.');
        assert(seq!['.'][0] == '.');
        assert(seq!['.'].contains(body[head.len() as int]));
    }
    lemma_position(body, seq!['.'], head.len() as int);
    assert(body.take(head.len() as int) =~= head);
    if k > 0 {
        assert(body.skip(head.len() as int + 1) =~= tail);
    }
    lemma_digits_concat(head, tail);
    vstd::arithmetic::div_mod::lemma_fundamental_div_mod(n as int, ten(k) as int);
    assert(ten(k) * (n / ten(k)) == (n / ten(k)) * ten(k)) by (nonlinear_arith);
    assert(digits_value(seq![]) == 0);
    if k == 0 {
        lemma_ten(0);
        assert(head + tail =~= head);
    }
    assert(digits_value(head + tail) == n);
    let zero = seq!['0'];
    assert(unsigned(zero) == zero);
    assert(zero.drop_last() =~= seq![]);
    assert(digits_value(zero.drop_last()) == 0);
    assert(digits_value(zero) == 0);
    assert(all_digits(zero));
}

/// A finite number that was written with some places is read back as the double
/// nearest to what was written.
pub proof fn law_fixed_reads_back(v: Double, k: nat)
    requires
        v.finite(),
    ensures
        read(fixed(v, k, false)) == Some(reread(v, k)),
        is_word(fixed(v, k, false)),
        digit(fixed(v, k, false)[0]) || fixed(v, k, false)[0] == '-',
{
    let n = in_places(v, k);
    let body = pointed(n, k);
    let s = fixed(v, k, false);
    lemma_pointed(n, k);
    reveal_strlit("inf");
    reveal_strlit("infinity");
    reveal_strlit("nan");
    if v.negative() {
        assert(s.drop_first() =~= body);
    } else {
        assert(s =~= body);
    }
    assert(unsigned(s) == body);
    assert(minus(s) == v.negative());
    let c = body[0];
    assert(digit(c));
    assert(lower(c) == c);
    assert(!alike(body, "inf"@)) by {
        assert(lower("inf"@[0]) == 'i');
        assert(lower(body[0]) == c);
    }
    assert(!alike(body, "infinity"@)) by {
        assert(lower("infinity"@[0]) == 'i');
        assert(lower(body[0]) == c);
    }
    assert(!alike(body, "nan"@)) by {
        assert(lower("nan"@[0]) == 'n');
        assert(lower(body[0]) == c);
    }
    assert forall|i: int| 0 <= i < s.len() implies !white(#[trigger] s[i]) by {
        if v.negative() {
            if i > 0 {
                assert(s[i] == body[i - 1]);
                assert(digit(body[i - 1]) || body[i - 1] == '.');
            }
        } else {
            assert(digit(body[i]) || body[i] == '.');
        }
    }
}

/// A number that was written with `k` places is read back as the double nearest to
/// a decimal number that lies within half of the last place of it.
pub proof fn law_reread_close(v: Double, k: nat)
    requires
        v.finite(),
    ensures
        ({
            let written = in_places(v, k);
            let exact = units(v.magnitude() as int) * ten(k);
            &&& -(pow2(1074) as int) <= 2 * (written * pow2(1074) - exact) <= pow2(1074)
            &&& nearest(written * pow2(1074), ten(k), reread(v, k).magnitude())
            &&& reread(v, k).negative() == v.negative()
        }),
{
    let n = in_places(v, k);
    let m: u64 = v.magnitude();
    lemma_units_zero();
    if m > 0 {
        lemma_units_increase(0, m as int);
    }
    lemma_ten(k);
    lemma_ten(0);
    lemma_pow2_pos(1074);
    let u: int = units(m as int);
    assert(u * ten(k) >= 0) by (nonlinear_arith)
        requires
            u >= 0,
    ;
    lemma_half_even_close((u * ten(k)) as nat, pow2(1074));
    let r = lemma_reread_nearest(v, k);
    assert(r <= INFINITY);
}

/// The magnitude that is read back is the nearest one to what was written.
proof fn lemma_reread_nearest(v: Double, k: nat) -> (m: u64)
    ensures
        nearest(in_places(v, k) * pow2(1074), ten(k), m),
        reread(v, k) == signed(v.negative(), m),
        m <= INFINITY,
{
    let n = in_places(v, k);
    lemma_ten(k);
    let m = lemma_nearest_exists(n * pow2(1074), ten(k));
    lemma_ten(0);
    assert(n * pow2(1074) * ten(0) == n * pow2(1074)) by (nonlinear_arith)
        requires
            ten(0) == 1,
    ;
    lemma_magnitude_of(n, -(k as int), m);
    m
}

/// What is read back keeps to a bound whose decimal has no more places.
proof fn lemma_reread_bounds(v: Double, k: nat, low: nat, low_bits: u64, high: nat, high_bits: u64)
    requires
        v.finite(),
        low * pow2(1074) <= units(v.magnitude() as int) * ten(k) <= high * pow2(1074),
        nearest(low * pow2(1074), ten(k), low_bits),
        nearest(high * pow2(1074), ten(k), high_bits),
        high_bits < INFINITY,
    ensures
        low_bits <= reread(v, k).magnitude() <= high_bits,
        reread(v, k).negative() == v.negative(),
{
    let n = in_places(v, k);
    let num: nat = (units(v.magnitude() as int) * ten(k)) as nat;
    lemma_pow2_pos(1074);
    lemma_ten(k);
    lemma_half_even_bounds(num, pow2(1074), low);
    lemma_half_even_bounds(num, pow2(1074), high);
    let m = lemma_reread_nearest(v, k);
    let p = pow2(1074);
    assert(low * p <= n * p <= high * p) by (nonlinear_arith)
        requires
            low <= n <= high,
            p > 0,
    ;
    lemma_nearest_ordered(low * p, n * p, ten(k), low_bits, m);
    lemma_nearest_ordered(n * p, high * p, ten(k), m, high_bits);
}

/// `bits` is the magnitude nearest to `n` where it is `c` units of the place `k`.
proof fn lemma_exact_decimal(bits: u64, n: int, c: nat, k: nat)
    requires
        bits < INFINITY,
        units(bits as int) == whole(n),
        n * ten(k) == c,
        n >= 0,
    ensures
        nearest(c * pow2(1074), ten(k), bits),
        units(bits as int) * ten(k) == c * pow2(1074),
{
    lemma_ten(k);
    lemma_nearest_exact(bits, ten(k));
    let p = pow2(1074);
    let t = ten(k);
    assert((n * p) * t == c * p) by (nonlinear_arith)
        requires
            n * t == c,
    ;
}

/// 0.1 is read as the least quality factor.
proof fn lemma_tenth_nearest()
    ensures
        nearest(10 * pow2(1074), ten(2), Q_MIN),
{
    reveal(nearest);
    lemma_ten(0);
    lemma_ten(1);
    assert(ten(2) == 100);
    let p = pow2(1018);
    lemma2_to64_rest();
    lemma_pow2_adds(56, 1018);
    lemma_pow2_pos(1018);
    lemma_units(1018, 0x19_9999_9999_999a);
    lemma_units(1018, 0x19_9999_9999_9999);
    assert(1018 * EXPONENT + 0x19_9999_9999_999a == Q_MIN);
    assert(pow2(1074) == 0x100_0000_0000_0000 * p) by (nonlinear_arith)
        requires
            pow2(1074) == pow2(56) * p,
            pow2(56) == 0x100_0000_0000_0000,
    ;
    assert(units(Q_MIN - 1) == 0x19_9999_9999_9999 * p);
    assert(units(Q_MIN as int) == 0x19_9999_9999_999a * p);
    assert(units(Q_MIN + 1) == 0x19_9999_9999_999b * p);
    assert((0x19_9999_9999_9999 * p + 0x19_9999_9999_999a * p) * 100 < 20 * (0x100_0000_0000_0000
        * p)) by (nonlinear_arith)
        requires
            p > 0,
    ;
    assert((0x19_9999_9999_999a * p + 0x19_9999_9999_999b * p) * 100 > 20 * (0x100_0000_0000_0000
        * p)) by (nonlinear_arith)
        requires
            p > 0,
    ;
}

/// The band that is read back where `b` was written.
pub open spec fn reread_band(b: FilterBand) -> FilterBand {
    FilterBand {
        kind: b.kind,
        frequency: reread(b.frequency, 0),
        gain: reread(b.gain, 1),
        q: reread(b.q, 2),
    }
}

/// A gain in range is read back in range.
proof fn lemma_reread_gain(v: Double)
    requires
        within(v, GAIN_MIN, GAIN_MAX),
    ensures
        within(reread(v, 1), GAIN_MIN, GAIN_MAX),
{
    lemma_bounds();
    lemma_ten(0);
    let m: int = v.magnitude() as int;
    assert(GAIN_MIN % SIGN == GAIN_MAX);
    assert(m <= GAIN_MAX);
    lemma_units_zero();
    if m > 0 {
        lemma_units_increase(0, m);
    }
    if m < GAIN_MAX {
        lemma_units_increase(m, GAIN_MAX as int);
    }
    assert(ten(1) == 10);
    lemma_exact_decimal(GAIN_MAX, 24, 240, 1);
    lemma_exact_decimal(0, 0, 0, 1);
    let p = pow2(1074);
    lemma_reread_bounds(v, 1, 0, 0, 240, GAIN_MAX);
}

/// A valid band is read back as a valid band.
pub proof fn lemma_reread_valid(b: FilterBand)
    requires
        b.valid(),
    ensures
        reread_band(b).valid(),
{
    lemma_bounds();
    lemma_ten(0);
    lemma_ten(1);
    assert(ten(1) == 10);
    assert(ten(2) == 100);
    lemma_reread_gain(b.gain);
    let f: int = b.frequency.magnitude() as int;
    assert(TWENTY <= f <= TWENTY_THOUSAND);
    if TWENTY < f {
        lemma_units_increase(TWENTY as int, f);
    }
    if f < TWENTY_THOUSAND {
        lemma_units_increase(f, TWENTY_THOUSAND as int);
    }
    lemma_exact_decimal(TWENTY, 20, 20, 0);
    lemma_exact_decimal(TWENTY_THOUSAND, 20000, 20000, 0);
    lemma_reread_bounds(b.frequency, 0, 20, TWENTY, 20000, TWENTY_THOUSAND);
    let q: int = b.q.magnitude() as int;
    assert(Q_MIN <= q <= TWENTY);
    if Q_MIN < q {
        lemma_units_increase(Q_MIN as int, q);
    }
    if q < TWENTY {
        lemma_units_increase(q, TWENTY as int);
    }
    lemma_tenth_nearest();
    lemma_exact_decimal(TWENTY, 20, 2000, 2);
    assert(10 * pow2(1074) <= units(q) * 100);
    lemma_reread_bounds(b.q, 2, 10, Q_MIN, 2000, TWENTY);
}

proof fn lemma_unlike(a: Seq<char>, b: Seq<char>)
    requires
        a.len() != b.len() || (a.len() > 0 && lower(a[0]) != lower(b[0])),
    ensures
        !alike(a, b),
{
}

proof fn lemma_key_index(ws: Seq<Seq<char>>, key: Seq<char>, n: int)
    requires
        0 <= n < ws.len(),
        forall|i: int| 0 <= i < n ==> !alike(#[trigger] ws[i], key),
        alike(ws[n], key),
    ensures
        key_index(ws, key) == n,
    decreases n,
{
    if n > 0 {
        assert(!alike(ws[0], key));
        let rest = ws.drop_first();
        assert forall|i: int| 0 <= i < n - 1 implies !alike(#[trigger] rest[i], key) by {
            assert(rest[i] == ws[i + 1]);
        }
        lemma_key_index(rest, key, n - 1);
    }
}

/// A numeral followed by a colon.
proof fn lemma_number_word(n: nat)
    ensures
        is_word(numeral(n) + ":"@),
        digit((numeral(n) + ":"@)[0]),
{
    reveal_strlit(":");
    lemma_numeral(n);
    let s = numeral(n);
    assert(digit(s[0]));
    assert forall|i: int| 0 <= i < (s + ":"@).len() implies !white(#[trigger] (s + ":"@)[i]) by {
        if i < s.len() {
            assert(digit(s[i]));
        }
    }
}

/// What the words of a filter line look like.
spec fn band_shape(w: Seq<Seq<char>>) -> bool {
    &&& w.len() == 12
    &&& w[0].len() == 6
    &&& w[1].len() >= 2 && digit(w[1][0])
    &&& w[2].len() == 2 && w[2][0] == 'O'
    &&& w[3].len() >= 2 && (w[3][0] == 'L' || w[3][0] == 'P' || w[3][0] == 'H')
    &&& w[4].len() == 2
    &&& w[5].len() >= 1 && (digit(w[5][0]) || w[5][0] == '-')
    &&& w[6].len() == 2
    &&& w[7].len() == 4
    &&& w[8].len() >= 1 && (digit(w[8][0]) || w[8][0] == '-')
    &&& w[9].len() == 2
}

proof fn lemma_literals()
    ensures
        "Filter"@.len() == 6,
        "ON"@.len() == 2 && "ON"@[0] == 'O',
        "Fc"@.len() == 2,
        "Hz"@.len() == 2,
        "Gain"@.len() == 4,
        "dB"@.len() == 2,
        !alike("Filter"@, "Preamp:"@),
{
    reveal_strlit("Filter");
    reveal_strlit("Preamp:");
    reveal_strlit("ON");
    reveal_strlit("Fc");
    reveal_strlit("Hz");
    reveal_strlit("Gain");
    reveal_strlit("dB");
    lemma_unlike("Filter"@, "Preamp:"@);
}

proof fn lemma_code(kind: BandType)
    ensures
        kind.code().len() >= 2,
        kind.code()[0] == 'L' || kind.code()[0] == 'P' || kind.code()[0] == 'H',
{
    reveal_strlit("LSC");
    reveal_strlit("PK");
    reveal_strlit("HSC");
}

proof fn lemma_colon(n: nat)
    ensures
        (numeral(n) + ":"@).len() >= 2,
{
    reveal_strlit(":");
    lemma_numeral(n);
}

proof fn lemma_band_shape(n: nat, b: FilterBand)
    requires
        b.valid(),
    ensures
        band_shape(band_words(n, b)),
        alike(band_words(n, b)[0], "Filter"@),
        !alike(band_words(n, b)[0], "Preamp:"@),
{
    lemma_literals();
    lemma_code(b.kind);
    lemma_colon(n);
    lemma_number_word(n);
    lemma_valid_finite(b);
    law_fixed_reads_back(b.frequency, 0);
    law_fixed_reads_back(b.gain, 1);
}

/// The words of a band's line that are always the same.
proof fn lemma_fixed_words()
    ensures
        is_word("Filter"@),
        is_word("ON"@),
        is_word("Fc"@),
        is_word("Hz"@),
        is_word("Gain"@),
        is_word("dB"@),
        is_word("Q"@),
{
    reveal_strlit("Filter");
    reveal_strlit("ON");
    reveal_strlit("Fc");
    reveal_strlit("Hz");
    reveal_strlit("Gain");
    reveal_strlit("dB");
    reveal_strlit("Q");
}

proof fn lemma_code_word(kind: BandType)
    ensures
        is_word(kind.code()),
{
    reveal_strlit("LSC");
    reveal_strlit("PK");
    reveal_strlit("HSC");
}

proof fn lemma_band_words(n: nat, b: FilterBand)
    requires
        b.valid(),
    ensures
        forall|i: int| 0 <= i < 12 ==> is_word(#[trigger] band_words(n, b)[i]),
{
    lemma_fixed_words();
    lemma_code_word(b.kind);
    lemma_number_word(n);
    lemma_valid_finite(b);
    law_fixed_reads_back(b.frequency, 0);
    law_fixed_reads_back(b.gain, 1);
    law_fixed_reads_back(b.q, 2);
}

proof fn lemma_key_on(w: Seq<Seq<char>>)
    requires
        band_shape(w),
        w[2] == "ON"@,
    ensures
        word_after(w, "ON"@) == Some(w[3]),
{
    reveal_strlit("ON");
    lemma_unlike(w[0], "ON"@);
    lemma_unlike(w[1], "ON"@);
    lemma_key_index(w, "ON"@, 2);
}

proof fn lemma_key_fc(w: Seq<Seq<char>>)
    requires
        band_shape(w),
        w[4] == "Fc"@,
    ensures
        word_after(w, "Fc"@) == Some(w[5]),
{
    reveal_strlit("Fc");
    lemma_unlike(w[0], "Fc"@);
    lemma_unlike(w[1], "Fc"@);
    lemma_unlike(w[2], "Fc"@);
    lemma_unlike(w[3], "Fc"@);
    lemma_key_index(w, "Fc"@, 4);
}

proof fn lemma_key_gain(w: Seq<Seq<char>>)
    requires
        band_shape(w),
        w[7] == "Gain"@,
    ensures
        word_after(w, "Gain"@) == Some(w[8]),
{
    reveal_strlit("Gain");
    lemma_unlike(w[0], "Gain"@);
    lemma_unlike(w[1], "Gain"@);
    lemma_unlike(w[2], "Gain"@);
    lemma_unlike(w[3], "Gain"@);
    lemma_unlike(w[4], "Gain"@);
    lemma_unlike(w[5], "Gain"@);
    lemma_unlike(w[6], "Gain"@);
    lemma_key_index(w, "Gain"@, 7);
}

proof fn lemma_key_q(w: Seq<Seq<char>>)
    requires
        band_shape(w),
        w[10] == "Q"@,
    ensures
        word_after(w, "Q"@) == Some(w[11]),
{
    reveal_strlit("Q");
    lemma_unlike(w[0], "Q"@);
    lemma_unlike(w[1], "Q"@);
    lemma_unlike(w[2], "Q"@);
    lemma_unlike(w[3], "Q"@);
    lemma_unlike(w[4], "Q"@);
    lemma_unlike(w[5], "Q"@);
    lemma_unlike(w[6], "Q"@);
    lemma_unlike(w[7], "Q"@);
    lemma_unlike(w[8], "Q"@);
    lemma_unlike(w[9], "Q"@);
    lemma_key_index(w, "Q"@, 10);
}

proof fn lemma_finite_number(v: Double, k: nat)
    requires
        v.finite(),
        reread(v, k).finite(),
    ensures
        finite_number(fixed(v, k, false)) == Some(reread(v, k)),
{
    law_fixed_reads_back(v, k);
}

proof fn lemma_valid_finite(b: FilterBand)
    requires
        b.valid(),
    ensures
        b.frequency.finite(),
        b.gain.finite(),
        b.q.finite(),
        sane_band(b.kind, b.frequency, b.gain, b.q) == b,
{
}

proof fn lemma_line_numbers(n: nat, b: FilterBand)
    requires
        b.valid(),
    ensures
        number_after(band_words(n, b), "Fc"@) == Some(reread(b.frequency, 0)),
        number_after(band_words(n, b), "Gain"@) == Some(reread(b.gain, 1)),
        number_after(band_words(n, b), "Q"@) == Some(reread(b.q, 2)),
{
    let w = band_words(n, b);
    lemma_band_shape(n, b);
    lemma_key_fc(w);
    lemma_key_gain(w);
    lemma_key_q(w);
    lemma_valid_finite(b);
    lemma_reread_valid(b);
    lemma_valid_finite(reread_band(b));
    lemma_finite_number(b.frequency, 0);
    lemma_finite_number(b.gain, 1);
    lemma_finite_number(b.q, 2);
}

proof fn lemma_line_kind(n: nat, b: FilterBand)
    requires
        b.valid(),
    ensures
        word_after(band_words(n, b), "ON"@) == Some(b.kind.code()),
        band_type(b.kind.code()) == Some(b.kind),
{
    lemma_band_shape(n, b);
    lemma_key_on(band_words(n, b));
    law_spellings_read_back(b.kind);
}

proof fn lemma_line_band(n: nat, b: FilterBand)
    requires
        b.valid(),
    ensures
        line_band(band_words(n, b)) == Some(reread_band(b)),
{
    lemma_line_kind(n, b);
    lemma_line_numbers(n, b);
    lemma_reread_valid(b);
    lemma_valid_finite(reread_band(b));
}

proof fn lemma_word_unbroken(w: Seq<char>)
    requires
        is_word(w),
    ensures
        unbroken(w),
{
    assert forall|i: int| 0 <= i < w.len() implies #[trigger] w[i] != '\n' by {
        assert(!white(w[i]));
    }
}

proof fn lemma_band_line(n: nat, b: FilterBand, state: (Double, Seq<FilterBand>))
    requires
        b.valid(),
        state.1.len() < MAX_BANDS,
    ensures
        unbroken(spaced(band_words(n, b))),
        eq_step(state, spaced(band_words(n, b))) == (state.0, state.1.push(reread_band(b))),
{
    let w = band_words(n, b);
    lemma_band_words(n, b);
    lemma_band_shape(n, b);
    lemma_line_band(n, b);
    lemma_words_spaced(w);
    assert forall|i: int| 0 <= i < w.len() implies unbroken(#[trigger] w[i]) by {
        lemma_word_unbroken(w[i]);
    }
    lemma_spaced_unbroken(w);
}

proof fn lemma_preamp_words(db: Double)
    requires
        db.finite(),
    ensures
        unbroken(spaced(preamp_words(db))),
        words(spaced(preamp_words(db))) == preamp_words(db),
{
    let w = preamp_words(db);
    reveal_strlit("Preamp:");
    reveal_strlit("dB");
    law_fixed_reads_back(db, 1);
    assert(is_word(w[0]));
    assert(is_word(w[1]));
    assert(is_word(w[2]));
    lemma_words_spaced(w);
    assert forall|i: int| 0 <= i < w.len() implies unbroken(#[trigger] w[i]) by {
        lemma_word_unbroken(w[i]);
    }
    lemma_spaced_unbroken(w);
}

proof fn lemma_preamp_start(db: Double)
    ensures
        preamp_line(spaced(preamp_words(db))),
{
    let w = preamp_words(db);
    let s = spaced(w);
    reveal_strlit("Preamp:");
    reveal_strlit("preamp:");
    assert(w.drop_last().drop_last() =~= seq![w[0]]);
    assert(spaced(seq![w[0]]) == w[0]);
    assert(w.drop_last().last() == w[1]);
    assert(spaced(w.drop_last()) == w[0] + seq![' '] + w[1]);
    assert(s == w[0] + seq![' '] + w[1] + seq![' '] + w[2]);
    assert(s[0] == 'P');
    assert(s.take(7) =~= "Preamp:"@);
    assert(alike("Preamp:"@, "preamp:"@));
}

proof fn lemma_preamp_line(db: Double, state: (Double, Seq<FilterBand>))
    requires
        within(db, GAIN_MIN, GAIN_MAX),
    ensures
        unbroken(spaced(preamp_words(db))),
        eq_step(state, spaced(preamp_words(db))) == (reread(db, 1), state.1),
        preamp_line(spaced(preamp_words(db))),
{
    lemma_preamp_words(db);
    lemma_preamp_start(db);
    lemma_reread_gain(db);
    lemma_finite_number(db, 1);
    assert(alike("Preamp:"@, "Preamp:"@));
}

proof fn lemma_comment(prefix: Seq<char>, text: Seq<char>, state: (Double, Seq<FilterBand>))
    requires
        prefix.len() >= 2,
        prefix[0] == '#',
        prefix[1] == ' ',
        unbroken(prefix),
        unbroken(text),
    ensures
        unbroken(prefix + text),
        eq_step(state, prefix + text) == state,
{
    let rest = prefix.skip(2) + text;
    let hash = seq!['#'];
    assert(prefix + text =~= hash + seq![' '] + rest);
    lemma_words_split(hash, rest);
    assert(is_word(hash));
    lemma_one_word(hash);
    reveal_strlit("Preamp:");
    reveal_strlit("Filter");
    let w = words(prefix + text);
    assert(w[0] == hash);
    lemma_unlike(hash, "Preamp:"@);
    lemma_unlike(hash, "Filter"@);
    assert forall|i: int| 0 <= i < (prefix + text).len() implies #[trigger] (prefix + text)[i]
        != '\n' by {
        if i < prefix.len() {
            assert(prefix[i] != '\n');
        } else {
            assert(text[i - prefix.len()] != '\n');
        }
    }
}

proof fn lemma_first_line(line: Seq<char>)
    ensures
        eq_bands(seq![line]) == eq_step((double(0), Seq::<FilterBand>::empty()), line),
{
    let none = Seq::<Seq<char>>::empty();
    assert(seq![line].drop_last() =~= none);
    assert(eq_bands(none) == (double(0), Seq::<FilterBand>::empty()));
}

/// The bands that are read back where `bands` were written.
pub open spec fn reread_bands(bands: Seq<FilterBand>) -> Seq<FilterBand> {
    Seq::new(bands.len(), |i: int| reread_band(bands[i]))
}

/// Filter lines after a head without any are read back band by band.
proof fn lemma_band_lines(head: Seq<Seq<char>>, preamp: Double, bands: Seq<FilterBand>)
    requires
        eq_bands(head) == (preamp, Seq::<FilterBand>::empty()),
        bands.len() <= MAX_BANDS,
        forall|i: int| 0 <= i < bands.len() ==> (#[trigger] bands[i]).valid(),
    ensures
        eq_bands(head + band_lines(bands)) == (preamp, reread_bands(bands)),
        forall|i: int| 0 <= i < bands.len() ==> unbroken(#[trigger] band_lines(bands)[i]),
    decreases bands.len(),
{
    let tail = band_lines(bands);
    if bands.len() == 0 {
        assert(head + tail =~= head);
        assert(reread_bands(bands) =~= Seq::<FilterBand>::empty());
    } else {
        let before = bands.drop_last();
        assert forall|i: int| 0 <= i < before.len() implies (#[trigger] before[i]).valid() by {
            assert(bands[i].valid());
        }
        lemma_band_lines(head, preamp, before);
        assert(tail.drop_last() =~= band_lines(before));
        assert((head + tail).drop_last() =~= head + band_lines(before));
        assert(bands.last().valid());
        lemma_band_line(bands.len(), bands.last(), (preamp, reread_bands(before)));
        assert(reread_bands(before).push(reread_band(bands.last())) =~= reread_bands(bands));
        assert forall|i: int| 0 <= i < bands.len() implies unbroken(#[trigger] tail[i]) by {
            if i < before.len() {
                assert(tail[i] == band_lines(before)[i]);
            }
        }
    }
}

/// An exported profile is read back: its preamp and every band, each number as it
/// was written.
pub proof fn law_export_reads_back(p: ProfileView, name: Seq<char>)
    requires
        p.valid(),
    ensures
        has_eq(exported(p)),
        imported(exported(p), name).preamp == reread(p.preamp, 1),
        imported(exported(p), name).bands == reread_bands(p.bands),
{
    let a = "# "@ + one_line(p.name);
    let b = spaced(preamp_words(p.preamp));
    let head = seq![a, b];
    let all = head + band_lines(p.bands);
    reveal_strlit("# ");
    let start = (double(0), Seq::<FilterBand>::empty());
    assert(unbroken(one_line(p.name)));
    assert(unbroken("# "@));
    lemma_comment("# "@, one_line(p.name), start);
    lemma_preamp_line(p.preamp, start);
    lemma_first_line(a);
    assert(head.drop_last() =~= seq![a]);
    assert(eq_bands(head) == (reread(p.preamp, 1), Seq::<FilterBand>::empty()));
    lemma_band_lines(head, reread(p.preamp, 1), p.bands);
    assert forall|i: int| 0 <= i < all.len() implies unbroken(#[trigger] all[i]) by {
        if i >= 2 {
            assert(all[i] == band_lines(p.bands)[i - 2]);
        }
    }
    lemma_lines_document(all);
    assert(preamp_line(lines(exported(p))[1]));
}

/// The product with a factor from zero to one is no greater in size.
proof fn lemma_scaled_down(g: Double, wet: Double)
    requires
        g.finite(),
        within(wet, 0, ONE),
    ensures
        g.product(wet).magnitude() <= g.magnitude(),
        g.product(wet).finite(),
{
    let u: int = units(g.magnitude() as int);
    let w: int = units(wet.magnitude() as int);
    let p = pow2(1074);
    lemma_pow2_pos(1074);
    lemma_units_zero();
    lemma_bounds();
    if g.magnitude() > 0 {
        lemma_units_increase(0, g.magnitude() as int);
    }
    if wet.magnitude() > 0 {
        lemma_units_increase(0, wet.magnitude() as int);
    }
    if wet.magnitude() < ONE {
        lemma_units_increase(wet.magnitude() as int, ONE as int);
    }
    assert(w <= p);
    assert(0 <= u * w <= u * p) by (nonlinear_arith)
        requires
            0 <= w <= p,
            u >= 0,
    ;
    let m = lemma_nearest_exists((u * w) as nat, p);
    crate::arith::lemma_rounded((u * w) as nat, p, m);
    lemma_nearest_exact(g.magnitude(), p);
    lemma_nearest_ordered((u * w) as nat, (u * p) as nat, p, m, g.magnitude());
}

/// The bands in effect are valid where those of the profile are and the correction
/// amount is a number.
pub proof fn law_effective_valid(bands: Seq<FilterBand>, tone: ToneSettings)
    requires
        forall|i: int| 0 <= i < bands.len() ==> (#[trigger] bands[i]).valid(),
        !tone.wet.nan(),
    ensures
        effective(bands, tone).len() == bands.len() + 3,
        forall|i: int|
            0 <= i < bands.len() + 3 ==> (#[trigger] effective(bands, tone)[i]).valid(),
{
    let all = effective(bands, tone);
    assert forall|i: int| 0 <= i < bands.len() + 3 implies (#[trigger] all[i]).valid() by {
        if i < bands.len() {
            let b = bands[i];
            assert(b.valid());
            let g = b.gain.product(wet_amount(tone));
            assert(all[i] == b.with_gain(g));
            lemma_scaled_down(b.gain, wet_amount(tone));
            assert(GAIN_MIN % SIGN == GAIN_MAX);
        } else {
            assert(all[i] == tone_shelves(tone)[i - bands.len()]);
        }
    }
}

proof fn lemma_audible_valid(bands: Seq<FilterBand>)
    requires
        forall|i: int| 0 <= i < bands.len() ==> (#[trigger] bands[i]).valid(),
    ensures
        forall|i: int| 0 <= i < audible(bands).len() ==> (#[trigger] audible(bands)[i]).valid(),
        audible(bands).len() <= bands.len(),
    decreases bands.len(),
{
    if bands.len() > 0 {
        let before = bands.drop_last();
        assert forall|i: int| 0 <= i < before.len() implies (#[trigger] before[i]).valid() by {
            assert(bands[i].valid());
        }
        lemma_audible_valid(before);
        assert(bands.last().valid());
    }
}

proof fn lemma_header(state: (Double, Seq<FilterBand>))
    ensures
        unbroken("# Generated by ADtune — overwritten when a profile is applied."@),
        eq_step(state, "# Generated by ADtune — overwritten when a profile is applied."@) == state,
{
    let a = "# Generated by ADtune — overwritten when a profile is applied."@;
    reveal_strlit("# Generated by ADtune — overwritten when a profile is applied.");
    assert(unbroken(a));
    assert(a + Seq::<char>::empty() =~= a);
    lemma_comment(a, Seq::<char>::empty(), state);
}

proof fn lemma_profile_comment(name: Seq<char>, state: (Double, Seq<FilterBand>))
    ensures
        unbroken("# Profile: "@ + one_line(name)),
        eq_step(state, "# Profile: "@ + one_line(name)) == state,
{
    reveal_strlit("# Profile: ");
    assert(unbroken("# Profile: "@));
    assert(unbroken(one_line(name)));
    lemma_comment("# Profile: "@, one_line(name), state);
}

/// A rendered configuration is read back as the bands in effect that are not next
/// to nothing, and its preamp, each number as it was written. The reader takes no
/// more than [`MAX_BANDS`] bands and no preamp beyond 24 dB, so a configuration
/// past either bound is left out.
pub proof fn law_render_reads_back(p: ProfileView, tone: ToneSettings, peak: Double)
    requires
        p.valid(),
        !tone.wet.nan(),
        audible(effective(p.bands, tone)).len() <= MAX_BANDS,
        within(pregain(p.preamp, tone.headroom, peak), GAIN_MIN, GAIN_MAX),
    ensures
        eq_bands(lines(rendered(p, tone, peak))) == (
            reread(pregain(p.preamp, tone.headroom, peak), 1),
            reread_bands(audible(effective(p.bands, tone))),
        ),
{
    let before = pregain(p.preamp, tone.headroom, peak);
    let a = "# Generated by ADtune — overwritten when a profile is applied."@;
    let b = "# Profile: "@ + one_line(p.name);
    let c = spaced(preamp_words(before));
    let head = seq![a, b, c];
    let bands = audible(effective(p.bands, tone));
    let all = head + band_lines(bands);
    let start = (double(0), Seq::<FilterBand>::empty());
    lemma_header(start);
    lemma_profile_comment(p.name, start);
    lemma_preamp_line(before, start);
    lemma_first_line(a);
    assert(seq![a, b].drop_last() =~= seq![a]);
    assert(eq_bands(seq![a, b]) == start);
    assert(head.drop_last() =~= seq![a, b]);
    assert(eq_bands(head) == (reread(before, 1), Seq::<FilterBand>::empty()));
    law_effective_valid(p.bands, tone);
    lemma_audible_valid(effective(p.bands, tone));
    lemma_band_lines(head, reread(before, 1), bands);
    assert forall|i: int| 0 <= i < all.len() implies unbroken(#[trigger] all[i]) by {
        if i >= 3 {
            assert(all[i] == band_lines(bands)[i - 3]);
        }
    }
    lemma_lines_document(all);
}

/// Nothing times anything finite is nothing.
proof fn lemma_product_zero(g: Double, wet: Double)
    requires
        g.finite(),
        wet.magnitude() == 0,
    ensures
        g.product(wet).magnitude() == 0,
{
    lemma_units_zero();
    lemma_pow2_pos(1074);
    let p = pow2(1074);
    let u: int = units(g.magnitude() as int);
    assert(u * 0 == 0);
    lemma_nearest_exact(0, p);
    assert(0 * p == 0);
    crate::arith::lemma_rounded(0, p, 0);
}

proof fn lemma_audible_none(bands: Seq<FilterBand>)
    requires
        forall|i: int| 0 <= i < bands.len() ==> (#[trigger] bands[i]).gain.magnitude() == 0,
    ensures
        audible(bands).len() == 0,
    decreases bands.len(),
{
    if bands.len() > 0 {
        let before = bands.drop_last();
        assert forall|i: int| 0 <= i < before.len() implies (#[trigger] before[i]).gain.magnitude()
            == 0 by {
            assert(bands[i].gain.magnitude() == 0);
        }
        lemma_audible_none(before);
        assert(bands[bands.len() - 1].gain.magnitude() == 0);
    }
}

/// Without any correction amount and without trim the configuration has no filters: the
/// sound passes unchanged.
pub proof fn law_bypass_is_flat(bands: Seq<FilterBand>, tone: ToneSettings)
    requires
        forall|i: int| 0 <= i < bands.len() ==> (#[trigger] bands[i]).valid(),
        tone.wet.at_most(double(0)),
        tone.bass.magnitude() == 0,
        tone.tilt.magnitude() == 0,
    ensures
        audible(effective(bands, tone)).len() == 0,
{
    let all = effective(bands, tone);
    assert forall|i: int| 0 <= i < all.len() implies (#[trigger] all[i]).gain.magnitude() == 0 by {
        if i < bands.len() {
            assert(bands[i].valid());
            lemma_product_zero(bands[i].gain, wet_amount(tone));
        } else {
            assert(all[i] == tone_shelves(tone)[i - bands.len()]);
        }
    }
    lemma_audible_none(all);
}

} // verus!
