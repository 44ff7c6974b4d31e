//! Doubles: reading, writing, comparing and scaling, held against the machine's own.

use adtune::decimal::{read_double, read_i64, write_fixed, write_i64, write_number};
use adtune::double::Double;
use adtune::text::{is_white, split_lines, split_words, text_of, trimmed};

fn d(v: f64) -> Double {
    Double { bits: v.to_bits() }
}

fn chars(s: &str) -> Vec<char> {
    s.chars().collect()
}

fn strings(v: Vec<Vec<char>>) -> Vec<String> {
    v.iter().map(text_of).collect()
}

/// A small generator of pseudo-random numbers (SplitMix64).
struct Random(u64);

impl Random {
    fn next(&mut self) -> u64 {
        self.0 = self.0.wrapping_add(0x9E37_79B9_7F4A_7C15);
        let mut z = self.0;
        z = (z ^ (z >> 30)).wrapping_mul(0xBF58_476D_1CE4_E5B9);
        z = (z ^ (z >> 27)).wrapping_mul(0x94D0_49BB_1331_11EB);
        z ^ (z >> 31)
    }
}

fn same_number(got: Option<Double>, expected: Option<f64>, text: &str) {
    match (got, expected) {
        (None, None) => {}
        (Some(g), Some(e)) if e.is_nan() => assert!(g.is_nan(), "{text}"),
        (Some(g), Some(e)) => assert_eq!(g.bits, e.to_bits(), "{text}"),
        _ => panic!("{text}: {got:?} vs {expected:?}"),
    }
}

#[test]
fn reads_what_the_machine_reads() {
    let texts = [
        "0", "-0", "+0", "1", "-1", "1.5", ".5", "5.", "0.1", "-6.3", "105", "20000", "24.0001", "1e3", "1E3", "1e+3",
        "1e-3", "2.5E-7", "1e400", "-1e400", "1e-400", "9e99", "4.9e-324", "2.4703282292062327e-324",
        "2.4703282292062328e-324", "2.2250738585072014e-308", "2.2250738585072011e-308", "1.7976931348623157e308",
        "1.7976931348623158e308", "1.7976931348623159e308", "9007199254740993", "9007199254740992.5",
        "0.000000000000000000000000000000000000000000001", "123456789012345678901234567890", "inf", "-inf", "Infinity",
        "-INFINITY", "nan", "NaN", "-nan", "+inf", "", "+", "-", ".", "e", "E", "e5", ".e5", "1e", "1e+", "1.2.3", "0x1p2",
        "1 ", " 1", "1_000", "infin", "na", "--1", "+-1", "1e5.5", "\u{663}", "1f",
    ];
    for t in texts {
        same_number(read_double(&chars(t)), t.parse::<f64>().ok(), t);
    }
}

#[test]
fn reads_back_every_double_from_its_shortest_form() {
    let mut r = Random(7);
    for _ in 0..3000 {
        let v = f64::from_bits(r.next());
        if v.is_finite() {
            let t = format!("{v:?}");
            same_number(read_double(&chars(&t)), Some(v), &t);
            let long = format!("{v:.30e}");
            same_number(read_double(&chars(&long)), long.parse::<f64>().ok(), &long);
        }
    }
}

#[test]
fn reads_long_numerals_to_the_last_digit() {
    // Halfway between 1 and the next double, and a little more.
    let half = "1.00000000000000011102230246251565404236316680908203125";
    same_number(read_double(&chars(half)), Some(1.0), half);
    let above = format!("{half}{}1", "0".repeat(1500));
    same_number(read_double(&chars(&above)), Some(f64::from_bits(0x3ff0_0000_0000_0001)), "above");
    let tiny = format!("0.{}1", "0".repeat(2000));
    same_number(read_double(&chars(&tiny)), Some(0.0), "tiny");
    let huge = format!("1{}", "0".repeat(500));
    same_number(read_double(&chars(&huge)), Some(f64::INFINITY), "huge");
    let back = format!("{}e-499", huge);
    same_number(read_double(&chars(&back)), Some(10.0), "back");
    same_number(read_double(&chars("1e99999999999999999999999999999")), Some(f64::INFINITY), "far");
    same_number(read_double(&chars("0e99999999999999999999999999999")), Some(0.0), "zero");
    same_number(read_double(&chars("1e-99999999999999999999999999999")), Some(0.0), "near");
}

#[test]
fn writes_what_the_machine_writes() {
    let values = [
        0.0, -0.0, 0.05, 0.25, 0.35, 0.5, 1.5, 2.5, -2.5, 0.04, -0.04, 0.95, 9.95, 99.95, 110.0, 2900.0, 20000.0, -6.3,
        0.7, 1.2, -4.4, 24.0, -24.0, 1e15, 123456789.125, 4503599627370497.5, 9007199254740993.0, 1e22, 1e300, -1e300,
        f64::MAX, f64::MIN_POSITIVE, 4.9e-324, f64::INFINITY, f64::NEG_INFINITY, f64::NAN,
    ];
    for v in values {
        assert_eq!(write_fixed(d(v), 0, false), format!("{v:.0}"));
        assert_eq!(write_fixed(d(v), 1, false), format!("{v:.1}"));
        assert_eq!(write_fixed(d(v), 2, false), format!("{v:.2}"));
        assert_eq!(write_fixed(d(v), 3, false), format!("{v:.3}"));
        assert_eq!(write_fixed(d(v), 5, false), format!("{v:.5}"));
        assert_eq!(write_fixed(d(v), 1, true), format!("{v:+.1}"));
        assert_eq!(write_fixed(d(v), 2, true), format!("{v:+.2}"));
    }
    let mut r = Random(11);
    for _ in 0..3000 {
        let v = (r.next() % 4_000_000) as f64 / 100_000.0 - 20.0;
        assert_eq!(write_fixed(d(v), 1, false), format!("{v:.1}"));
        assert_eq!(write_fixed(d(v), 2, true), format!("{v:+.2}"));
        let w = f64::from_bits(r.next());
        assert_eq!(write_fixed(d(w), 3, false), format!("{w:.3}"));
    }
}

#[test]
fn multiplies_and_divides_as_the_machine_does() {
    let mut r = Random(3);
    let special = [0.0, -0.0, 1.0, -1.0, 0.5, 3.0, f64::INFINITY, f64::NEG_INFINITY, f64::NAN, f64::MAX, 4.9e-324, 1e-300];
    let check = |a: f64, b: f64| {
        let got = d(a).times(d(b));
        let e = a * b;
        if e.is_nan() {
            assert!(got.is_nan());
        } else {
            assert_eq!(got.bits, e.to_bits(), "{a} * {b}");
        }
    };
    for a in special {
        for b in special {
            check(a, b);
        }
    }
    for _ in 0..5000 {
        check(f64::from_bits(r.next()), f64::from_bits(r.next()));
        check((r.next() % 4800) as f64 / 100.0 - 24.0, (r.next() % 101) as f64 / 100.0);
        let a = f64::from_bits(r.next());
        for n in [1u64, 3, 7, 100, 1000, 4294967296] {
            let e = a / n as f64;
            let got = d(a).over(n);
            if e.is_nan() {
                assert!(got.is_nan());
            } else {
                assert_eq!(got.bits, e.to_bits(), "{a} / {n}");
            }
        }
    }
}

#[test]
fn compares_and_clamps_as_the_machine_does() {
    let values = [
        0.0, -0.0, 1.0, -1.0, 24.0, -24.0, 0.1, 20.0, f64::INFINITY, f64::NEG_INFINITY, f64::NAN, 4.9e-324, -4.9e-324, 1e300,
    ];
    for a in values {
        assert_eq!(d(a).is_finite(), a.is_finite());
        assert_eq!(d(a).is_nan(), a.is_nan());
        assert_eq!(d(a).neg().bits, (-a).to_bits());
        assert_eq!(d(a).abs().bits, a.abs().to_bits());
        let c = a.clamp(-24.0, 24.0);
        assert_eq!(d(a).clamp(d(-24.0), d(24.0)).bits, c.to_bits());
        for b in values {
            assert_eq!(d(a).lt(&d(b)), a < b);
            assert_eq!(d(a).le(&d(b)), a <= b);
            assert_eq!(d(a).same(&d(b)), a == b);
            if a != b && !(a.is_nan() && b.is_nan()) {
                assert_eq!(d(a).min(d(b)).bits, a.min(b).to_bits());
                assert_eq!(d(a).max(d(b)).bits, a.max(b).to_bits());
            }
        }
    }
}

#[test]
fn whole_numbers_are_written_and_read() {
    for n in [0u64, 7, 10, 999, 8850, u64::MAX] {
        assert_eq!(write_number(n), n.to_string());
    }
    for n in [0i64, -1, 42, i64::MAX, i64::MIN] {
        assert_eq!(write_i64(n), n.to_string());
        assert_eq!(read_i64(&chars(&n.to_string())), Some(n));
    }
    for t in ["", "-", "+", "+5", "-5", "005", "9223372036854775808", "-9223372036854775809", "1.0", "a", " 1"] {
        assert_eq!(read_i64(&chars(t)), t.parse::<i64>().ok(), "{t}");
    }
}

#[test]
fn whitespace_lines_and_words_are_those_of_std() {
    for n in 0..=0x10ffffu32 {
        if let Some(c) = char::from_u32(n) {
            assert_eq!(is_white(c), c.is_whitespace(), "{n:#x}");
        }
    }
    let texts = ["", "\n", "a", "a\n", "a\r\nb", "a\r\r\nb\r", "\n\n a  b\t c\u{a0}d \n", "x\r", "\u{2028}a\u{3000}b", "one\ntwo\r\n\r\nthree"];
    for t in texts {
        let lines: Vec<String> = t.lines().map(str::to_string).collect();
        assert_eq!(strings(split_lines(&chars(t))), lines, "{t:?}");
        let words: Vec<String> = t.split_whitespace().map(str::to_string).collect();
        assert_eq!(strings(split_words(&chars(t))), words, "{t:?}");
        assert_eq!(text_of(&trimmed(&chars(t))), t.trim(), "{t:?}");
    }
}

/// Numbers are ordered by their values, and a greater one is never written as a lesser.
#[test]
fn order_follows_values() {
    let mut last = d(f64::NEG_INFINITY);
    for v in [-1e300, -24.0, -0.5, -4.9e-324, 0.0, 4.9e-324, 0.1, 1.0, 24.0, 1e300] {
        assert!(last.lt(&d(v)));
        last = d(v);
    }
}
