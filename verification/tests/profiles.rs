//! Bands, profiles, tone and the ParametricEQ text format.

use adtune::double::Double;
use adtune::dsp::{corner_frequency, max_positive_gain_db, shaping_bands};
use adtune::parametric_eq::{parse_eq_bands, parse_parametric_eq, profile_to_parametric_eq, render_parametric_eq};
use adtune::profile::{
    effective_bands, profile_preamp_db, sane_preamp, sane_str, tone_bands, AudioProfile, BandType, FilterBand,
    ToneSettings, MAX_BANDS,
};

fn d(v: f64) -> Double {
    Double { bits: v.to_bits() }
}

fn f(v: Double) -> f64 {
    f64::from_bits(v.bits)
}

fn band(kind: BandType, frequency: f64, gain: f64, q: f64) -> FilterBand {
    FilterBand::new(kind, d(frequency), d(gain), d(q))
}

fn tone(wet: f64, bass: f64, tilt: f64, headroom: bool) -> ToneSettings {
    ToneSettings { wet: d(wet), bass: d(bass), tilt: d(tilt), headroom }
}

// The response of a filter takes sines and powers and is computed by the program, not by the
// library, which is handed the highest boost. The tests compute one of their own, so that what
// the library makes of it can be tested on real profiles; the computation itself is not what
// they test.

/// Normalised biquad coefficients `[b0, b1, b2, a1, a2]`, by the RBJ cookbook.
fn biquad_coeffs(band: &FilterBand, rate: f64) -> [f64; 5] {
    let a = 10f64.powf(f(band.gain) / 40.0);
    let freq = f(corner_frequency(band.frequency, d(rate)));
    let w0 = 2.0 * std::f64::consts::PI * freq / rate;
    let (cw, sw) = (w0.cos(), w0.sin());
    let q = f(band.q);
    let shelf = || {
        let arg = (a + 1.0 / a) * (1.0 / q - 1.0) + 2.0;
        let alpha = if arg > 0.0 { sw / 2.0 * arg.sqrt() } else { 0.0 };
        2.0 * a.sqrt() * alpha
    };
    let (b0, b1, b2, a0, a1, a2) = match band.kind {
        BandType::Peaking => {
            let alpha = sw / (2.0 * q);
            (1.0 + alpha * a, -2.0 * cw, 1.0 - alpha * a, 1.0 + alpha / a, -2.0 * cw, 1.0 - alpha / a)
        }
        BandType::LowShelf => {
            let t = shelf();
            (
                a * ((a + 1.0) - (a - 1.0) * cw + t),
                2.0 * a * ((a - 1.0) - (a + 1.0) * cw),
                a * ((a + 1.0) - (a - 1.0) * cw - t),
                (a + 1.0) + (a - 1.0) * cw + t,
                -2.0 * ((a - 1.0) + (a + 1.0) * cw),
                (a + 1.0) + (a - 1.0) * cw - t,
            )
        }
        BandType::HighShelf => {
            let t = shelf();
            (
                a * ((a + 1.0) + (a - 1.0) * cw + t),
                -2.0 * a * ((a - 1.0) + (a + 1.0) * cw),
                a * ((a + 1.0) + (a - 1.0) * cw - t),
                (a + 1.0) - (a - 1.0) * cw + t,
                2.0 * ((a - 1.0) - (a + 1.0) * cw),
                (a + 1.0) - (a - 1.0) * cw - t,
            )
        }
    };
    [b0 / a0, b1 / a0, b2 / a0, a1 / a0, a2 / a0]
}

/// The level of a cascade at one frequency, in dB.
fn response_db(bands: &Vec<FilterBand>, freq: f64, rate: f64) -> f64 {
    let w = 2.0 * std::f64::consts::PI * freq / rate;
    let mut mag = 1.0;
    for b in &shaping_bands(bands) {
        let [b0, b1, b2, a1, a2] = biquad_coeffs(b, rate);
        let (c1, s1, c2, s2) = (w.cos(), w.sin(), (2.0 * w).cos(), (2.0 * w).sin());
        let (nr, ni) = (b0 + b1 * c1 + b2 * c2, -(b1 * s1 + b2 * s2));
        let (dr, di) = (1.0 + a1 * c1 + a2 * c2, -(a1 * s1 + a2 * s2));
        mag *= ((nr * nr + ni * ni) / (dr * dr + di * di)).sqrt();
    }
    20.0 * f64::log10(mag)
}

/// The highest boost of a cascade, from 512 points between 20 Hz and 20 kHz.
fn peak(bands: &Vec<FilterBand>) -> Double {
    let levels: Vec<Double> = (0..512)
        .map(|i| d(response_db(bands, 20.0 * 1000f64.powf(i as f64 / 511.0), 48000.0)))
        .collect();
    max_positive_gain_db(&levels)
}

fn render(profile: &AudioProfile, tone: &ToneSettings) -> String {
    render_parametric_eq(profile, tone, peak(&effective_bands(profile, tone)))
}

fn m50x() -> AudioProfile {
    AudioProfile {
        name: "Audio-Technica ATH-M50x".into(),
        bands: vec![
            band(BandType::LowShelf, 110.0, -3.5, 1.0),
            band(BandType::Peaking, 2900.0, 2.7, 1.2),
            band(BandType::HighShelf, 9000.0, -4.4, 1.0),
        ],
        ..Default::default()
    }
}

#[test]
fn parser_survives_adversarial_random_input() {
    // Deterministic PRNG (SplitMix64) so the test is reproducible.
    let mut seed: u64 = 0x9E37_79B9_7F4A_7C15;
    let mut next = || {
        seed = seed.wrapping_add(0x9E37_79B9_7F4A_7C15);
        let mut z = seed;
        z = (z ^ (z >> 30)).wrapping_mul(0xBF58_476D_1CE4_E5B9);
        z = (z ^ (z >> 27)).wrapping_mul(0x94D0_49BB_1331_11EB);
        z ^ (z >> 31)
    };
    const TOKENS: &[&str] = &[
        "Filter", "1:", "12:", "ON", "OFF", "PK", "LSC", "HSC", "LP", "Fc", "Hz", "Gain", "dB", "Q", "Preamp:", "nan",
        "NaN", "inf", "-inf", "1e400", "1e-400", "0", "-0", "1000", "999999999999", "-999999999999", "1.5", "-24",
        "24.0001", "48000", "0.0", "\n", "\r\n", " ", "\t", "{", "}", "\"", ";", "e", "E", "0x1p2", ".", "-", "+",
    ];
    const RATES: &[f64] = &[8000.0, 16000.0, 44100.0, 48000.0, 96000.0, 192000.0];
    for &rate in RATES {
        for _ in 0..12_000 {
            let words = (next() % 16) as usize;
            let mut text = String::new();
            for _ in 0..words {
                text.push_str(TOKENS[(next() as usize) % TOKENS.len()]);
                text.push(if next() % 3 == 0 { '\n' } else { ' ' });
            }
            let (preamp, bands) = parse_eq_bands(&text);
            let preamp = f(preamp);
            assert!(
                preamp.is_finite() && (-24.0..=24.0).contains(&preamp),
                "preamp {preamp} from {text:?}"
            );
            assert!(bands.len() <= MAX_BANDS, "band count {} exceeds cap", bands.len());
            for b in &bands {
                assert!((20.0..=20000.0).contains(&f(b.frequency)));
                assert!((-24.0..=24.0).contains(&f(b.gain)));
                assert!((0.1..=20.0).contains(&f(b.q)));
                for v in biquad_coeffs(b, rate) {
                    assert!(v.is_finite(), "non-finite coeff {v} at rate {rate} from {text:?}");
                }
            }
        }
    }
}

#[test]
fn full_config_has_preamp_and_filters() {
    let cfg = render(&m50x(), &ToneSettings::default());
    assert!(cfg.starts_with("# Generated by ADtune"));
    assert!(cfg.contains("Preamp: "));
    assert!(cfg.contains("Filter 1: ON LSC Fc 110 Hz Gain -3.5 dB Q 1.00"));
    assert!(cfg.contains("ON PK Fc 2900 Hz Gain 2.7 dB Q 1.20"));
    assert!(cfg.contains("ON HSC Fc 9000 Hz Gain -4.4 dB Q 1.00"));
    assert!(cfg.contains("\r\n"), "uses CRLF line endings");
    assert_eq!(cfg.matches("Filter ").count(), 3);
}

#[test]
fn bypass_is_flat() {
    let cfg = render(&m50x(), &tone(0.0, 0.0, 0.0, true));
    assert_eq!(cfg.matches("Filter ").count(), 0);
    assert!(cfg.contains("Preamp: 0.0 dB") || cfg.contains("Preamp: -0.0 dB"));
}

#[test]
fn tone_adds_shelves() {
    let cfg = render(&m50x(), &tone(1.0, 4.0, 3.0, true));
    assert_eq!(cfg.matches("Filter ").count(), 6);
}

#[test]
fn filter_numbers_are_contiguous() {
    let cfg = render(&m50x(), &ToneSettings::default());
    for expected in 1..=3 {
        assert!(cfg.contains(&format!("Filter {expected}: ON")), "missing filter {expected}");
    }
}

#[test]
fn non_finite_values_are_rejected() {
    let (preamp, bands) = parse_eq_bands(
        "Preamp: nan dB\n\
         Filter 1: ON PK Fc nan Hz Gain 3 dB Q 1.0\n\
         Filter 2: ON PK Fc 1000 Hz Gain inf dB Q 1.0\n\
         Filter 3: ON PK Fc 1000 Hz Gain 3 dB Q nan\n\
         Filter 4: ON PK Fc 1000 Hz Gain 3 dB Q 1.0\n",
    );
    assert_eq!(f(preamp), 0.0);
    assert_eq!(bands.len(), 1, "only the well-formed band survives");
    assert!(f(bands[0].frequency).is_finite());
}

#[test]
fn band_count_is_capped_during_parse() {
    let mut text = String::new();
    for i in 1..=100 {
        text.push_str(&format!("Filter {i}: ON PK Fc 1000 Hz Gain 1 dB Q 1.0\n"));
    }
    let (_, bands) = parse_eq_bands(&text);
    assert_eq!(bands.len(), 32);
}

#[test]
fn profile_export_round_trips() {
    let mut profile = m50x();
    profile.preamp = d(-6.3);
    let text = profile_to_parametric_eq(&profile);
    let back = parse_parametric_eq(&text, "ATH-M50x").unwrap();
    assert!((f(back.preamp) - -6.3).abs() < 1e-9);
    assert_eq!(back.bands.len(), profile.bands.len());
    for (got, exp) in back.bands.iter().zip(&profile.bands) {
        assert_eq!(got.kind, exp.kind);
        assert!((f(got.frequency) - f(exp.frequency)).abs() < 0.5);
        assert!((f(got.gain) - f(exp.gain)).abs() < 0.05);
        assert!((f(got.q) - f(exp.q)).abs() < 0.005);
    }
}

#[test]
fn preamp_only_profile_round_trips() {
    let profile = AudioProfile { name: "Trim only".into(), preamp: d(-4.0), ..Default::default() };
    let text = profile_to_parametric_eq(&profile);
    let back = parse_parametric_eq(&text, "Trim only").unwrap();
    assert!(back.bands.is_empty());
    assert!((f(back.preamp) - -4.0).abs() < 1e-9);
    assert!(parse_parametric_eq("just some random text\n", "x").is_err());
}

#[test]
fn render_round_trips_through_parse() {
    let profile = m50x();
    let tone = ToneSettings::default();
    let text = render(&profile, &tone);
    let (_preamp, bands) = parse_eq_bands(&text);
    let expected: Vec<FilterBand> = effective_bands(&profile, &tone)
        .into_iter()
        .filter(|b| f(b.gain).abs() >= 0.05)
        .collect();
    assert_eq!(bands.len(), expected.len());
    for (got, exp) in bands.iter().zip(&expected) {
        assert_eq!(got.kind, exp.kind);
        assert!((f(got.frequency) - f(exp.frequency)).abs() < 0.5, "Fc {:?} vs {:?}", got, exp);
        assert!((f(got.gain) - f(exp.gain)).abs() < 0.05, "Gain {:?} vs {:?}", got, exp);
        assert!((f(got.q) - f(exp.q)).abs() < 0.005, "Q {:?} vs {:?}", got, exp);
    }
}

#[test]
fn filter_band_sanitizes_on_construction() {
    let b = band(BandType::Peaking, f64::NAN, f64::INFINITY, 0.0);
    assert_eq!(f(b.frequency), 1000.0);
    assert_eq!(f(b.gain), 0.0);
    assert!((f(b.q) - 0.1).abs() < 1e-12);
}

#[test]
fn parses_parametric_eq() {
    let text = "Preamp: -6.3 dB\n\
                Filter 1: ON LSC Fc 105 Hz Gain 6.5 dB Q 0.70\n\
                Filter 2: ON PK Fc 125 Hz Gain -2.7 dB Q 0.55\n\
                Filter 6: ON HSC Fc 10000 Hz Gain -3.1 dB Q 0.70\n";
    let p = parse_parametric_eq(text, "Test HP").unwrap();
    assert_eq!(p.name, "Test HP");
    assert!((f(p.preamp) - -6.3).abs() < 1e-9);
    assert_eq!(p.bands.len(), 3);
    assert_eq!(p.bands[0].kind, BandType::LowShelf);
    assert_eq!(p.bands[1].kind, BandType::Peaking);
    assert_eq!(p.bands[2].kind, BandType::HighShelf);
}

#[test]
fn safe_headroom_offsets_peak_boost() {
    let bands = vec![band(BandType::LowShelf, 105.0, 6.5, 0.7), band(BandType::Peaking, 3000.0, 3.0, 1.0)];
    let peak = f(peak(&bands));
    assert!(peak > 6.0 && peak < 9.0, "peak boost {peak}");
}

#[test]
fn tone_layer_composes() {
    let profile = AudioProfile {
        name: "x".into(),
        bands: vec![band(BandType::Peaking, 1000.0, 4.0, 1.0)],
        ..Default::default()
    };
    let tone = tone(0.5, 3.0, 2.0, true);
    let eff = effective_bands(&profile, &tone);
    assert_eq!(eff.len(), 1 + 3);
    assert!((f(eff[0].gain) - 2.0).abs() < 1e-9, "wet scaling");
    assert!(f(profile_preamp_db(&profile, &tone, peak(&eff))) <= 0.0);
}

#[test]
fn spellings_of_band_types() {
    for (s, k) in [
        ("PK", Some(BandType::Peaking)),
        (" peak ", Some(BandType::Peaking)),
        ("Bell", Some(BandType::Peaking)),
        ("bq_peaking", Some(BandType::Peaking)),
        ("P\u{212a}", Some(BandType::Peaking)),
        ("BQ_LOWSHELF", Some(BandType::LowShelf)),
        ("low_shelf", Some(BandType::LowShelf)),
        ("LSC", Some(BandType::LowShelf)),
        ("ls", Some(BandType::LowShelf)),
        ("high_shelf", Some(BandType::HighShelf)),
        ("HSC", Some(BandType::HighShelf)),
        ("hs", Some(BandType::HighShelf)),
        ("LP", None),
        ("bq_", None),
        ("bq_bq_pk", None),
        ("", None),
        ("p\u{212b}", None),
        ("\u{130}", None),
    ] {
        assert_eq!(BandType::parse(s), k, "{s:?}");
    }
    for k in [BandType::LowShelf, BandType::Peaking, BandType::HighShelf] {
        assert_eq!(BandType::parse(k.as_str()), Some(k));
        assert_eq!(BandType::parse(k.pw_label()), Some(k));
        assert_eq!(BandType::parse(k.eq_code()), Some(k));
    }
    // No other character has a lower-case form of ASCII characters alone.
    for n in 0x80..=0x10ffffu32 {
        if let Some(c) = char::from_u32(n) {
            if c != '\u{212a}' {
                assert!(!c.to_lowercase().all(|l| l.is_ascii()), "{n:#x}");
            }
        }
    }
}

#[test]
fn texts_are_shortened_at_a_character() {
    assert_eq!(sane_str("short"), "short");
    let exact = "a".repeat(256);
    assert_eq!(sane_str(&exact), exact);
    assert_eq!(sane_str(&"a".repeat(300)), exact);
    // 255 bytes, then a character of three: it begins within the bound and stays.
    let edge = format!("{}€€", "a".repeat(255));
    assert_eq!(sane_str(&edge), format!("{}€", "a".repeat(255)));
    let wide = "é".repeat(200);
    assert_eq!(sane_str(&wide), "é".repeat(128));
    assert_eq!(sane_str(&sane_str(&edge)), sane_str(&edge));
}

#[test]
fn preamp_is_brought_into_range() {
    assert_eq!(f(sane_preamp(d(-1e308))), -24.0);
    assert_eq!(f(sane_preamp(d(30.0))), 24.0);
    assert_eq!(f(sane_preamp(d(-6.3))), -6.3);
    assert_eq!(f(sane_preamp(d(f64::NAN))), 0.0);
    assert_eq!(f(sane_preamp(d(f64::INFINITY))), 0.0);
}

#[test]
fn tone_shelves_mirror_each_other() {
    let [bass, low, high] = tone_bands(&tone(1.0, 3.0, 2.0, true));
    assert_eq!((bass.kind, f(bass.frequency), f(bass.gain), f(bass.q)), (BandType::LowShelf, 105.0, 3.0, 0.7));
    assert_eq!((low.kind, f(low.frequency), f(low.gain), f(low.q)), (BandType::LowShelf, 1000.0, -2.0, 0.5));
    assert_eq!((high.kind, f(high.frequency), f(high.gain), f(high.q)), (BandType::HighShelf, 1000.0, 2.0, 0.5));
}

#[test]
fn preamp_without_headroom_is_that_of_the_profile() {
    let mut p = m50x();
    p.preamp = d(-5.0);
    let t = tone(1.0, 0.0, 0.0, false);
    assert_eq!(f(profile_preamp_db(&p, &t, d(9.0))), -5.0);
    p.preamp = d(5.0);
    assert_eq!(f(profile_preamp_db(&p, &t, d(9.0))), 0.0);
    assert_eq!(f(profile_preamp_db(&p, &ToneSettings::default(), d(9.0))), -9.0);
}

#[test]
fn exported_text_is_exact() {
    let mut p = m50x();
    p.name = "Two\r\nlines".into();
    p.preamp = d(-6.25);
    p.bands.truncate(1);
    assert_eq!(
        profile_to_parametric_eq(&p),
        "# Two  lines\r\nPreamp: -6.2 dB\r\nFilter 1: ON LSC Fc 110 Hz Gain -3.5 dB Q 1.00\r\n"
    );
    assert_eq!(
        render_parametric_eq(&p, &tone(1.0, 0.0, 0.0, true), d(1.5)),
        "# Generated by ADtune — overwritten when a profile is applied.\r\n# Profile: Two  lines\r\nPreamp: -1.5 dB\r\n\
         Filter 1: ON LSC Fc 110 Hz Gain -3.5 dB Q 1.00\r\n"
    );
}

#[test]
fn odd_lines_are_read_as_far_as_they_go() {
    // Keys in any case and any order; the last valid preamp counts.
    let (p, b) = parse_eq_bands("PREAMP: 3\nPreamp: x\nfilter 9: q 2 gain -1 fc 50 on pk\nFilter 1: OFF PK Fc 1 Gain 1 Q 1\n");
    assert_eq!(f(p), 3.0);
    assert_eq!(b, vec![band(BandType::Peaking, 50.0, -1.0, 2.0)]);
    let (p, b) = parse_eq_bands("Preamp: -99 dB\nFilter 2: ON LSC Fc 5 Gain 99 Q 0\n");
    assert_eq!(f(p), -24.0);
    assert_eq!(b, vec![band(BandType::LowShelf, 20.0, 24.0, 0.1)]);
    assert_eq!(parse_eq_bands("Filter 1: ON PK Fc 100 Gain 1 Q\n").1.len(), 0);
}

#[test]
fn import_names_and_errors() {
    let p = parse_parametric_eq("  preamp: 0\n", "  ").unwrap();
    assert_eq!(p.name, "Imported profile");
    assert_eq!(p.detail, "Imported ParametricEQ");
    assert_eq!(
        parse_parametric_eq("", "x").unwrap_err(),
        "No 'Filter N: ON PK/LSC/HSC …' lines were found in that file."
    );
}

#[test]
fn a_hundred_band_profile_reads_back_to_the_cap() {
    // More bands than the reader takes: the law of reading back leaves these out.
    let p = AudioProfile { bands: vec![band(BandType::Peaking, 100.0, 1.0, 1.0); 40], ..Default::default() };
    assert_eq!(parse_eq_bands(&profile_to_parametric_eq(&p)).1.len(), 32);
}

#[test]
fn highest_boost_ignores_what_is_no_number() {
    assert_eq!(f(max_positive_gain_db(&vec![])), 0.0);
    assert_eq!(f(max_positive_gain_db(&vec![d(-3.0), d(f64::NAN), d(2.5), d(1.0)])), 2.5);
    assert_eq!(shaping_bands(&vec![band(BandType::Peaking, 100.0, 0.0, 1.0), band(BandType::Peaking, 100.0, 1.0, 1.0)]).len(), 1);
}

#[test]
fn headroom_takes_away_the_highest_boost() {
    let levels = vec![d(-3.0), d(5.5), d(1.0)];
    let tone = ToneSettings { headroom: true, ..ToneSettings::default() };
    let profile = AudioProfile { preamp: d(-1.0), ..AudioProfile::default() };
    let before = profile_preamp_db(&profile, &tone, max_positive_gain_db(&levels));
    assert_eq!(f(before), -5.5);
    assert!(levels.iter().all(|l| f(*l) + f(before) <= 0.0));
}

#[test]
fn corners_stay_below_half_of_the_rate() {
    assert_eq!(f(corner_frequency(d(1000.0), d(48000.0))), 1000.0);
    assert_eq!(f(corner_frequency(d(20000.0), d(16000.0))), 0.49 * 16000.0);
    assert_eq!(f(corner_frequency(d(20000.0), d(0.0))), 1.0);
    assert_eq!(f(corner_frequency(d(0.25), d(48000.0))), 1.0);
}
