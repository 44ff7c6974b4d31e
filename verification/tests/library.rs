//! Stored profiles, the catalog and the library of files.

use adtune::catalog::{ranking, to_profile, unpack_catalog, Catalog, CatalogError, RawProfile};
use adtune::double::Double;
use adtune::pipewire::controller::PipeWire;
use adtune::profile::{AudioProfile, BandType, FilterBand, ToneSettings};
use adtune::state::{StoredBand, StoredProfile, StoredState, StoredTone};
use adtune::store::{file_format, file_name, first_free, import_name, is_profile_file, list_order, name_order, slug, FileFormat};
use std::io::{Read, Write};

fn d(v: f64) -> Double {
    Double { bits: v.to_bits() }
}

fn f(v: Double) -> f64 {
    f64::from_bits(v.bits)
}

fn chars(s: &str) -> Vec<char> {
    s.chars().collect()
}

/// A stored band out of a JSON object; `q` is 1 where it is missing.
fn json_band(v: &serde_json::Value) -> StoredBand {
    StoredBand {
        kind: v["type"].as_str().unwrap().to_string(),
        frequency: d(v["frequency"].as_f64().unwrap()),
        gain: d(v["gain"].as_f64().unwrap()),
        q: d(v.get("q").map_or(1.0, |q| q.as_f64().unwrap())),
    }
}

/// A stored profile out of a JSON object; most members may be missing.
fn json_profile(v: &serde_json::Value) -> StoredProfile {
    let text = |k: &str| v.get(k).map_or(String::new(), |s| s.as_str().unwrap().to_string());
    StoredProfile {
        key: text("key"),
        name: text("name"),
        detail: text("detail"),
        preamp: d(v.get("preamp").map_or(0.0, |p| p.as_f64().unwrap())),
        bands: v["bands"].as_array().unwrap().iter().map(json_band).collect(),
        source: text("source"),
        form: text("form"),
    }
}

fn profile_from_json(text: &str) -> AudioProfile {
    json_profile(&serde_json::from_str::<serde_json::Value>(text).unwrap()).to_profile()
}

#[test]
fn hostile_json_preamp_is_sanitized() {
    let json = r#"{"key":"x","name":"x","preamp":-1e308,"bands":[]}"#;
    let p = profile_from_json(json);
    assert!(f(p.preamp).is_finite() && (-24.0..=24.0).contains(&f(p.preamp)));
}

#[test]
fn hostile_json_bands_are_sanitized() {
    let json = r#"{"key":"x","name":"x","preamp":0,
        "bands":[{"type":"peaking","frequency":9e99,"gain":9e99,"q":0}]}"#;
    let p = profile_from_json(json);
    let b = p.bands[0];
    assert!((20.0..=20000.0).contains(&f(b.frequency)));
    assert!((-24.0..=24.0).contains(&f(b.gain)));
    assert!((0.1..=20.0).contains(&f(b.q)));
}

/// The program reads JSON with derived code of its own; here the members are read one by one,
/// and the library is tested on what they hold.
#[test]
fn legacy_state_json_parses_as_desired_fields() {
    let json = r#"{
        "revision": 1, "enabled": true,
        "profile": {"key":"k","name":"n","bands":[]},
        "target_id": 55, "target_name": "sink",
        "tone": {"wet":1.0,"bass":0.0,"tilt":0.0,"headroom":true},
        "bypassed": false
    }"#;
    let v = serde_json::from_str::<serde_json::Value>(json).unwrap();
    let tone = &v["tone"];
    let d = adtune::pipewire::ipc::DesiredState {
        revision: v["revision"].as_u64().unwrap(),
        enabled: v["enabled"].as_bool().unwrap(),
        state: StoredState {
            profile: json_profile(&v["profile"]),
            target_id: v["target_id"].as_i64().unwrap(),
            target_name: v["target_name"].as_str().unwrap().to_string(),
            tone: StoredTone {
                wet: d(tone["wet"].as_f64().unwrap()),
                bass: d(tone["bass"].as_f64().unwrap()),
                tilt: d(tone["tilt"].as_f64().unwrap()),
                headroom: tone["headroom"].as_bool().unwrap(),
            },
            bypassed: v["bypassed"].as_bool().unwrap(),
        },
    };
    assert_eq!(d.state.target_id, 55);
    // What the library makes of it.
    let pw = PipeWire::new();
    assert_eq!(pw.active_profile(Some(&d)).unwrap().name, "n");
    assert_eq!(pw.active_tone(Some(&d)), ToneSettings::default());
    assert_eq!(pw.saved_target_name(Some(d)).as_deref(), Some("sink"));
}

fn sample() -> AudioProfile {
    AudioProfile {
        key: "custom:test-hp".into(),
        name: "Test HP".into(),
        preamp: d(-3.2),
        bands: vec![
            FilterBand::new(BandType::LowShelf, d(105.0), d(4.0), d(0.7)),
            FilterBand::new(BandType::Peaking, d(2500.0), d(-2.0), d(1.5)),
        ],
        ..Default::default()
    }
}

#[test]
fn stored_profile_comes_back() {
    let p = sample();
    let back = StoredProfile::from_profile(&p).to_profile();
    assert_eq!((back.key, back.name, back.preamp, back.bands), (p.key, p.name, p.preamp, p.bands));
}

#[test]
fn stored_profile_is_bounded() {
    let mut s = StoredProfile::from_profile(&sample());
    s.name = "n".repeat(1000);
    s.bands = (0..50)
        .map(|i| StoredBand {
            kind: if i % 2 == 0 { "peaking".into() } else { "notch".into() },
            frequency: d(100.0),
            gain: d(1.0),
            q: d(1.0),
        })
        .collect();
    let p = s.to_profile();
    assert_eq!(p.name.len(), 256);
    assert_eq!(p.bands.len(), 16, "of the first 32 bands every other one is usable");
}

#[test]
fn stored_tone_is_clamped() {
    let t = StoredTone { wet: d(7.0), bass: d(-60.0), tilt: d(60.0), headroom: false }.to_tone();
    assert_eq!((f(t.wet), f(t.bass), f(t.tilt), t.headroom), (1.0, -6.0, 6.0, false));
    let neutral = ToneSettings::default();
    assert_eq!(StoredTone::from_tone(&neutral).to_tone(), neutral);
    assert!(f(StoredTone { wet: d(f64::NAN), ..StoredTone::from_tone(&neutral) }.to_tone().wet).is_nan());
    let bypass = ToneSettings { wet: d(0.0), ..neutral };
    assert!(StoredState::new(&sample(), 1i64, "t", &bypass).bypassed);
    assert!(!StoredState::new(&sample(), 1i64, "t", &neutral).bypassed);
}

#[test]
fn restored_profiles_stay_as_they_are() {
    // 255 bytes and a character of four more: it begins within the bound.
    let name = "n".repeat(255) + "🎧";
    let long = AudioProfile { name: name.clone() + "x", ..sample() };
    let once = StoredProfile::from_profile(&long).to_profile();
    assert_eq!((once.name.len(), &once.name), (259, &name));
    let twice = StoredProfile::from_profile(&once).to_profile();
    assert_eq!(twice.name, once.name);
}

fn raw(key: &str, name: &str, source: &str, form: &str, kinds: &[&str]) -> RawProfile {
    RawProfile {
        key: key.into(),
        name: name.into(),
        source: source.into(),
        form: form.into(),
        preamp: d(-6.3),
        bands: kinds
            .iter()
            .map(|k| StoredBand { kind: k.to_string(), frequency: d(1000.0), gain: d(1.0), q: d(1.0) })
            .collect(),
    }
}

fn catalog() -> Catalog {
    Catalog::from_raw(vec![
        raw("a", "Sennheiser HD 600", "oratory1990", "over-ear", &["PK"]),
        raw("b", "Sennheiser HD 650", "oratory1990", "over-ear", &["PK"]),
        raw("c", "HD 600", "crinacle", "over-ear", &["PK"]),
        raw("d", "HD 600 (used)", "Rtings", "in-ear", &["PK"]),
        raw("e", "Broken", "x", "over-ear", &["notch"]),
        raw("f", "hd 600", "Alpha", "over-ear", &["LSC"]),
        raw("g", "Other", "HD 600 lab", "over-ear", &["HSC"]),
    ])
}

fn keys(c: &Catalog, query: &str, form: &str, limit: usize) -> Vec<String> {
    c.search(query, form, limit).iter().map(|p| p.key.clone()).collect()
}

/// A full catalog loads with all of its entries, a known key resolves to the expected
/// profile, and a search within a form gives relevant hits. The catalog that is shipped is
/// data and no part of the library, so the entries are made up here, in its form and number.
#[test]
fn catalog_loads_and_searches() {
    let key = "autoeq-oratory1990-over-ear-sennheiser-hd-600";
    let mut entries: Vec<RawProfile> = (0..5000)
        .map(|i| raw(&format!("autoeq-{i}"), &format!("Model {i}"), "crinacle", "in-ear", &["PK", "HSC"]))
        .collect();
    entries.push(raw(key, "Sennheiser HD 600", "oratory1990", "over-ear", &["PK"; 10]));
    entries.push(raw("autoeq-in-ear-hd-600", "HD 600", "Rtings", "in-ear", &["PK"]));
    entries.push(raw("autoeq-hd-650", "Sennheiser HD 650", "oratory1990", "over-ear", &["PK"]));
    let cat = Catalog::from_raw(entries);
    assert!(cat.len() > 5000, "catalog has {} entries", cat.len());

    let hd600 = cat.get(key).expect("HD 600 present");
    assert_eq!(hd600.name, "Sennheiser HD 600");
    assert_eq!(hd600.bands.len(), 10);
    assert!((f(hd600.preamp) - -6.3).abs() < 1e-9);

    let hits = cat.search("hd 600", "over-ear", 5);
    assert!(!hits.is_empty());
    assert!(hits.iter().all(|h| h.form == "over-ear"));
    assert!(hits[0].name.to_lowercase().contains("hd 600"));
}

#[test]
fn catalog_keeps_entries_with_usable_bands() {
    let c = catalog();
    assert_eq!(c.len(), 6);
    assert!(!c.is_empty());
    assert!(Catalog::from_raw(vec![]).is_empty());
    assert!(c.get("e").is_none());
    let hd600 = c.get("a").expect("HD 600 present");
    assert_eq!(hd600.name, "Sennheiser HD 600");
    assert!((f(hd600.preamp) - -6.3).abs() < 1e-9);
    assert_eq!(hd600.detail, "over-ear · measured by oratory1990");
    assert_eq!(to_profile(raw("k", "n", "", "", &["PK"])).unwrap().detail, "AutoEq correction");
    assert_eq!(to_profile(raw("k", "n", "s", "", &["PK"])).unwrap().detail, "measured by s");
    assert_eq!(to_profile(raw("k", "n", "", "f", &["PK"])).unwrap().detail, "f");
    assert!(to_profile(raw("k", "n", "", "", &[])).is_none());
}

#[test]
fn search_ranks_tight_matches_first() {
    let c = catalog();
    // Exact names first (by source where the names are equal), then a name that begins
    // with the query, then one that holds it, then a match by the source alone.
    assert_eq!(keys(&c, "hd 600", "", 25), ["f", "c", "d", "a", "g"]);
    assert_eq!(keys(&c, "HD  600 ", "over-ear", 25), ["f", "c", "a", "g"]);
    assert_eq!(keys(&c, "hd 600", "", 2), ["f", "c"]);
    assert_eq!(keys(&c, "600 sennheiser", "", 25), ["a"]);
    assert_eq!(keys(&c, "nothing", "", 25), Vec::<String>::new());
    assert_eq!(keys(&c, "", "in-ear", 25), ["d"]);
    // Without a query: by name, then by source, without regard to case.
    assert_eq!(keys(&c, "", "", usize::MAX), ["f", "c", "d", "g", "a", "b"]);
    let hits = c.search("hd 600", "over-ear", 5);
    assert!(!hits.is_empty());
    assert!(hits.iter().all(|h| h.form == "over-ear"));
    assert!(hits[0].name.to_lowercase().contains("hd 600"));
}

#[test]
fn shorter_names_rank_higher() {
    let names = vec![chars("hd 600 special edition"), chars("hd 600 se"), chars("hd 600")];
    let sources = vec![chars(""), chars(""), chars("")];
    assert_eq!(ranking(&names, &sources, &vec![true, true, true], &chars("hd 600")), vec![2, 1, 0]);
    assert_eq!(ranking(&names, &sources, &vec![true, false, true], &chars("hd")), vec![2, 0]);
    assert_eq!(ranking(&names, &sources, &vec![false; 3], &chars("")), Vec::<usize>::new());
}

#[test]
fn search_finds_names_beyond_ascii() {
    let c = Catalog::from_raw(vec![raw("u", "ÜBERSOUND Ωmega", "Łukasz", "", &["PK"])]);
    assert_eq!(keys(&c, "übersound", "", 5), ["u"]);
    assert_eq!(keys(&c, "ŁUKASZ ωMEGA", "", 5), ["u"]);
}

fn gzip(data: &[u8]) -> Vec<u8> {
    let mut e = flate2::write::GzEncoder::new(Vec::new(), flate2::Compression::fast());
    e.write_all(data).unwrap();
    e.finish().unwrap()
}

#[test]
fn catalogs_are_unpacked() {
    let text = r#"{"profiles":[]}"#;
    assert_eq!(unpack_catalog(&gzip(text.as_bytes())), Ok(text.to_string()));
    // What is wrong is said in the words of the decoder.
    let whole = gzip(text.as_bytes());
    for bad in [text.as_bytes().to_vec(), gzip(&[0xff, 0xfe]), whole[..whole.len() / 2].to_vec()] {
        let words = flate2::read::GzDecoder::new(&bad[..]).read_to_string(&mut String::new()).unwrap_err().to_string();
        let error = unpack_catalog(&bad).unwrap_err();
        assert_eq!(error.message(), words);
        assert_eq!(error, CatalogError::Damaged(words));
    }
    assert_eq!(unpack_catalog(b"not compressed").unwrap_err().message(), "invalid gzip header");
}

#[test]
fn file_names_are_safe_and_fresh() {
    let p = sample();
    assert_eq!(slug(&p), "custom-test-hp");
    assert_eq!(file_name(&p, 1), "custom-test-hp.adtuneprofile");
    assert_eq!(file_name(&p, 2), "custom-test-hp-2.adtuneprofile");
    let mut taken = Vec::new();
    for n in 1..5 {
        assert_eq!(first_free(&p, &taken), n);
        taken.push(file_name(&p, n));
    }
    taken.remove(1);
    assert_eq!(first_free(&p, &taken), 2);
    assert_eq!(first_free(&p, &vec!["other.adtuneprofile".to_string()]), 1);
    assert_eq!(file_name(&p, 12), "custom-test-hp-12.adtuneprofile");
    let odd = AudioProfile { key: "  ".into(), name: "--Ünïcode / ../Name!--".into(), ..Default::default() };
    assert_eq!(slug(&odd), "n-code------name");
    assert_eq!(slug(&AudioProfile { name: "???".into(), ..Default::default() }), "profile");
    // Two profiles of the same name do not share a file: the first free name is taken.
    let a = AudioProfile { key: String::new(), name: "ParametricEQ".into(), ..sample() };
    let taken = [file_name(&a, 1)];
    let free = (1..).map(|n| file_name(&a, n)).find(|n| !taken.contains(n)).unwrap();
    assert_ne!(taken[0], free, "distinct profiles must not share a file");
}

#[test]
fn files_are_told_apart_by_extension() {
    for (e, native) in [("adtuneprofile", true), ("AdtuneProfile", true), ("json", true), ("JSON", true), ("txt", false), ("", false)] {
        assert_eq!(file_format(Some(e)) == FileFormat::Native, native, "{e}");
    }
    assert_eq!(file_format(None), FileFormat::ParametricEq);
    assert!(is_profile_file(Some("ADTUNEPROFILE")) && !is_profile_file(Some("json")) && !is_profile_file(None));
    assert_eq!(import_name(Some("MyEQ"), Some("dir")), "MyEQ");
    assert_eq!(import_name(Some("ParametricEQ"), Some("HD 600")), "HD 600");
    assert_eq!(import_name(Some("PARAMETRIC"), Some("HD 600")), "HD 600");
    assert_eq!(import_name(Some("ParametricEQ"), Some("")), "ParametricEQ");
    assert_eq!(import_name(Some("ParametricEQ"), None), "ParametricEQ");
    assert_eq!(import_name(None, Some("dir")), "Imported profile");
}

#[test]
fn library_is_listed_by_name() {
    let p = |n: &str| AudioProfile { name: n.into(), ..Default::default() };
    assert_eq!(list_order(&vec![p("beta"), p("Alpha"), p("ALPHA"), p("Ümlaut"), p("alphabet")]), vec![1, 2, 4, 0, 3]);
    assert_eq!(list_order(&vec![]), Vec::<usize>::new());
    assert_eq!(name_order(&vec![chars("b"), chars("a"), chars("b")]), vec![1, 0, 2]);
}
