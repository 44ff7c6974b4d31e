//! The window, the processing object and the command line.

use adtune::apo::format::{
    format_from_wave_format, lock, negotiate_format, ApoError, AudioFormat, Negotiation, WaveFormat, SUBTYPE_IEEE_FLOAT,
};
use adtune::apo::object::{
    can_create, can_unload, process, query_interface, registration, write_wstr, Answer, Buffer, Interface, Work,
    BUFFER_SILENT, BUFFER_VALID,
};
use adtune::apo::processor::{channels_for, config_bands, layout};
use adtune::apo::watch::config_changed;
use adtune::catalog::{Catalog, RawProfile};
use adtune::cli::{count_line, hit_line, parse_command, response_head, response_line, unknown_profile, Command};
use adtune::double::Double;
use adtune::pipewire::controller::OutputDevice as Sink;
use adtune::profile::{AudioProfile, BandType, FilterBand, ToneSettings};
use adtune::state::StoredBand;
use adtune::store::FileFormat;
use adtune::ui::editor::{flat_profile, fmt_hz, i_to_kind, kind_to_i, window_title, Commit, Edit, Editor, Pending, SavedProfile};
use adtune::ui::files::{export_name, export_plan, maintenance, relaunch_in_software, rgba_bytes, shot_size, Maintenance};
use adtune::ui::graph::{build_graph, db_range, grid_levels, sample_count, Geometry};
use adtune::ui::nowhere;
use adtune::ui::results::{count_line as list_count, thousands};
use adtune::ui::status::{
    apply_outcome, correction_on, device_named, pick_output_index, read_tone, selected_device, set_correction, Outcome,
};
use adtune::ui::sys::{
    device_to_endpoint, device_to_sink, disable_argument, enable_argument, endpoint_to_device, sink_to_device, Device,
};
use adtune::windows::devices::OutputDevice as Endpoint;

fn d(v: f64) -> Double {
    Double { bits: v.to_bits() }
}

fn f(v: Double) -> f64 {
    f64::from_bits(v.bits)
}

fn band(kind: BandType, frequency: f64, gain: f64, q: f64) -> FilterBand {
    FilterBand::new(kind, d(frequency), d(gain), d(q))
}

fn wave() -> WaveFormat {
    WaveFormat {
        tag: 3,
        channels: 2,
        samples_per_second: 48000,
        block_align: 8,
        bits_per_sample: 32,
        extra: 0,
        valid_bits: 0,
        subtype: 0,
    }
}

#[test]
fn formats_of_packed_floats_are_taken() {
    assert_eq!(format_from_wave_format(&wave()), Ok(AudioFormat { channels: 2, sample_rate: 48000 }));
    let ext = WaveFormat { tag: 0xfffe, extra: 22, valid_bits: 32, subtype: SUBTYPE_IEEE_FLOAT, ..wave() };
    assert!(format_from_wave_format(&ext).is_ok());
    for bad in [
        WaveFormat { channels: 0, block_align: 0, ..wave() },
        WaveFormat { channels: 9, block_align: 36, ..wave() },
        WaveFormat { samples_per_second: 0, ..wave() },
        WaveFormat { bits_per_sample: 16, ..wave() },
        WaveFormat { block_align: 6, ..wave() },
        WaveFormat { tag: 1, ..wave() },
        WaveFormat { extra: 21, ..ext },
        WaveFormat { valid_bits: 24, ..ext },
        WaveFormat { subtype: 1, ..ext },
    ] {
        assert_eq!(format_from_wave_format(&bad), Err(ApoError::Format));
    }
    assert_eq!(SUBTYPE_IEEE_FLOAT, 0x00000003_0000_0010_8000_00aa00389b71);
}

#[test]
fn formats_are_negotiated() {
    let other = WaveFormat { samples_per_second: 44100, ..wave() };
    let bad = WaveFormat { tag: 1, ..wave() };
    assert_eq!(negotiate_format(&Some(wave()), &None, true), Negotiation::Accept);
    assert_eq!(negotiate_format(&Some(wave()), &Some(Some(wave())), true), Negotiation::Accept);
    assert_eq!(negotiate_format(&Some(wave()), &Some(Some(other)), true), Negotiation::Suggest);
    assert_eq!(negotiate_format(&Some(bad), &Some(Some(other)), true), Negotiation::Suggest);
    assert_eq!(negotiate_format(&Some(bad), &Some(Some(other)), false), Negotiation::Reject);
    assert_eq!(negotiate_format(&Some(bad), &None, true), Negotiation::Reject);
    assert_eq!(negotiate_format(&None, &Some(None), true), Negotiation::Reject);
    assert_eq!(negotiate_format(&Some(wave()), &Some(None), true), Negotiation::Reject);
    let pin = |w: WaveFormat| Some(Some(Some(w)));
    assert_eq!(lock(1, 1, &pin(wave()), &pin(wave())), Ok(AudioFormat { channels: 2, sample_rate: 48000 }));
    assert_eq!(lock(2, 1, &pin(wave()), &pin(wave())), Err(ApoError::Connections));
    assert_eq!(lock(1, 1, &None, &pin(wave())), Err(ApoError::Pointer));
    assert_eq!(lock(1, 1, &pin(bad), &Some(None)), Err(ApoError::Format));
    assert_eq!(lock(1, 1, &pin(wave()), &Some(None)), Err(ApoError::Pointer));
    assert_eq!(lock(1, 1, &pin(wave()), &Some(Some(None))), Err(ApoError::Format));
    assert_eq!(lock(1, 1, &pin(wave()), &pin(other)), Err(ApoError::Mismatch));
}

#[test]
fn buffers_are_filtered_copied_or_silenced() {
    let b = |address, flags| Some(Buffer { address, valid_frames: 480, flags });
    let work = |i, o, ch| process(1, 1, i, o, ch).map(|s| (s.valid_frames, s.flags, s.work));
    assert_eq!(work(b(16, BUFFER_VALID), b(16, 0), 2), Some((480, 1, Work::Filter { copy: false, samples: 960 })));
    assert_eq!(work(b(16, BUFFER_VALID), b(32, 0), 2), Some((480, 1, Work::Filter { copy: true, samples: 960 })));
    assert_eq!(work(b(16, BUFFER_SILENT), b(32, 0), 2), Some((480, 2, Work::Silence(960))));
    assert_eq!(work(b(16, BUFFER_SILENT), b(16, 0), 2), Some((480, 2, Work::Skip)));
    assert_eq!(work(b(16, 0), b(32, 0), 2), Some((480, 0, Work::Skip)));
    assert_eq!(work(b(0, BUFFER_VALID), b(32, 0), 2), Some((480, 1, Work::Skip)));
    assert_eq!(work(b(16, BUFFER_VALID), b(32, 0), 0), Some((480, 1, Work::Skip)));
    assert_eq!(work(None, b(32, 0), 2), None);
    assert_eq!(process(2, 1, b(16, 1), b(16, 1), 2), None);
}

#[test]
fn interfaces_are_answered() {
    assert_eq!(query_interface(Interface::Unknown, false, true), Answer::Itself);
    assert_eq!(query_interface(Interface::Realtime, false, true), Answer::Slot { counts_outer: true });
    assert_eq!(query_interface(Interface::Effects, false, false), Answer::Slot { counts_outer: false });
    assert_eq!(query_interface(Interface::Effects2, false, false), Answer::Missing);
    assert_eq!(query_interface(Interface::Effects2, true, false), Answer::Slot { counts_outer: false });
    assert_eq!(query_interface(Interface::Other, true, false), Answer::Missing);
    assert!(can_create(true, Interface::Unknown, false) && !can_create(true, Interface::Processing, false));
    assert!(can_create(false, Interface::Processing, false) && !can_create(false, Interface::Effects3, false));
    assert!(can_unload(0, 0) && !can_unload(1, 0) && !can_unload(0, 1));
    let r = registration(false);
    assert_eq!((r.flags, r.friendly_name.as_str(), r.max_instances, r.interfaces), (0xd, "ADtune APO", u32::MAX, 1));
    assert_eq!(registration(true).interfaces, 3);
}

#[test]
fn wide_texts_fit_their_fields() {
    let mut v = vec![7u16; 6];
    write_wstr(&mut v, "ab");
    assert_eq!(v, vec![97, 98, 0, 7, 7, 7]);
    write_wstr(&mut v, "abcdefgh");
    assert_eq!(v, vec![97, 98, 99, 100, 101, 0]);
    let mut v = vec![0u16; 8];
    write_wstr(&mut v, "a€𝄞");
    let expected: Vec<u16> = "a€𝄞".encode_utf16().collect();
    assert_eq!(&v[..4], &expected[..]);
    let mut one = vec![9u16];
    write_wstr(&mut one, "x");
    assert_eq!(one, vec![0]);
}

#[test]
fn configurations_keep_their_active_bands() {
    let (p, b) = config_bands("Preamp: -6 dB\nFilter 1: ON PK Fc 100 Hz Gain 0.0001 dB Q 1\nFilter 2: ON PK Fc 100 Hz Gain -0.0002 dB Q 1\n");
    assert_eq!(f(p), -6.0);
    assert_eq!(b.len(), 1);
    assert_eq!(config_bands(""), (d(0.0), vec![]));
    assert_eq!((channels_for(0), channels_for(2), channels_for(99)), (1, 2, 8));
    assert_eq!(layout(10, 0, 2), (0, 0));
    assert_eq!(layout(10, 3, 2), (3, 2));
    assert_eq!(layout(10, 2, 8), (5, 2));
}

#[test]
fn graphs_are_drawn() {
    let mut p = AudioProfile { name: "HP".into(), source: "me".into(), bands: vec![band(BandType::Peaking, 100.0, 12.0, 1.0)], ..Default::default() };
    assert_eq!(f(db_range(&p)), 12.0);
    let g = Geometry {
        width: d(600.0),
        height: d(180.0),
        points: vec![(d(0.0), d(90.0)), (d(300.0), d(45.25)), (d(600.0), d(90.0))],
        zero: d(90.0),
        ticks: vec![d(0.0), d(600.0)],
        levels: vec![d(180.0), d(0.0)],
    };
    let t = ToneSettings::default();
    let r = build_graph(&p, &t, &g, d(0.0));
    assert_eq!(r.curve, "M 0.0 90.0 L 300.0 45.2 L 600.0 90.0 ");
    assert_eq!(r.fill, "M 0.0 90.0 L 0.0 90.0 L 300.0 45.2 L 600.0 90.0 L 600.0 90.0 Z");
    assert_eq!(r.grid, "M 0.0 0 L 0.0 180.0 M 600.0 0 L 600.0 180.0 M 0 180.0 L 600.0 180.0 M 0 0.0 L 600.0 0.0 ");
    assert_eq!(r.zero, "M 0 90.0 L 600.0 90.0");
    assert_eq!(r.x_labels, ["20", "50", "100", "200", "500", "1k", "2k", "5k", "10k", "20k"]);
    assert_eq!(r.y_labels, ["-12", "-6", "0 dB", "+6", "+12"]);
    assert_eq!(r.title, "HP");
    assert_eq!(r.caption, "HP · measured by me — 1 correction bands · preamp +0.0 dB");
    p.bands.push(band(BandType::Peaking, 100.0, -13.0, 1.0));
    p.source.clear();
    assert_eq!(f(db_range(&p)), 24.0);
    let r = build_graph(&p, &t, &g, d(3.25));
    assert_eq!(r.y_labels, ["-24", "-18", "-12", "-6", "0 dB", "+6", "+12", "+18", "+24"]);
    assert_eq!(r.caption, "HP — 2 correction bands · preamp -3.2 dB");
    assert_eq!(grid_levels(false), [-12, -9, -6, -3, 3, 6, 9, 12]);
    assert_eq!(grid_levels(true).len(), 16);
    assert_eq!((sample_count(0), sample_count(600), sample_count(9999)), (120, 200, 600));
}

#[test]
fn devices_come_back() {
    let s = Sink { node_id: -7, node_name: "alsa".into(), description: "Speakers".into(), is_default: true };
    let dev = sink_to_device(s);
    assert_eq!(dev.id, "-7");
    let back = device_to_sink(&dev);
    assert_eq!((back.node_id, back.node_name.as_str(), back.description.as_str(), back.is_default), (-7, "alsa", "Speakers", true));
    assert_eq!(device_to_sink(&device("x")).node_id, -1);
    let e = endpoint_to_device(Endpoint { id: "{a}".into(), friendly_name: "USB".into(), is_default: false });
    assert_eq!((e.id.as_str(), e.name.as_str()), ("{a}", "{a}"));
    let back = device_to_endpoint(&e);
    assert_eq!((back.id.as_str(), back.friendly_name.as_str()), ("{a}", "USB"));
    assert_eq!(enable_argument(&e), "--enable-apo {a}");
    assert_eq!(disable_argument(&e), "--disable-apo {a}");
}

fn device(name: &str) -> Device {
    Device { id: name.into(), name: name.into(), description: name.into(), is_default: false }
}

#[test]
fn devices_are_preselected() {
    let mut all = vec![device("a"), device("b"), device("c")];
    assert_eq!(pick_output_index(&all, Some("c")), 2);
    assert_eq!(pick_output_index(&all, Some("gone")), 0);
    all[1].is_default = true;
    assert_eq!(pick_output_index(&all, None), 1);
    assert_eq!(pick_output_index(&vec![], Some("a")), -1);
    assert_eq!(device_named(&all, "c").unwrap().id, "c");
    assert!(device_named(&all, "gone").is_none());
    assert_eq!(selected_device(&all, 1).unwrap().name, "b");
    assert!(selected_device(&all, -1).is_none() && selected_device(&all, 3).is_none());
}

#[test]
fn outcomes_are_shown() {
    let o = |live, error: Option<&str>, needs_grant| Outcome {
        error: error.map(str::to_string),
        live,
        active: true,
        message: "Active".into(),
        outputs: vec![device("a")],
        correction_on: true,
        needs_grant,
    };
    let s = apply_outcome(&o(true, None, true), None, false);
    assert!(s.status.is_none() && !s.resync && !s.grant_dialog && s.selected.is_none());
    assert_eq!(apply_outcome(&o(true, Some("x"), false), None, false).status.as_deref(), Some("⚠ x"));
    let s = apply_outcome(&o(false, None, true), None, false);
    assert_eq!((s.status.as_deref(), s.selected, s.resync, s.grant_dialog), (Some("Active"), Some(0), true, true));
    assert!(!apply_outcome(&o(false, None, true), None, true).grant_dialog);
    assert_eq!(apply_outcome(&o(false, Some("x"), false), None, true).status.as_deref(), Some("⚠ x"));
    let t = read_tone(d(50.0), d(1.0), d(2.0), false);
    assert_eq!((f(t.wet), f(t.bass), f(t.tilt), t.headroom), (0.5, 1.0, 2.0, false));
    assert_eq!(f(set_correction(true, d(70.0), &t).wet), 0.7);
    assert_eq!(f(set_correction(true, d(0.0), &t).wet), 0.01);
    assert_eq!(f(set_correction(false, d(70.0), &t).wet), 0.0);
    assert!(correction_on(true, &t) && !correction_on(false, &t));
    assert!(!correction_on(true, &set_correction(false, d(70.0), &t)));
}

fn catalog() -> Catalog {
    let raw = |key: &str, name: &str| RawProfile {
        key: key.into(),
        name: name.into(),
        source: "s".into(),
        form: "over-ear".into(),
        preamp: d(0.0),
        bands: vec![StoredBand { kind: "PK".into(), frequency: d(1000.0), gain: d(2.0), q: d(1.0) }],
    };
    Catalog::from_raw(vec![raw("hd600", "HD 600"), raw("k702", "K702")])
}

fn saved(path: &str, key: &str, name: &str) -> SavedProfile {
    SavedProfile {
        path: path.as_bytes().to_vec(),
        shown: path.into(),
        profile: AudioProfile { key: key.into(), name: name.into(), ..Default::default() },
    }
}

fn editor() -> Editor {
    Editor::new(catalog(), None, vec![saved("/p/a", "custom:hd600", "Mine"), saved("/p/b", "", "Import")])
}

#[test]
fn editing_forks_and_reset_restores() {
    let mut e = editor();
    assert_eq!((e.current.key.as_str(), e.selected), ("flat", -1));
    assert!(e.select_profile("hd600").is_none());
    assert_eq!(e.current.name, "HD 600");
    assert!(matches!(e.toggle_edit(), Commit::Nothing));
    e.edit(Edit::Drag { index: 0, frequency: d(5.0), gain: d(99.0) });
    assert_eq!((e.current.key.as_str(), e.current.name.as_str()), ("custom:hd600", "HD 600 (custom)"));
    assert_eq!((f(e.current.bands[0].frequency), f(e.current.bands[0].gain)), (20.0, 12.0));
    e.edit(Edit::Add { frequency: d(500.0), gain: d(-3.0) });
    assert_eq!((e.current.bands.len(), e.selected), (2, 1));
    let handles: Vec<(i32, f64, f64)> = e.handles().into_iter().map(|(k, x, y)| (k, f(x), f(y))).collect();
    assert_eq!(handles, vec![(0, 20.0, 12.0), (0, 500.0, -3.0)]);
    e.edit(Edit::Type { kind: 2 });
    e.edit(Edit::Scroll { index: 1, factor: d(100.0) });
    assert_eq!((e.current.bands[1].kind, f(e.current.bands[1].q)), (BandType::HighShelf, 20.0));
    let (kind, q, label) = e.selection().unwrap();
    assert_eq!((kind, f(q), label.as_str()), (2, 20.0, "Band 2 · HSC · 500 Hz · -3.0 dB"));
    e.edit(Edit::Remove);
    assert_eq!((e.current.bands.len(), e.selected), (1, -1));
    e.edit(Edit::Drag { index: -1, frequency: d(5.0), gain: d(99.0) });
    e.edit(Edit::Remove);
    assert!(e.selection().is_none());
    // Edits are asked about before they are lost.
    let q = e.reset_edit().unwrap();
    assert_eq!((q.title.as_str(), q.confirm.as_str()), ("Discard your edits?", "Discard"));
    assert!(matches!(e.confirm(), Some(Pending::ResetEdit)));
    e.perform_reset();
    assert_eq!((e.current.key.as_str(), e.current.bands.len(), e.dirty, e.edit_mode), ("hd600", 1, false, false));
    assert!(e.handles().is_empty());
    assert_eq!(f(e.current.bands[0].gain), 2.0);
    assert!(e.reset_edit().is_none());
}

#[test]
fn edits_are_kept_in_their_file_or_a_new_one() {
    let mut e = editor();
    e.perform_select("hd600");
    e.toggle_edit();
    e.select_band(0);
    e.edit(Edit::Type { kind: 1 });
    assert!(matches!(e.toggle_edit(), Commit::SaveNew));
    assert_eq!(e.committed(Err("disk full".into())), "⚠ Could not save the edited profile: disk full");
    assert!(e.dirty);
    assert_eq!(
        e.committed(Ok(("/p/c".into(), vec![saved("/p/c", "custom:hd600", "HD 600 (custom)")]))),
        "Saved “HD 600 (custom)” to your library."
    );
    assert!(!e.dirty);
    e.toggle_edit();
    e.edit(Edit::Add { frequency: d(500.0), gain: d(0.0) });
    match e.toggle_edit() {
        Commit::Overwrite(p) => assert_eq!(p, b"/p/c"),
        _ => panic!(),
    }
    // The catalog entry is as it was.
    e.perform_select("hd600");
    assert_eq!((e.current.name.as_str(), e.current.bands.len(), e.current.bands[0].kind), ("HD 600", 1, BandType::Peaking));
}

#[test]
fn deleting_falls_back_to_the_original() {
    let mut e = editor();
    assert!(e.delete_profile("hd600").is_none() && e.delete_profile("lib:/nope").is_none());
    e.perform_select("lib:/p/a");
    assert_eq!(e.loaded_path.as_deref(), Some(&b"/p/a"[..]));
    let q = e.delete_profile("lib:/p/a").unwrap();
    assert_eq!(q.message, "“Mine” will be permanently removed from your library.");
    match e.confirm() {
        Some(Pending::DeleteProfile(p)) => assert_eq!(e.delete(&p).unwrap(), "Deleted “Mine” from your library."),
        _ => panic!(),
    }
    assert_eq!((e.current.key.as_str(), e.library.len()), ("hd600", 1));
    assert!(e.delete(b"/p/a").is_none());
    e.perform_select("lib:/p/b");
    e.delete(b"/p/b");
    assert_eq!(e.current.key, "flat");
    // Deleting another profile leaves the one on the graph.
    let mut e = editor();
    e.perform_select("lib:/p/b");
    e.delete(b"/p/a");
    assert_eq!(e.current.name, "Import");
}

#[test]
fn files_are_known_by_their_bytes() {
    // Two paths that are not text look alike.
    let odd = |byte: u8, name: &str| SavedProfile { path: vec![b'/', byte], ..saved("/\u{fffd}", "", name) };
    let mut e = Editor::new(catalog(), None, vec![odd(0xfe, "One"), odd(0xff, "Two"), saved("/é", "", "Three")]);
    let (rows, _) = e.refresh_results("");
    assert_eq!((rows[0].key.as_str(), rows[1].key.as_str(), rows[2].key.as_str()), ("lib:/\u{fffd}", "lib:/\u{fffd}", "lib:/é"));
    // The stand-in is the path of neither.
    e.perform_select(&rows[1].key);
    assert_eq!((e.current.key.as_str(), e.loaded_path.is_none()), ("flat", true));
    assert!(e.delete_profile(&rows[1].key).is_none());
    e.perform_select(&rows[2].key);
    assert_eq!((e.current.name.as_str(), e.loaded_path.as_deref()), ("Three", Some("/é".as_bytes())));
    assert!(e.refresh_results("").0[2].selected);
    // A file that was just written is known by its own bytes.
    let two = AudioProfile { name: "Two".into(), ..Default::default() };
    e.import_done(two, Ok((vec![b'/', 0xff], vec![odd(0xfe, "One"), odd(0xff, "Two")])));
    let (rows, _) = e.refresh_results("");
    assert!(!rows[0].selected && rows[1].selected);
    assert_eq!(e.delete(&[b'/', 0xff]).unwrap(), "Deleted “Two” from your library.");
    assert_eq!((e.library.len(), e.library[0].profile.name.as_str()), (1, "One"));
}

#[test]
fn imports_land_in_the_library() {
    let mut e = editor();
    assert!(e.import_profile().is_none());
    let p = || AudioProfile { name: "New".into(), ..Default::default() };
    assert_eq!(e.import_done(p(), Ok(("/p/n".into(), vec![saved("/p/n", "", "New")]))), "Imported “New” into your library.");
    assert_eq!((e.loaded_path.as_deref(), e.editing, e.dirty, e.library.len()), (Some(&b"/p/n"[..]), true, false, 1));
    assert_eq!(e.import_done(p(), Err("no".into())), "⚠ Imported, but could not save to the library: no");
    assert!(e.loaded_path.is_none());
    e.edit(Edit::Add { frequency: d(500.0), gain: d(0.0) });
    assert_eq!(e.import_profile().unwrap().confirm, "Discard & import");
    assert_eq!(e.select_profile("hd600").unwrap().confirm, "Discard & switch");
    match e.confirm() {
        Some(Pending::SwitchProfile(k)) => e.perform_select(&k),
        _ => panic!(),
    }
    assert_eq!(e.current.key, "hd600");
    e.edit(Edit::Remove);
    e.reset_edit();
    e.cancel();
    assert!(e.confirm().is_none());
}

#[test]
fn the_list_shows_the_library_first() {
    let mut e = editor();
    e.perform_select("lib:/p/a");
    let (rows, count) = e.refresh_results("");
    assert_eq!(rows.iter().map(|r| r.key.as_str()).collect::<Vec<_>>(), ["lib:/p/a", "lib:/p/b", "hd600", "k702"]);
    assert!(rows[0].selected && rows[0].deletable && !rows[2].selected && !rows[2].deletable);
    assert_eq!((rows[0].sub.as_str(), rows[2].sub.as_str()), ("★ saved profile", "over-ear · s"));
    assert_eq!(count, "2 models · 2 saved");
    let (rows, count) = e.refresh_results("MINE");
    assert_eq!((rows.len(), count.as_str()), (1, "1 match"));
    let (rows, count) = e.refresh_results("zzz");
    assert_eq!((rows.len(), count.as_str()), (0, "0 matches"));
    e.perform_select("k702");
    assert!(e.refresh_results("k702").0[0].selected);
    assert_eq!(list_count(false, 0, 8850), "8,850 models");
    assert_eq!(list_count(true, 1, 1234), "1,235 matches");
}

#[test]
fn numbers_are_grouped() {
    for (n, t) in [(0, "0"), (7, "7"), (999, "999"), (1000, "1,000"), (8850, "8,850"), (1234567, "1,234,567"), (1000001, "1,000,001")] {
        assert_eq!(thousands(n), t);
    }
    assert_eq!(thousands(u64::MAX).replace(',', ""), u64::MAX.to_string());
}

#[test]
fn labels_and_titles() {
    assert_eq!(fmt_hz(d(105.4)), "105 Hz");
    assert_eq!(fmt_hz(d(999.9)), "1000 Hz");
    assert_eq!(fmt_hz(d(1000.0)), "1.0 kHz");
    assert_eq!(fmt_hz(d(12345.0)), "12.3 kHz");
    for n in 0..3 {
        assert_eq!(kind_to_i(i_to_kind(n)), n);
    }
    assert_eq!(i_to_kind(9), BandType::Peaking);
    assert_eq!(window_title(&flat_profile()), "ADtune");
    assert_eq!(window_title(&AudioProfile { name: "HP".into(), ..Default::default() }), "ADtune - HP");
    assert_eq!(window_title(&AudioProfile::default()), "ADtune");
}

#[test]
fn exports_reimport() {
    let p = |key: &str, name: &str| AudioProfile { key: key.into(), name: name.into(), ..Default::default() };
    assert_eq!(export_name(&p("custom:hd:600", "n")), "custom-hd-600.adtuneprofile");
    assert_eq!(export_name(&p(" ", "My HP")), "My HP.adtuneprofile");
    assert_eq!(export_name(&p("", " ")), "profile.adtuneprofile");
    let plan = |e| {
        let p = export_plan(e);
        (p.format, p.replace_extension)
    };
    assert_eq!(plan(Some("TXT")), (FileFormat::ParametricEq, false));
    assert_eq!(plan(Some("json")), (FileFormat::Native, false));
    assert_eq!(plan(Some("adtuneprofile")), (FileFormat::Native, false));
    assert_eq!(plan(Some("xyz")), (FileFormat::Native, true));
    assert_eq!(plan(None), (FileFormat::Native, true));
}

#[test]
fn pictures() {
    assert_eq!(shot_size(None), (980, 660));
    assert_eq!(shot_size(Some("1200x800")), (1200, 800));
    assert_eq!(shot_size(Some(" +640 x 480 ")), (640, 480));
    for bad in ["", "640", "640x", "x480", "a x b", "-1x5", "4294967296x1", "640x480x1"] {
        assert_eq!(shot_size(Some(bad)), (980, 660), "{bad}");
    }
    let pixels: Vec<u16> = (0..=0xffff).step_by(37).map(|v| v as u16).collect();
    let bytes = rgba_bytes(&pixels);
    for (i, v) in pixels.iter().enumerate() {
        let (r5, g6, b5) = (((v >> 11) & 0x1f) as u8, ((v >> 5) & 0x3f) as u8, (v & 0x1f) as u8);
        let e = [(r5 << 3) | (r5 >> 2), (g6 << 2) | (g6 >> 4), (b5 << 3) | (b5 >> 2), 255];
        assert_eq!(&bytes[4 * i..4 * i + 4], &e[..]);
    }
    assert!(relaunch_in_software("cannot find glCreateShader", None));
    assert!(relaunch_in_software("Failed to initialize OpenGL: x", Some("winit-femtovg")));
    assert!(!relaunch_in_software("Failed to initialize OpenGL", Some("winit-software")));
    assert!(!relaunch_in_software("other", None));
}

#[test]
fn maintenance_arguments() {
    let args = |v: &[&str]| maintenance(&v.iter().map(|s| s.to_string()).collect());
    assert!(args(&["adtune"]).is_none());
    assert!(matches!(args(&["adtune", "--enable-apo"]), Some(Maintenance::Enable(None))));
    assert!(matches!(args(&["adtune", "--enable-apo", "{a}"]), Some(Maintenance::Enable(Some(s))) if s == "{a}"));
    assert!(matches!(args(&["adtune", "--disable-apo", "--enable-apo"]), Some(Maintenance::Enable(None))));
    assert!(matches!(args(&["adtune", "--disable-apo", "--x"]), Some(Maintenance::Disable(None))));
    assert!(matches!(args(&["adtune", "--disable-apo", "{b}"]), Some(Maintenance::Disable(Some(s))) if s == "{b}"));
}

#[test]
fn command_lines() {
    let args = |v: &[&str]| parse_command(&v.iter().map(|s| s.to_string()).collect());
    assert!(matches!(args(&["count"]), Ok(Command::Count)));
    assert!(matches!(args(&["catalog"]), Ok(Command::Search(q)) if q.is_empty()));
    assert!(matches!(args(&["catalog", "hd 600"]), Ok(Command::Search(q)) if q == "hd 600"));
    assert!(matches!(args(&["response", "k"]), Ok(Command::Response(k)) if k == "k"));
    assert!(matches!(args(&["import", "f"]), Ok(Command::Import(k)) if k == "f"));
    assert_eq!(args(&["response"]).unwrap_err(), "usage: adtune response <key>");
    assert_eq!(args(&["import"]).unwrap_err(), "usage: adtune import <file>");
    assert_eq!(args(&[]).unwrap_err(), "");
    assert_eq!(args(&["what"]).unwrap_err(), "");
    let p = AudioProfile { key: "k".into(), name: "n".into(), form: "f".into(), source: "s".into(), ..Default::default() };
    assert_eq!(hit_line(&p), "k: n  ·  f · s");
    assert_eq!(count_line(8850), "8850 profiles in catalog");
    assert_eq!(unknown_profile("x"), "unknown profile 'x'");
    assert_eq!(response_head(&p, d(-6.3)), "n  (0 bands, preamp -6.3 dB)");
    for (hz, level, bar) in [(30u32, -3.48f64, 8usize), (500, 0.0, 12), (16000, 12.345, 24), (1000, -120.0, 0)] {
        let t = if hz >= 1000 { format!("{:>4}k", hz / 1000) } else { format!("{:>5}", hz) };
        assert_eq!(response_line(hz, d(level), bar), format!("  {t} Hz {level:+6.2} dB |{}", "#".repeat(bar)));
    }
}

#[test]
fn without_a_backend() {
    assert_eq!(nowhere::status(), (false, "No audio backend for this OS yet.".to_string()));
    assert!(!nowhere::needs_permission_grant() && nowhere::list_outputs().is_empty() && nowhere::active_profile().is_none());
    assert!(nowhere::saved_target_name().is_none());
    let (p, dev, t) = (AudioProfile::default(), device("a"), nowhere::active_tone());
    assert!(nowhere::apply(&p, &dev, &t).is_err() && nowhere::enable(&p, &dev, &t).is_err());
    assert!(nowhere::disable_device(&dev).is_err());
    assert_eq!(nowhere::update_live(&p, &dev, &t), Ok(false));
}

#[test]
fn configurations_are_read_again_once_they_change() {
    let mut last = None;
    assert!(!config_changed(&mut last, None));
    assert!(config_changed(&mut last, Some(5)));
    assert!(!config_changed(&mut last, Some(5)));
    // An earlier time is another time too.
    assert!(config_changed(&mut last, Some(-5)));
    assert!(config_changed(&mut last, None));
    assert_eq!(last, None);
}
