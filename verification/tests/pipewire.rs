//! The PipeWire graph, the service and its controller.

use adtune::double::Double;
use adtune::pipewire::conn::Roundtrip;
use adtune::pipewire::autostart::snap_autostart;
use adtune::pipewire::controller::{
    ack_late, detach_service, socket_path, start_late, started, wait_ack, OutputDevice, PipeWire,
};
use adtune::pipewire::ipc::{next_desired, DesiredState, ServiceStatus};
use adtune::pipewire::paths::{
    config_dir, desired_path, home, legacy_filter_conf_path, legacy_state_path, legacy_unit_path, lock_path,
    profiles_dir, require_home, runtime_dir, status_path, Environment,
};
use adtune::pipewire::portal::{await_portal, background_granted, request_path, request_token};
use adtune::pipewire::registry::{default_sink_value, is_default_metadata, set_default_outcome, NodeProps, Snapshot};
use adtune::pipewire::render::{escape, filter_chain_args, filter_config, graph_bands, live_params};
use adtune::pipewire::service::{
    connect_again, connection_lost, migrate_legacy, needs_reload, stops, tick_every, Daemon, Plan, Tick,
};
use adtune::profile::{AudioProfile, BandType, FilterBand, ToneSettings};
use adtune::state::StoredState;

fn d(v: f64) -> Double {
    Double { bits: v.to_bits() }
}

fn band(kind: BandType, frequency: f64, gain: f64, q: f64) -> FilterBand {
    FilterBand::new(kind, d(frequency), d(gain), d(q))
}

fn m50x() -> AudioProfile {
    AudioProfile {
        name: "Audio-Technica ATH-M50x".into(),
        bands: vec![
            band(BandType::LowShelf, 110.0, -3.5, 1.0),
            band(BandType::Peaking, 2900.0, 2.7, 1.2),
            band(BandType::HighShelf, 9000.0, -4.4, 1.0),
        ],
        ..Default::default()
    }
}

#[test]
fn config_has_expected_nodes() {
    let cfg = filter_config(&m50x(), "alsa_output.usb", &ToneSettings::default(), d(0.73));
    assert_eq!(cfg.matches("type = builtin").count(), 7);
    assert!(cfg.contains("name = pre_gain"));
    assert!(cfg.contains("label = linear"));
    assert!(cfg.contains("name = eq_band_1"));
    assert!(cfg.contains("name = eq_tilt_hi"));
    assert!(cfg.contains("node.target = \"alsa_output.usb\""));
    assert!(cfg.contains("effect_input.adtune"));
}

#[test]
fn bypass_zeroes_correction_gain() {
    let bypass = ToneSettings { wet: d(0.0), ..Default::default() };
    let cfg = filter_config(&m50x(), "sink", &bypass, d(1.0));
    assert!(cfg.contains("name = eq_band_1"));
    assert!(cfg.contains("\"Gain\" = 0.000"));
}

#[test]
fn filter_chain_args_is_a_standalone_object() {
    let args = filter_chain_args(&m50x(), "alsa_output.usb", &ToneSettings::default(), d(0.73));
    assert!(args.starts_with('{') && args.ends_with('}'));
    assert_eq!(args.matches("type = builtin").count(), 7);
    assert!(args.contains("media.class = Audio/Sink"));
    assert!(args.contains("node.target = \"alsa_output.usb\""));
    let cfg = filter_config(&m50x(), "alsa_output.usb", &ToneSettings::default(), d(0.73));
    assert!(cfg.contains(&args));
}

#[test]
fn graph_text_is_exact() {
    let p = AudioProfile { name: "A \"b\"\\\n".into(), bands: vec![band(BandType::Peaking, 1000.0, 3.0, 1.0)], ..Default::default() };
    let args = filter_chain_args(&p, "sink", &ToneSettings::default(), d(0.7079457843841379));
    let expected = r#"{
    node.description = "ADtune Calibrated — A \"b\"\\ "
    media.name = "ADtune Calibrated"
    filter.graph = {
        nodes = [
            {
                type = builtin
                name = pre_gain
                label = linear
                control = { "Mult" = 0.70795 "Add" = 0.0 }
            }
            {
                type = builtin
                name = eq_band_1
                label = bq_peaking
                control = { "Freq" = 1000.0 "Q" = 1.000 "Gain" = 3.000 }
            }
            {
                type = builtin
                name = eq_bass
                label = bq_lowshelf
                control = { "Freq" = 105.0 "Q" = 0.700 "Gain" = 0.000 }
            }
            {
                type = builtin
                name = eq_tilt_lo
                label = bq_lowshelf
                control = { "Freq" = 1000.0 "Q" = 0.500 "Gain" = -0.000 }
            }
            {
                type = builtin
                name = eq_tilt_hi
                label = bq_highshelf
                control = { "Freq" = 1000.0 "Q" = 0.500 "Gain" = 0.000 }
            }
        ]
        links = [
            { output = "pre_gain:Out" input = "eq_band_1:In" }
            { output = "eq_band_1:Out" input = "eq_bass:In" }
            { output = "eq_bass:Out" input = "eq_tilt_lo:In" }
            { output = "eq_tilt_lo:Out" input = "eq_tilt_hi:In" }
        ]
    }
    audio.channels = 2
    audio.position = [ FL FR ]
    capture.props = {
        node.name = "effect_input.adtune"
        media.class = Audio/Sink
        node.virtual = true
    }
    playback.props = {
        node.name = "effect_output.adtune"
        node.target = "sink"
        node.passive = true
    }
}"#;
    assert_eq!(args, expected);
}

#[test]
fn live_parameters_are_gains_alone() {
    let p = AudioProfile { bands: vec![band(BandType::Peaking, 1000.0, 3.0, 1.0)], ..Default::default() };
    let tone = ToneSettings { wet: d(0.5), bass: d(2.0), tilt: d(1.0), headroom: true };
    let params: Vec<(String, f64)> =
        live_params(&p, &tone, d(0.5)).into_iter().map(|(n, v)| (n, f64::from_bits(v.bits))).collect();
    let expected = [
        ("pre_gain:Mult", 0.5),
        ("eq_band_1:Gain", 1.5),
        ("eq_bass:Gain", 2.0),
        ("eq_tilt_lo:Gain", -1.0),
        ("eq_tilt_hi:Gain", 1.0),
    ];
    assert_eq!(params.len(), expected.len());
    for ((n, v), (en, ev)) in params.iter().zip(expected) {
        assert_eq!((n.as_str(), *v), (en, ev));
    }
    assert_eq!(graph_bands(&m50x(), &tone).len(), 6);
}

#[test]
fn escapes_keep_texts_inside_their_quotes() {
    assert_eq!(escape("plain"), "plain");
    assert_eq!(escape("a\"b"), "a\\\"b");
    assert_eq!(escape("a\\\"b"), "a\\\\\\\"b");
    assert_eq!(escape("a\nb\rc\td"), "a b c d");
}

fn desired(profile: &AudioProfile, target: &str, tone: &ToneSettings) -> DesiredState {
    DesiredState { revision: 1, enabled: true, state: StoredState::new(profile, 1, target, tone) }
}

fn profile(bands: &[(f64, f64, f64)]) -> AudioProfile {
    AudioProfile {
        name: "p".into(),
        bands: bands.iter().map(|&(f, g, q)| band(BandType::Peaking, f, g, q)).collect(),
        ..Default::default()
    }
}

#[test]
fn reload_rule_matches_live_capability() {
    let base = profile(&[(100.0, 3.0, 1.0), (2000.0, -2.0, 0.7)]);
    let tone = ToneSettings::default();
    let a = desired(&base, "sink-a", &tone);

    // Same structure, different gains → live.
    let gains = profile(&[(100.0, -6.0, 1.0), (2000.0, 4.0, 0.7)]);
    assert!(!needs_reload(&a, &desired(&gains, "sink-a", &tone)));
    // Tone-only change (wet/bass/tilt scale gains of fixed shelves) → live.
    let bypass = ToneSettings { wet: d(0.0), ..Default::default() };
    assert!(!needs_reload(&a, &desired(&base, "sink-a", &bypass)));

    // Frequency moved → reload.
    let moved = profile(&[(120.0, 3.0, 1.0), (2000.0, -2.0, 0.7)]);
    assert!(needs_reload(&a, &desired(&moved, "sink-a", &tone)));
    // Q changed → reload.
    let q = profile(&[(100.0, 3.0, 2.0), (2000.0, -2.0, 0.7)]);
    assert!(needs_reload(&a, &desired(&q, "sink-a", &tone)));
    // Band added → reload.
    let added = profile(&[(100.0, 3.0, 1.0), (2000.0, -2.0, 0.7), (9000.0, 1.0, 1.0)]);
    assert!(needs_reload(&a, &desired(&added, "sink-a", &tone)));
    // Different output device → reload.
    assert!(needs_reload(&a, &desired(&base, "sink-b", &tone)));
}

fn revision(n: u64, enabled: bool, wet: f64) -> DesiredState {
    let tone = ToneSettings { wet: d(wet), ..Default::default() };
    DesiredState { revision: n, enabled, state: StoredState::new(&m50x(), 7, "alsa", &tone) }
}

const SECOND: u64 = 1_000_000_000;

#[test]
fn service_applies_adjusts_and_tears_down() {
    let mut s = Daemon::new();
    assert!(matches!(s.tick(0, None, 9), Tick::Wait));
    assert!(matches!(s.tick(0, Some(5), 9), Tick::Read));
    // A first state takes a new filter.
    assert_eq!(s.consider(&revision(1, true, 1.0)), Plan::Reload);
    s.unloaded();
    s.filter_loaded(revision(1, true, 1.0), SECOND);
    assert!(matches!(s.tick(2 * SECOND, Some(6), 9), Tick::Wait), "the sink is waited for");
    assert!(!s.wants_sink(Some("Audio/Sink"), "alsa") && !s.wants_sink(None, "effect_input.adtune"));
    assert!(s.wants_sink(Some("Audio/Sink"), "effect_input.adtune"));
    // The sink is there; its becoming the default waits for the metadata.
    let (write, status) = s.sink_bound(76, "effect_input.adtune", 9);
    assert!(write.is_none());
    assert!(status.active && status.revision_applied == 1 && status.virtual_node_id == Some(76) && status.pid == 9);
    assert_eq!(s.metadata_bound().as_deref(), Some(r#"{"name":"effect_input.adtune"}"#));
    assert!(s.metadata_bound().is_none());
    // The same revision is not applied again, other gains are set live.
    assert_eq!(s.consider(&revision(1, true, 1.0)), Plan::Current);
    assert_eq!(s.consider(&revision(2, true, 0.0)), Plan::Live);
    let status = s.live_pushed(revision(2, true, 0.0), 9);
    assert!(status.bypassed && status.active && status.revision_applied == 2);
    // Turned off, the target is the default again.
    assert_eq!(s.consider(&revision(3, false, 1.0)), Plan::TearDown);
    let (write, status) = s.torn_down(revision(3, false, 1.0), 9);
    assert_eq!(write.as_deref(), Some(r#"{"name":"alsa"}"#));
    assert!(!status.active && status.error.is_none() && status.revision_applied == 3);
    assert_eq!(s.consider(&revision(4, true, 1.0)), Plan::Reload);
}

#[test]
fn service_gives_up_and_tries_again() {
    let mut s = Daemon::new();
    assert!(matches!(s.tick(0, Some(5), 9), Tick::Read));
    assert_eq!(s.consider(&revision(1, true, 1.0)), Plan::Reload);
    s.filter_loaded(revision(1, true, 1.0), 0);
    assert!(matches!(s.tick(8 * SECOND, Some(5), 9), Tick::Wait));
    match s.tick(8 * SECOND + 1, Some(5), 9) {
        Tick::GiveUp(st) => {
            assert_eq!(st.error.as_deref(), Some("The virtual output did not appear after loading the filter."));
            assert!(!st.active && st.revision_applied == 1);
        }
        _ => panic!(),
    }
    assert!(matches!(s.tick(18 * SECOND, Some(5), 9), Tick::Wait));
    assert!(matches!(s.tick(18 * SECOND + 1, Some(5), 9), Tick::Read), "a retry is due");
    assert_eq!(s.consider(&revision(1, true, 1.0)), Plan::Reload);
    let st = s.load_failed("no module".into(), 20 * SECOND, 9);
    assert_eq!(st.error.as_deref(), Some("no module"));
    assert!(matches!(s.tick(29 * SECOND, Some(5), 9), Tick::Wait));
    assert!(matches!(s.tick(30 * SECOND, Some(5), 9), Tick::Read));
}

#[test]
fn service_notices_losses() {
    let mut s = Daemon::new();
    s.filter_loaded(revision(1, true, 1.0), 0);
    s.sink_bound(76, "effect_input.adtune", 9);
    s.node_removed(75);
    assert!(s.publish_status(None, 9).active);
    s.node_removed(76);
    assert!(!s.publish_status(None, 9).active);
    assert_eq!(s.consider(&revision(2, true, 0.5)), Plan::Reload, "without its sink the filter is replaced");
    assert_eq!(s.stopped(false, 9).error.as_deref(), Some("Lost the PipeWire connection."));
    assert!(s.stopped(true, 9).error.is_none());
    assert!(connection_lost(-32) && connection_lost(-104) && !connection_lost(-2) && !connection_lost(0));
}

#[test]
fn old_versions_are_taken_over() {
    let old = || Some(StoredState::new(&m50x(), 7, "alsa", &ToneSettings::default()));
    assert!(migrate_legacy(true, true, false, old()).is_none());
    let m = migrate_legacy(false, true, false, old()).unwrap();
    assert!(m.remove_unit);
    let seed = m.seed.unwrap();
    assert_eq!((seed.revision, seed.enabled, seed.state.target_name.as_str()), (1, true, "alsa"));
    assert!(!migrate_legacy(false, false, false, old()).unwrap().seed.unwrap().enabled);
    assert!(migrate_legacy(false, false, true, old()).unwrap().seed.is_none());
    assert!(migrate_legacy(false, false, false, None).unwrap().seed.is_none());
}

fn env(home: Option<&str>, config: Option<&str>, runtime: Option<&str>) -> Environment {
    let b = |s: Option<&str>| s.map(|s| s.as_bytes().to_vec());
    Environment { home: b(home), config_home: b(config), runtime_dir: b(runtime) }
}

fn path(v: Vec<u8>) -> String {
    String::from_utf8(v).unwrap()
}

#[test]
fn paths_follow_the_environment() {
    let e = env(Some("/home/u"), None, Some("/run/user/1"));
    assert_eq!(path(config_dir(&e)), "/home/u/.config/adtune");
    assert_eq!(path(runtime_dir(&e)), "/run/user/1/adtune");
    assert_eq!(path(desired_path(&e)), "/home/u/.config/adtune/desired.json");
    assert_eq!(path(status_path(&e)), "/run/user/1/adtune/status.json");
    assert_eq!(path(lock_path(&e)), "/run/user/1/adtune/service.lock");
    assert_eq!(path(profiles_dir(&e)), "/home/u/.config/adtune/profiles");
    assert_eq!(path(legacy_state_path(&e)), "/home/u/.config/adtune/state.json");
    assert_eq!(path(legacy_filter_conf_path(&e)), "/home/u/.config/adtune/adtune-filter.conf");
    let e = env(Some("/home/u/"), Some("/cfg"), None);
    assert_eq!(path(config_dir(&e)), "/cfg/adtune");
    assert_eq!(path(runtime_dir(&e)), "/cfg/adtune/runtime");
    assert_eq!(path(legacy_unit_path(&e)), "/home/u/.config/systemd/user/adtune.service");
    let e = env(Some("/home/u"), Some("relative"), Some("also/relative"));
    assert_eq!(path(config_dir(&e)), "/home/u/.config/adtune");
    assert_eq!(path(runtime_dir(&e)), "/home/u/.config/adtune/runtime");
    let e = env(None, None, None);
    assert_eq!(path(home(&e)), "");
    assert_eq!(path(config_dir(&e)), ".config/adtune");
    assert!(require_home(&env(Some("/x"), None, None)).is_ok());
    for h in [None, Some(""), Some("x")] {
        assert_eq!(
            require_home(&env(h, None, None)).unwrap_err(),
            "HOME is not set to an absolute path; cannot locate the ADtune config directory."
        );
    }
    let raw = Environment { home: Some(vec![0x2f, 0xff]), config_home: None, runtime_dir: None };
    assert_eq!(home(&raw), vec![0x2f, 0xff]);
}

fn props<'a>(class: &'a str, name: Option<&'a str>, description: Option<&'a str>, nick: Option<&'a str>) -> NodeProps<'a> {
    NodeProps { class: Some(class), name, description, nick }
}

#[test]
fn sinks_are_listed_without_the_virtual_one() {
    let mut s = Snapshot::new();
    s.add_node(1, &props("Audio/Sink", Some("alsa"), Some("Speakers"), Some("nick")));
    s.add_node(2, &props("Audio/Source", Some("mic"), None, None));
    s.add_node(3, &props("Audio/Sink", Some("effect_input.adtune"), None, None));
    s.add_node(4, &props("Audio/Sink", Some("usb"), None, Some("USB")));
    s.add_node(5, &props("Audio/Sink", None, None, None));
    s.add_node(6, &NodeProps { class: None, name: Some("x"), description: None, nick: None });
    s.set_property(Some("default.audio.source"), Some("mic".into()));
    s.set_property(Some("default.audio.sink"), Some("usb".into()));
    s.set_property(None, None);
    let out = PipeWire::new().list_outputs(&s);
    let listed: Vec<(i64, &str, &str, bool)> =
        out.iter().map(|o| (o.node_id, o.node_name.as_str(), o.description.as_str(), o.is_default)).collect();
    assert_eq!(listed, [(1, "alsa", "Speakers", false), (4, "usb", "USB", true), (5, "", "", false)]);
    assert!(is_default_metadata(Some("default")) && !is_default_metadata(Some("x")) && !is_default_metadata(None));
}

#[test]
fn default_sink_value_is_what_serde_reads() {
    for name in ["alsa_output.usb", "a\"b\\c", "tab\tnew\nline\u{1}\u{1f}\u{7f}é𝄞", ""] {
        let v = default_sink_value(name);
        let back = serde_json::from_str::<serde_json::Value>(&v).unwrap();
        assert_eq!(back.get("name").and_then(|n| n.as_str()), Some(name));
    }
    assert_eq!(default_sink_value("a\"\\\u{8}\t\n\u{c}\r\u{1}/"), "{\"name\":\"a\\\"\\\\\\b\\t\\n\\f\\r\\u0001/\"}");
    assert!(set_default_outcome(1).is_ok());
    assert_eq!(set_default_outcome(0), Err("No default-device metadata found (is WirePlumber running?).".to_string()));
}

fn status(active: bool, bypassed: bool, node: Option<u32>, error: Option<&str>) -> ServiceStatus {
    ServiceStatus { active, bypassed, virtual_node_id: node, error: error.map(str::to_string), ..Default::default() }
}

#[test]
fn status_messages() {
    let pw = PipeWire::new();
    let allow = "Allow PipeWire in App Center → ADtune → Permissions (or: sudo snap connect adtune:pipewire)";
    assert_eq!(pw.status(false, true, false, false, None), (false, allow.to_string()));
    assert_eq!(
        pw.status(false, false, false, false, None),
        (false, "PipeWire is not running (or not accessible).".to_string())
    );
    assert_eq!(pw.status(true, true, true, true, None), (false, allow.to_string()));
    assert_eq!(pw.status(true, false, false, false, None), (false, "Calibration is off.".to_string()));
    assert_eq!(pw.status(true, false, false, true, None), (false, "Calibration is off.".to_string()));
    let st = status(true, false, Some(76), None);
    assert_eq!(pw.status(true, false, false, true, Some(&st)), (true, "Active — output 76".to_string()));
    let st = status(true, true, None, None);
    assert_eq!(pw.status(true, false, false, true, Some(&st)), (true, "Active · bypassed — output ".to_string()));
    let st = status(false, false, None, Some("module load failed"));
    assert_eq!(pw.status(true, false, false, true, Some(&st)), (false, "module load failed".to_string()));
    let st = status(false, false, None, None);
    assert_eq!(pw.status(true, false, false, true, Some(&st)), (false, "Calibration is off.".to_string()));
    assert!(pw.is_active(true, Some(&status(true, false, None, None))));
    assert!(!pw.is_active(false, Some(&status(true, false, None, None))) && !pw.is_active(true, None));
    assert!(PipeWire::needs_permission_grant(true, false, true) && PipeWire::needs_permission_grant(true, true, false));
    assert!(!PipeWire::needs_permission_grant(true, true, true) && !PipeWire::needs_permission_grant(false, false, false));
}

#[test]
fn revisions_count_up_and_are_waited_for() {
    let p = m50x();
    let tone = ToneSettings::default();
    let first = next_desired(None, true, &p, 42, "alsa_output.usb", &tone);
    assert_eq!((first.revision, first.enabled, first.state.target_id), (1, true, 42));
    assert_eq!(first.state.target_name, "alsa_output.usb");
    let second = next_desired(Some(first.revision), true, &p, 42, "alsa_output.usb", &tone);
    assert_eq!(second.revision, 2);
    let pw = PipeWire::new();
    assert_eq!(pw.active_profile(Some(&second)).unwrap().bands.len(), 3);
    let off = pw.disable(second);
    assert_eq!((off.revision, off.enabled), (3, false));
    assert!(pw.active_profile(Some(&off)).is_none());
    assert_eq!(pw.active_tone(Some(&off)), tone);
    assert_eq!(pw.active_tone(None), tone);
    assert_eq!(pw.saved_target_name(Some(off)).as_deref(), Some("alsa_output.usb"));

    let st = |rev, error: Option<&str>| Some(ServiceStatus { revision_applied: rev, ..status(true, false, None, error) });
    assert!(wait_ack(3, st(2, None), true, false).is_none());
    assert_eq!(wait_ack(3, st(3, None), true, false).unwrap().unwrap().revision_applied, 3);
    assert_eq!(wait_ack(3, st(4, Some("bad")), false, true).unwrap().unwrap_err(), "bad");
    assert_eq!(wait_ack(3, st(2, Some("old")), false, true).unwrap().unwrap_err(), "The ADtune service exited unexpectedly.");
    assert_eq!(wait_ack(3, None, true, true).unwrap().unwrap_err(), "Timed out waiting for the ADtune service.");
    assert_eq!(started(true, false), Some(Ok(())));
    assert_eq!(started(true, true), Some(Err("The ADtune service did not start.".to_string())));
    assert_eq!(started(false, false), None);
    assert_eq!(started(false, true), Some(Err("The ADtune service did not start.".to_string())));
}

#[test]
fn the_virtual_sink_is_refused_as_a_target() {
    let pw = PipeWire::new();
    let o = |name: &str, description: &str| OutputDevice {
        node_id: 1,
        node_name: name.into(),
        description: description.into(),
        is_default: false,
    };
    assert!(pw.check_target(&o("alsa", "Speakers")).is_ok());
    for bad in [o("effect_input.adtune", "x"), o("x", "My ADtune Calibrated out")] {
        assert_eq!(
            pw.check_target(&bad).unwrap_err(),
            "Choose your physical output device, not the ADtune virtual output."
        );
    }
}

#[test]
fn sockets_and_services() {
    let b = |s: &str| Some(s.as_bytes().to_vec());
    let p = |v: Option<Vec<u8>>| v.map(path);
    assert_eq!(p(socket_path(None, None, b("/run/user/1"))).as_deref(), Some("/run/user/1/pipewire-0"));
    assert_eq!(p(socket_path(b("pw"), b("/real/"), b("/run"))).as_deref(), Some("/real/pw"));
    assert_eq!(p(socket_path(b("/abs/pw"), b("/real"), None)).as_deref(), Some("/abs/pw"));
    assert_eq!(socket_path(b("/abs/pw"), None, None), None);
    assert!(detach_service(false, false, true, true));
    assert!(!detach_service(true, false, true, true) && !detach_service(false, true, true, true));
    assert!(!detach_service(false, false, false, true) && !detach_service(false, false, true, false));
}

#[test]
fn waits_end_with_an_answer() {
    let mut r = Roundtrip::Pending;
    assert_eq!(r.result(), Err("Timed out waiting for PipeWire to answer.".to_string()));
    assert!(!r.done(1, 5, 5) && !r.done(0, 4, 5));
    assert!(r.done(0, 5, 5));
    assert_eq!(r.result(), Ok(()));
    r.error("gone".into());
    assert_eq!(r.result(), Err("PipeWire connection error: gone".to_string()));
}

#[test]
fn portal_requests() {
    assert_eq!(request_token(1234), "adtune_1234");
    assert_eq!(request_path(":1.42", 7), "/org/freedesktop/portal/desktop/request/1_42/adtune_7");
    assert!(background_granted(0, None) && background_granted(0, Some(true)));
    assert!(!background_granted(0, Some(false)) && !background_granted(1, None) && !background_granted(2, Some(true)));
}

#[test]
fn waits_have_their_limits() {
    const SECOND: u64 = 1_000_000_000;
    assert!(!start_late(3 * SECOND - 1) && start_late(3 * SECOND));
    assert!(!ack_late(12 * SECOND) && ack_late(12 * SECOND + 1));
    assert_eq!(connect_again(60 * SECOND - 1), Some(2 * SECOND));
    assert_eq!(connect_again(60 * SECOND), None);
    assert_eq!(await_portal(5 * SECOND - 1), Ok(()));
    assert_eq!(await_portal(5 * SECOND), Err("timed out waiting for the background portal".to_string()));
    assert_eq!((tick_every(true), tick_every(false)), (SECOND / 4, SECOND / 10));
}

#[test]
fn the_service_stops_when_asked_or_removed() {
    assert!(stops(true, None) && stops(true, Some(true)) && stops(false, Some(false)));
    assert!(!stops(false, None) && !stops(false, Some(true)));
}

#[test]
fn snaps_start_the_service_at_login() {
    let e = snap_autostart(true, &env(Some("/home/u"), Some("/elsewhere"), None)).unwrap();
    assert_eq!(path(e.dir), "/home/u/.config/autostart");
    assert_eq!(path(e.path), "/home/u/.config/autostart/adtune-service.desktop");
    assert_eq!(
        e.text,
        "[Desktop Entry]\nType=Application\nName=ADtune Calibration Service\nExec=adtune-service\nX-GNOME-Autostart-enabled=true\n"
    );
    assert!(snap_autostart(false, &env(Some("/home/u"), None, None)).is_none());
    assert!(snap_autostart(true, &env(None, None, None)).is_none());
}
