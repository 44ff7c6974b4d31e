//! Endpoint identifiers, registration, and the Windows controller.

use adtune::windows::devices::{describe, OutputDevice};
use adtune::windows::elevate::{record_op_result, run_elevated, HelperRun};
use adtune::windows::env::{enhancements_enabled, is_apo_enabled};
use adtune::windows::native::NativeApo;
use adtune::windows::paths::{config_dir, config_path, result_path, state_path, temp_name, tool_path, user_profiles_dir};
use adtune::windows::register::{
    attach_apo, contains_us, enable_sysfx, strip_ours, FxKey, RegOp, RegValue, Slot, Stage, ValueName,
};
use adtune::windows::setup::{
    check_disable, check_enable, ensure_com_registration, fx_key, needs_unprotected_audio, pick_default,
    register_com_and_apo, restart_outcome, KeyOp,
};
use adtune::windows::{elsewhere, endpoint_guid, is_valid_endpoint_id};
use adtune::double::Double;
use adtune::profile::{AudioProfile, BandType, FilterBand, ToneSettings};
use adtune::state::StoredState;

const OURS: &str = "{7f4a1e02-9c3b-4d5a-8e21-ad7c0c0ffee1}";
const BODY: &str = "7f4a1e02-9c3b-4d5a-8e21-ad7c0c0ffee1";
const VENDOR: &str = "{11111111-2222-3333-4444-555555555555}";
const DEFAULT_MODE: &str = "{C18E2F7E-933D-4965-B7D1-1EEF228D2AF3}";

fn d(v: f64) -> Double {
    Double { bits: v.to_bits() }
}

#[test]
fn extracts_trailing_guid_from_endpoint_id() {
    assert_eq!(
        endpoint_guid("{0.0.0.00000000}.{e6327cad-dcec-4949-ae8a-991e976a79d2}"),
        "{e6327cad-dcec-4949-ae8a-991e976a79d2}"
    );
    assert_eq!(
        endpoint_guid("{b39fc22d-4c5d-4e65-8276-db7f999d2d06}"),
        "{b39fc22d-4c5d-4e65-8276-db7f999d2d06}"
    );
    assert_eq!(endpoint_guid("plain"), "plain");
}

#[test]
fn accepts_real_endpoint_ids() {
    assert!(is_valid_endpoint_id("{0.0.0.00000000}.{e6327cad-dcec-4949-ae8a-991e976a79d2}"));
    assert!(is_valid_endpoint_id("{b39fc22d-4c5d-4e65-8276-db7f999d2d06}"));
}

#[test]
fn rejects_injection_shaped_ids() {
    assert!(!is_valid_endpoint_id("")); // empty
    assert!(!is_valid_endpoint_id("--disable-apo")); // flag lookalike (no brace, has letters)
    assert!(!is_valid_endpoint_id("{guid} --enable-apo {other}")); // space → argv split
    assert!(!is_valid_endpoint_id("{a\"b}")); // quote
    assert!(!is_valid_endpoint_id("{a}\\..\\evil")); // path separators
    assert!(!is_valid_endpoint_id("plain-no-brace")); // no brace
    assert!(!is_valid_endpoint_id(&"{".repeat(300))); // over length
}

#[test]
fn identifiers_at_the_bounds() {
    assert!(is_valid_endpoint_id(&"{".repeat(200)));
    assert!(!is_valid_endpoint_id(&"{".repeat(201)));
    assert!(is_valid_endpoint_id("{ABCDEF}"));
    assert!(!is_valid_endpoint_id("{g}"));
    assert!(!is_valid_endpoint_id("{é}"));
}

/// A copy of a value.
fn copy(v: &RegValue) -> RegValue {
    match v {
        RegValue::Text(s) => RegValue::Text(s.clone()),
        RegValue::Expand(s) => RegValue::Expand(s.clone()),
        RegValue::List(l) => RegValue::List(l.clone()),
        RegValue::Number(n) => RegValue::Number(*n),
        RegValue::Other => RegValue::Other,
    }
}

/// Carries a plan out.
fn carry_out(key: &FxKey, plan: &[RegOp]) -> FxKey {
    let mut values: Vec<(ValueName, RegValue)> = key.values.iter().map(|(n, v)| (*n, copy(v))).collect();
    for op in plan {
        match op {
            RegOp::Write(n, v, _) => {
                values.retain(|(m, _)| m != n);
                values.push((*n, copy(v)));
            }
            RegOp::Remove(n) => values.retain(|(m, _)| m != n),
        }
    }
    FxKey { values }
}

/// The values of a key, in a fixed order.
fn listed(key: &FxKey) -> Vec<String> {
    let mut v: Vec<String> = key.values.iter().map(|(n, v)| format!("{}={v:?}", n.text())).collect();
    v.sort();
    v
}

fn enable(key: &FxKey) -> FxKey {
    let clean = carry_out(key, &strip_ours(key));
    let attached = carry_out(&clean, &attach_apo(&clean));
    carry_out(&attached, &enable_sysfx(&attached))
}

fn key(values: Vec<(ValueName, RegValue)>) -> FxKey {
    FxKey { values }
}

fn text(s: &str) -> RegValue {
    RegValue::Text(s.into())
}

fn list(items: &[&str]) -> RegValue {
    RegValue::List(items.iter().map(|s| s.to_string()).collect())
}

#[test]
fn enabling_and_disabling_restores_the_endpoint() {
    let endpoints = [
        key(vec![]),
        key(vec![(ValueName::Single(Slot::Sfx), text(VENDOR))]),
        key(vec![(ValueName::Single(Slot::Lfx), text(VENDOR))]),
        key(vec![(ValueName::Single(Slot::Mfx), text(VENDOR)), (ValueName::Modes(Stage::Mfx), list(&["{other}"]))]),
        key(vec![(ValueName::Single(Slot::Gfx), text(VENDOR))]),
        key(vec![(ValueName::Single(Slot::Efx), text(VENDOR)), (ValueName::DisableSysfx, RegValue::Number(1))]),
        key(vec![(ValueName::Composite(Stage::Sfx), list(&[VENDOR, "{x}"])), (ValueName::Single(Slot::Sfx), text("{y}"))]),
        key(vec![(ValueName::Composite(Stage::Mfx), list(&[VENDOR])), (ValueName::Modes(Stage::Mfx), list(&[DEFAULT_MODE]))]),
        key(vec![(ValueName::Composite(Stage::Efx), list(&[VENDOR]))]),
    ];
    for before in endpoints {
        let on = enable(&before);
        assert!(is_apo_enabled(Some(&on), BODY));
        assert!(enhancements_enabled(Some(&on)));
        let off = carry_out(&on, &strip_ours(&on));
        assert!(!is_apo_enabled(Some(&off), BODY));
        assert_eq!(listed(&off), listed(&before));
        // Enabling twice changes nothing more.
        assert_eq!(listed(&enable(&on)), listed(&on));
    }
}

#[test]
fn values_of_other_forms_do_not_come_back() {
    // A list written as a text comes back as a list, a blank effect not at all, and a
    // setting of the enhancements other than off is lost.
    let composite = key(vec![(ValueName::Composite(Stage::Sfx), text(VENDOR))]);
    let on = enable(&composite);
    let off = carry_out(&on, &strip_ours(&on));
    assert_eq!(listed(&off), listed(&key(vec![(ValueName::Composite(Stage::Sfx), list(&[VENDOR]))])));
    let blank = key(vec![(ValueName::Single(Slot::Sfx), text("  ")), (ValueName::DisableSysfx, RegValue::Number(0))]);
    let on = enable(&blank);
    let off = carry_out(&on, &strip_ours(&on));
    assert_eq!(listed(&off), listed(&key(vec![])));
}

#[test]
fn fresh_endpoint_gets_a_stream_effect() {
    let on = enable(&key(vec![]));
    assert_eq!(
        listed(&on),
        listed(&key(vec![
            (ValueName::Single(Slot::Sfx), text(OURS)),
            (ValueName::Modes(Stage::Sfx), list(&[DEFAULT_MODE])),
            (ValueName::ModesCreated(Stage::Sfx), RegValue::Number(1)),
        ]))
    );
    assert_eq!(ValueName::Single(Slot::Sfx).text(), "{d04e05a6-594b-4fb6-a80d-01af5eed7d1d},5");
    assert_eq!(ValueName::Composite(Stage::Efx).text(), "{d04e05a6-594b-4fb6-a80d-01af5eed7d1d},15");
    assert_eq!(ValueName::ModesCreated(Stage::Mfx).text(), "ADtune.backup.modescreated.6");
    assert_eq!(ValueName::SysfxBackup.text(), "ADtune.backup.sysfx");
}

#[test]
fn displaced_effect_is_backed_up_first() {
    let plan = attach_apo(&key(vec![(ValueName::Single(Slot::Mfx), text(VENDOR)), (ValueName::Modes(Stage::Mfx), text("{m}"))]));
    match &plan[..] {
        [RegOp::Write(a, RegValue::Text(v), Some(e)), RegOp::Write(b, RegValue::Text(o), Some(g)), RegOp::Write(c, RegValue::List(m), Some(h)), RegOp::Write(x, RegValue::List(n), Some(i))] => {
            assert_eq!((*a, v.as_str(), e.as_str()), (ValueName::Backup(Slot::Mfx), VENDOR, "could not preserve the existing effect in slot 6"));
            assert_eq!((*b, o.as_str(), g.as_str()), (ValueName::Single(Slot::Mfx), OURS, "FxProperties set-value (6) failed"));
            assert_eq!((*c, m.clone(), h.as_str()), (ValueName::ModesBackup(Stage::Mfx), vec!["{m}".to_string()], "could not back up processing modes (6)"));
            assert_eq!((*x, n.clone(), i.as_str()), (ValueName::Modes(Stage::Mfx), vec!["{m}".to_string(), DEFAULT_MODE.to_string()], "processing-modes set-value (6) failed"));
        }
        _ => panic!("unexpected plan"),
    }
}

#[test]
fn only_the_whole_identifier_is_ours() {
    assert!(contains_us(OURS));
    assert!(contains_us(&OURS.to_uppercase()));
    assert!(!contains_us("{7f4a1e02-0000-0000-0000-000000000000}"));
    assert!(!contains_us(""));
    // A vendor's list keeps its other entries.
    let k = key(vec![(ValueName::Composite(Stage::Sfx), list(&["{a}", OURS, "{b}"]))]);
    let off = carry_out(&k, &strip_ours(&k));
    assert_eq!(listed(&off), listed(&key(vec![(ValueName::Composite(Stage::Sfx), list(&["{a}", "{b}"]))])));
    let alone = key(vec![(ValueName::Composite(Stage::Sfx), list(&[OURS])), (ValueName::Single(Slot::Gfx), text(OURS))]);
    assert!(is_apo_enabled(Some(&alone), BODY));
    assert_eq!(listed(&carry_out(&alone, &strip_ours(&alone))), Vec::<String>::new());
}

#[test]
fn every_effect_slot_counts() {
    for n in [
        ValueName::Single(Slot::Sfx),
        ValueName::Single(Slot::Mfx),
        ValueName::Single(Slot::Efx),
        ValueName::Single(Slot::Lfx),
        ValueName::Single(Slot::Gfx),
        ValueName::Composite(Stage::Sfx),
        ValueName::Composite(Stage::Mfx),
        ValueName::Composite(Stage::Efx),
    ] {
        assert!(is_apo_enabled(Some(&key(vec![(n, text(OURS))])), &BODY.to_uppercase()));
        assert!(is_apo_enabled(Some(&key(vec![(n, list(&["{a}", OURS]))])), BODY));
        assert!(!is_apo_enabled(Some(&key(vec![(n, RegValue::Number(7))])), BODY));
    }
    assert!(!is_apo_enabled(Some(&key(vec![(ValueName::Backup(Slot::Sfx), text(OURS))])), BODY));
    assert!(!is_apo_enabled(None, BODY));
    assert!(enhancements_enabled(None));
    assert!(!enhancements_enabled(Some(&key(vec![(ValueName::DisableSysfx, RegValue::Number(1))]))));
    assert!(enhancements_enabled(Some(&key(vec![(ValueName::DisableSysfx, RegValue::Number(0))]))));
}

#[test]
fn registration_is_complete() {
    let plan = register_com_and_apo(r"C:\ADtune\adtune_apo.dll");
    assert_eq!(plan.len(), 20);
    match &plan[3] {
        KeyOp::Write(path, name, RegValue::Text(v), e) => {
            assert_eq!(path, r"SOFTWARE\Classes\CLSID\{7f4a1e02-9c3b-4d5a-8e21-ad7c0c0ffee1}\InprocServer32");
            assert_eq!((name.as_str(), v.as_str(), e.as_str()), ("", r"C:\ADtune\adtune_apo.dll", "Failed to set InprocServer32 default value"));
        }
        _ => panic!(),
    }
    match &plan[10] {
        KeyOp::Write(path, name, RegValue::Number(n), _) => {
            assert_eq!(path, r"SOFTWARE\Classes\AudioEngine\AudioProcessingObjects\{7f4a1e02-9c3b-4d5a-8e21-ad7c0c0ffee1}");
            assert_eq!((name.as_str(), *n), ("Flags", 0xd));
        }
        _ => panic!(),
    }
    assert_eq!(ensure_com_registration(Some("x.dll"), false).unwrap().len(), 20);
    assert_eq!(ensure_com_registration(None, true).unwrap().len(), 0);
    assert_eq!(
        ensure_com_registration(None, false).err().unwrap(),
        "adtune_apo.dll was not found next to adtune.exe and no installed ADtune APO registration exists. Reinstall ADtune."
    );
    assert!(needs_unprotected_audio(None) && needs_unprotected_audio(Some(0)) && !needs_unprotected_audio(Some(1)));
    assert_eq!(
        fx_key("{0.0.0.00000000}.{ab}"),
        r"SOFTWARE\Microsoft\Windows\CurrentVersion\MMDevices\Audio\Render\{ab}\FxProperties"
    );
}

#[test]
fn malformed_identifiers_are_refused() {
    assert!(check_enable("{ab}").is_ok() && check_disable("{ab}").is_ok());
    assert_eq!(check_enable("x y").unwrap_err(), "Refusing to enable: malformed audio endpoint id.");
    assert_eq!(check_disable("x y").unwrap_err(), "Refusing to disable: malformed audio endpoint id.");
}

fn device(id: &str, is_default: bool) -> OutputDevice {
    OutputDevice { id: id.into(), friendly_name: id.into(), is_default }
}

#[test]
fn devices_are_described_and_picked() {
    assert_eq!(pick_default(&vec![device("a", false), device("b", true)]), Ok(1));
    assert_eq!(pick_default(&vec![device("a", false), device("b", false)]), Ok(0));
    assert_eq!(pick_default(&vec![]), Err("No playback device found.".to_string()));
    let o = describe("id".into(), Some("Speakers".into()), Some("id"));
    assert_eq!((o.friendly_name.as_str(), o.is_default), ("Speakers", true));
    let o = describe("id".into(), Some(String::new()), Some("other"));
    assert_eq!((o.friendly_name.as_str(), o.is_default), ("id", false));
    let o = describe("id".into(), None, None);
    assert_eq!((o.friendly_name.as_str(), o.is_default), ("id", false));
}

#[test]
fn helper_reports_reach_the_user() {
    assert_eq!(record_op_result(&Ok(())), "");
    assert_eq!(record_op_result(&Err("access denied".into())), "access denied");
    assert_eq!(run_elevated(&HelperRun::Ended(Some(0)), Some("stale".into())), Ok(()));
    assert_eq!(run_elevated(&HelperRun::Ended(Some(1)), Some("access denied".into())), Err("access denied".to_string()));
    assert_eq!(
        run_elevated(&HelperRun::Ended(Some(3)), Some("  ".into())),
        Err("The elevated ADtune helper failed (exit code 3).".to_string())
    );
    assert_eq!(
        run_elevated(&HelperRun::Ended(None), None),
        Err("The elevated ADtune helper failed (exit code 1).".to_string())
    );
    assert_eq!(
        run_elevated(&HelperRun::Refused, None),
        Err("Setup was cancelled (administrator permission was not granted).".to_string())
    );
    assert_eq!(
        run_elevated(&HelperRun::NoProcess, None),
        Err("Could not start the elevated ADtune helper.".to_string())
    );
    assert_eq!(
        run_elevated(&HelperRun::TimedOut, None),
        Err("The elevated ADtune helper did not finish in time (the audio service may be busy). Try again.".to_string())
    );
    assert!(restart_outcome(false, "STATE : 4 RUNNING").is_ok());
    assert!(restart_outcome(true, "").is_ok());
    assert_eq!(restart_outcome(false, "STOPPED"), Err("Could not restart the Windows audio service.".to_string()));
}

fn stored(wet: f64) -> StoredState<String> {
    let p = AudioProfile {
        key: "k".into(),
        name: "HP".into(),
        bands: vec![FilterBand::new(BandType::Peaking, d(1000.0), d(3.0), d(1.0))],
        ..Default::default()
    };
    let t = ToneSettings { wet: d(wet), ..Default::default() };
    StoredState::new(&p, "{id}.render".to_string(), "USB Headphones", &t)
}

#[test]
fn controller_states() {
    let apo = NativeApo::new();
    let s = stored(1.0);
    assert_eq!(s.target_id, "{id}.render");
    assert_eq!(s.profile.to_profile().name, "HP");
    assert!(!s.bypassed);
    let say = |s: Option<&StoredState<String>>, a, b| apo.status(s, a, b);
    assert_eq!(say(Some(&stored(0.0)), false, false), (true, "Bypassed on USB Headphones".to_string()));
    assert_eq!(
        say(Some(&s), true, false),
        (false, "Audio enhancements are off on USB Headphones — turn Calibration on to fix".to_string())
    );
    assert_eq!(say(Some(&s), true, true), (true, "Correcting USB Headphones".to_string()));
    assert_eq!(say(Some(&s), false, true), (false, "Not active on USB Headphones yet".to_string()));
    assert_eq!(say(None, true, true), (false, "Not configured.".to_string()));
    let (p, target, tone) = apo.disable(&s);
    assert_eq!((p.name.as_str(), target.id.as_str(), f64::from_bits(tone.wet.bits)), ("HP", "{id}.render", 0.0));
    assert!(StoredState::new(&p, target.id.clone(), "x", &tone).bypassed);
    assert_eq!(apo.active_profile(Some(&s)).unwrap().bands.len(), 1);
    assert!(apo.active_profile(None).is_none());
    assert_eq!(apo.active_tone(None), ToneSettings::default());
    assert_eq!(apo.saved_target(Some(s)), Some(("{id}.render".to_string(), "USB Headphones".to_string())));
    assert_eq!(apo.idle_config(), "# ADtune disabled\r\n");
    let on = enable(&key(vec![]));
    assert!(apo.is_enabled_on(Some(&on)) && !apo.outcome(Some(&on)).needs_enable);
    assert!(apo.outcome(None).needs_enable);
    assert!(apo.enhancements_enabled_on(None));
}

#[test]
fn other_platforms_have_no_backend() {
    assert_eq!(elsewhere::enable_apo_on("{a}"), Err("The ADtune APO is Windows-only.".to_string()));
    assert_eq!(elsewhere::enable_default_apo(), Err("The ADtune APO is Windows-only.".to_string()));
    assert!(elsewhere::disable_apo_on("x").is_ok() && elsewhere::disable_apo_everywhere().is_ok());
    assert!(elsewhere::restart_audio_engine().is_ok());
    assert_eq!(elsewhere::run_elevated("--enable-apo"), Err("Elevation is only available on Windows.".to_string()));
    assert_eq!(elsewhere::enumerate().err().unwrap(), "The ADtune Windows backend is Windows-only.");
}

#[test]
fn files_lie_below_their_bases() {
    assert_eq!(config_dir(None), ["C:\\ProgramData", "ADtune"]);
    assert_eq!(config_path(Some("D:\\Data")), ["D:\\Data", "ADtune", "config.txt"]);
    assert_eq!(state_path(None), ["C:\\ProgramData", "ADtune", "state.json"]);
    assert_eq!(result_path(None), ["C:\\ProgramData", "ADtune", "last-op.txt"]);
    let wide = |s: &str| s.encode_utf16().collect::<Vec<u16>>();
    assert_eq!(user_profiles_dir(None), [wide("C:\\ProgramData"), wide("ADtune"), wide("profiles")]);
    // A lone surrogate is kept.
    assert_eq!(user_profiles_dir(Some(vec![0xd800])), [vec![0xd800], wide("ADtune"), wide("profiles")]);
    assert_eq!(tool_path(None, "net.exe"), "C:\\Windows\\System32\\net.exe");
    assert_eq!(tool_path(Some("D:\\W"), "sc.exe"), "D:\\W\\System32\\sc.exe");
    assert_eq!(temp_name("config.txt", 42), ".config.txt.42.tmp");
}
