//! Making the APO known to the system, and the steps around enabling it.

use vstd::prelude::*;
use vstd::string::*;

use crate::text::{chars_of, holds, holds_chars};
use crate::windows::devices::{device_views, DeviceView, OutputDevice};
use crate::windows::register::{apo_clsid, RegValue, ValueView};
use crate::windows::{endpoint_guid, guid_of, is_valid_endpoint_id, valid_id};

verus! {

/// An operation on a key of the local machine. Where one with an error text fails,
/// the plan fails with that text, a colon and the reason; one without goes on.
pub enum KeyOp {
    /// Create a key, or open it where it is there: its path and the error text.
    Create(String, String),
    /// Set a value: the path of its key, its name, the value and the error text.
    Write(String, String, RegValue, String),
    /// Delete a value: the path of its key and its name.
    Remove(String, String),
}

/// What an operation says.
pub enum KeyOpView {
    Create(Seq<char>, Seq<char>),
    Write(Seq<char>, Seq<char>, ValueView, Seq<char>),
    Remove(Seq<char>, Seq<char>),
}

impl View for KeyOp {
    type V = KeyOpView;

    open spec fn view(&self) -> KeyOpView {
        match self {
            KeyOp::Create(p, e) => KeyOpView::Create(p@, e@),
            KeyOp::Write(p, n, v, e) => KeyOpView::Write(p@, n@, v@, e@),
            KeyOp::Remove(p, n) => KeyOpView::Remove(p@, n@),
        }
    }
}

/// What some operations say.
pub open spec fn key_ops(v: Seq<KeyOp>) -> Seq<KeyOpView> {
    Seq::new(v.len(), |i: int| v[i]@)
}

/// The key of the APO's class.
pub open spec fn clsid_path() -> Seq<char> {
    "SOFTWARE\\Classes\\CLSID\\"@ + apo_clsid()
}

/// The key that names the library of the APO's class.
pub open spec fn inproc_path() -> Seq<char> {
    clsid_path() + "\\InprocServer32"@
}

/// The key under which the audio engine knows the APO.
pub open spec fn engine_path() -> Seq<char> {
    "SOFTWARE\\Classes\\AudioEngine\\AudioProcessingObjects\\"@ + apo_clsid()
}

/// The key of an endpoint's effects.
pub open spec fn fx_path(id: Seq<char>) -> Seq<char> {
    "SOFTWARE\\Microsoft\\Windows\\CurrentVersion\\MMDevices\\Audio\\Render\\"@ + guid_of(id)
        + "\\FxProperties"@
}

/// The key of an endpoint's effects.
pub fn fx_key(endpoint_id: &str) -> (r: String)
    ensures
        r@ == fx_path(endpoint_id@),
{
    "SOFTWARE\\Microsoft\\Windows\\CurrentVersion\\MMDevices\\Audio\\Render\\".to_owned().concat(
        &endpoint_guid(endpoint_id),
    ).concat("\\FxProperties")
}

/// A text value of the APO's key in the audio engine.
pub open spec fn engine_text(name: Seq<char>, value: Seq<char>, error: Seq<char>) -> KeyOpView {
    KeyOpView::Write(engine_path(), name, ValueView::Text(value), error)
}

/// A number value of the APO's key in the audio engine.
pub open spec fn engine_number(name: Seq<char>, value: u32, error: Seq<char>) -> KeyOpView {
    KeyOpView::Write(engine_path(), name, ValueView::Number(value), error)
}

/// The class: its name and the library that implements it.
pub open spec fn class_plan(dll: Seq<char>) -> Seq<KeyOpView> {
    seq![
        KeyOpView::Create(clsid_path(), "Failed to create CLSID key"@),
        KeyOpView::Write(
            clsid_path(),
            seq![],
            ValueView::Text("ADtune APO"@),
            "Failed to set CLSID default value"@,
        ),
        KeyOpView::Create(inproc_path(), "Failed to create InprocServer32 key"@),
        KeyOpView::Write(
            inproc_path(),
            seq![],
            ValueView::Text(dll),
            "Failed to set InprocServer32 default value"@,
        ),
        KeyOpView::Write(
            inproc_path(),
            "ThreadingModel"@,
            ValueView::Text("Both"@),
            "Failed to set ThreadingModel"@,
        ),
    ]
}

/// The properties of the APO in the audio engine. The one interface it declares is
/// the functional one, by which the engine drives it; the flags are those of effects
/// that work in place and change neither frame rate nor sample size.
pub open spec fn engine_plan() -> Seq<KeyOpView> {
    seq![
        KeyOpView::Create(engine_path(), "Failed to create AudioProcessingObjects key"@),
        engine_text("FriendlyName"@, "ADtune APO"@, "Failed to set FriendlyName"@),
        engine_text(
            "APOInterface0"@,
            "{FD7F2B29-24D0-4B5C-B177-592C39F9CA10}"@,
            "Failed to set APOInterface0"@,
        ),
        KeyOpView::Remove(engine_path(), "APOInterface1"@),
        KeyOpView::Remove(engine_path(), "APOInterface2"@),
        engine_number("Flags"@, 0xd, "Failed to set Flags"@),
        engine_number("NumAPOInterfaces"@, 1, "Failed to set NumAPOInterfaces"@),
        engine_text(
            "Copyright"@,
            "Copyright (c) 2026 Antonio DEDEJ"@,
            "Failed to set Copyright"@,
        ),
        engine_number("MajorVersion"@, 1, "Failed to set MajorVersion"@),
        engine_number("MinorVersion"@, 0, "Failed to set MinorVersion"@),
        engine_number("MinInputConnections"@, 1, "Failed to set MinInputConnections"@),
        engine_number("MaxInputConnections"@, 1, "Failed to set MaxInputConnections"@),
        engine_number("MinOutputConnections"@, 1, "Failed to set MinOutputConnections"@),
        engine_number("MaxOutputConnections"@, 1, "Failed to set MaxOutputConnections"@),
        engine_number("MaxInstances"@, 0xffff_ffff, "Failed to set MaxInstances"@),
    ]
}

fn clsid_key() -> (r: String)
    ensures
        r@ == clsid_path(),
{
    "SOFTWARE\\Classes\\CLSID\\".to_owned().concat("{7f4a1e02-9c3b-4d5a-8e21-ad7c0c0ffee1}")
}

fn inproc_key() -> (r: String)
    ensures
        r@ == inproc_path(),
{
    clsid_key().concat("\\InprocServer32")
}

fn engine_key() -> (r: String)
    ensures
        r@ == engine_path(),
{
    "SOFTWARE\\Classes\\AudioEngine\\AudioProcessingObjects\\".to_owned().concat(
        "{7f4a1e02-9c3b-4d5a-8e21-ad7c0c0ffee1}",
    )
}

fn plan_key(plan: &mut Vec<KeyOp>, op: KeyOp)
    ensures
        key_ops(final(plan)@) == key_ops(old(plan)@).push(op@),
{
    let ghost before = key_ops(plan@);
    plan.push(op);
    assert(key_ops(plan@) =~= before.push(op@));
}

fn plan_text(plan: &mut Vec<KeyOp>, name: &str, value: &str, error: &str)
    ensures
        key_ops(final(plan)@) == key_ops(old(plan)@).push(engine_text(name@, value@, error@)),
{
    plan_key(
        plan,
        KeyOp::Write(
            engine_key(),
            name.to_owned(),
            RegValue::Text(value.to_owned()),
            error.to_owned(),
        ),
    );
}

fn plan_number(plan: &mut Vec<KeyOp>, name: &str, value: u32, error: &str)
    ensures
        key_ops(final(plan)@) == key_ops(old(plan)@).push(engine_number(name@, value, error@)),
{
    plan_key(
        plan,
        KeyOp::Write(engine_key(), name.to_owned(), RegValue::Number(value), error.to_owned()),
    );
}

fn plan_class(plan: &mut Vec<KeyOp>, dll: &str)
    ensures
        key_ops(final(plan)@) == key_ops(old(plan)@) + class_plan(dll@),
{
    let ghost before = key_ops(plan@);
    let unnamed: String = String::new();
    let unnamed_too: String = String::new();
    assert(unnamed@ =~= seq![]);
    assert(unnamed_too@ =~= seq![]);
    plan_key(plan, KeyOp::Create(clsid_key(), "Failed to create CLSID key".to_owned()));
    plan_key(
        plan,
        KeyOp::Write(
            clsid_key(),
            unnamed,
            RegValue::Text("ADtune APO".to_owned()),
            "Failed to set CLSID default value".to_owned(),
        ),
    );
    plan_key(plan, KeyOp::Create(inproc_key(), "Failed to create InprocServer32 key".to_owned()));
    plan_key(
        plan,
        KeyOp::Write(
            inproc_key(),
            unnamed_too,
            RegValue::Text(dll.to_owned()),
            "Failed to set InprocServer32 default value".to_owned(),
        ),
    );
    plan_key(
        plan,
        KeyOp::Write(
            inproc_key(),
            "ThreadingModel".to_owned(),
            RegValue::Text("Both".to_owned()),
            "Failed to set ThreadingModel".to_owned(),
        ),
    );
    assert(key_ops(plan@) =~= before + class_plan(dll@));
}

/// The plan that registers the APO: its class, implemented by the given library, and
/// its properties in the audio engine.
pub fn register_com_and_apo(dll: &str) -> (plan: Vec<KeyOp>)
    ensures
        key_ops(plan@) == class_plan(dll@) + engine_plan(),
{
    let mut plan: Vec<KeyOp> = Vec::new();
    plan_class(&mut plan, dll);
    assert(key_ops(plan@) =~= class_plan(dll@));
    let ghost before = key_ops(plan@);
    plan_key(
        &mut plan,
        KeyOp::Create(engine_key(), "Failed to create AudioProcessingObjects key".to_owned()),
    );
    plan_text(&mut plan, "FriendlyName", "ADtune APO", "Failed to set FriendlyName");
    plan_text(
        &mut plan,
        "APOInterface0",
        "{FD7F2B29-24D0-4B5C-B177-592C39F9CA10}",
        "Failed to set APOInterface0",
    );
    plan_key(&mut plan, KeyOp::Remove(engine_key(), "APOInterface1".to_owned()));
    plan_key(&mut plan, KeyOp::Remove(engine_key(), "APOInterface2".to_owned()));
    plan_number(&mut plan, "Flags", 0xd, "Failed to set Flags");
    plan_number(&mut plan, "NumAPOInterfaces", 1, "Failed to set NumAPOInterfaces");
    plan_text(
        &mut plan,
        "Copyright",
        "Copyright (c) 2026 Antonio DEDEJ",
        "Failed to set Copyright",
    );
    plan_number(&mut plan, "MajorVersion", 1, "Failed to set MajorVersion");
    plan_number(&mut plan, "MinorVersion", 0, "Failed to set MinorVersion");
    plan_number(&mut plan, "MinInputConnections", 1, "Failed to set MinInputConnections");
    plan_number(&mut plan, "MaxInputConnections", 1, "Failed to set MaxInputConnections");
    plan_number(&mut plan, "MinOutputConnections", 1, "Failed to set MinOutputConnections");
    plan_number(&mut plan, "MaxOutputConnections", 1, "Failed to set MaxOutputConnections");
    plan_number(&mut plan, "MaxInstances", 0xffff_ffff, "Failed to set MaxInstances");
    assert(key_ops(plan@) =~= before + engine_plan());
    plan
}

/// The plan that makes sure that the APO can be created: it is registered anew where
/// its library lies next to the program, and left as it is where a registered library
/// exists. An endpoint must not be attached to a class that nothing can create, so
/// without a library this is an error.
pub fn ensure_com_registration(local_dll: Option<&str>, registered: bool) -> (r: Result<
    Vec<KeyOp>,
    String,
>)
    ensures
        match local_dll {
            Some(dll) => r matches Ok(plan) && key_ops(plan@) == class_plan(dll@) + engine_plan(),
            None => if registered {
                r matches Ok(plan) && plan@.len() == 0
            } else {
                r matches Err(e) && e@
                    == "adtune_apo.dll was not found next to adtune.exe and no installed ADtune APO registration exists. Reinstall ADtune."@
            },
        },
{
    match local_dll {
        Some(dll) => Ok(register_com_and_apo(dll)),
        None => if registered {
            Ok(Vec::new())
        } else {
            Err(
                "adtune_apo.dll was not found next to adtune.exe and no installed ADtune APO registration exists. Reinstall ADtune.".to_owned(),
            )
        },
    }
}

/// Whether the switch that lets unsigned effects run has to be set: it is written
/// only where it is not 1 already.
pub fn needs_unprotected_audio(current: Option<u32>) -> (r: bool)
    ensures
        r == (current != Some(1u32)),
{
    match current {
        Some(n) => n != 1,
        None => true,
    }
}

/// Lets an endpoint be enabled, unless its identifier is malformed.
pub fn check_enable(endpoint_id: &str) -> (r: Result<(), String>)
    ensures
        r is Ok <==> valid_id(endpoint_id@),
        r matches Err(e) ==> e@ == "Refusing to enable: malformed audio endpoint id."@,
{
    if is_valid_endpoint_id(endpoint_id) {
        Ok(())
    } else {
        Err("Refusing to enable: malformed audio endpoint id.".to_owned())
    }
}

/// Lets an endpoint be disabled, unless its identifier is malformed.
pub fn check_disable(endpoint_id: &str) -> (r: Result<(), String>)
    ensures
        r is Ok <==> valid_id(endpoint_id@),
        r matches Err(e) ==> e@ == "Refusing to disable: malformed audio endpoint id."@,
{
    if is_valid_endpoint_id(endpoint_id) {
        Ok(())
    } else {
        Err("Refusing to disable: malformed audio endpoint id.".to_owned())
    }
}

/// The index of the first default device, or the number of devices.
pub open spec fn default_index(devices: Seq<DeviceView>) -> nat
    decreases devices.len(),
{
    if devices.len() == 0 || devices[0].is_default {
        0
    } else {
        1 + default_index(devices.drop_first())
    }
}

/// The device to enable where none is named: the default one, or the first one.
pub fn pick_default(devices: &Vec<OutputDevice>) -> (r: Result<usize, String>)
    ensures
        r matches Ok(i) ==> devices@.len() > 0 && i == if default_index(device_views(devices@))
            < devices@.len() {
            default_index(device_views(devices@)) as int
        } else {
            0
        },
        r matches Err(e) ==> devices@.len() == 0 && e@ == "No playback device found."@,
        devices@.len() == 0 ==> r is Err,
{
    let ghost all = device_views(devices@);
    assert(all.skip(0) =~= all);
    for i in 0..devices.len()
        invariant
            all == device_views(devices@),
            default_index(all) == i + default_index(all.skip(i as int)),
    {
        assert(all.skip(i as int)[0] == all[i as int]);
        if devices[i].is_default {
            return Ok(i);
        }
        assert(all.skip(i as int).drop_first() =~= all.skip(i + 1));
    }
    if devices.len() > 0 {
        Ok(0)
    } else {
        Err("No playback device found.".to_owned())
    }
}

/// Whether the audio engine runs again after a restart: its service was started, or
/// is reported to be running all the same.
pub fn restart_outcome(started: bool, report: &str) -> (r: Result<(), String>)
    ensures
        r is Ok <==> started || holds(report@, "RUNNING"@),
        r matches Err(e) ==> e@ == "Could not restart the Windows audio service."@,
{
    if started || holds_chars(&chars_of(report), &chars_of("RUNNING")) {
        Ok(())
    } else {
        Err("Could not restart the Windows audio service.".to_owned())
    }
}

} // verus!
