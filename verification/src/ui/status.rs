//! What the window shows of its devices and of what became of an operation.

use vstd::prelude::*;
use vstd::string::*;

use crate::double::{double, Double};
use crate::profile::ToneSettings;
use crate::text::same;
use crate::ui::sys::{device_views, Device, DeviceView};

verus! {

/// The index of the first device of the given name, or the number of devices.
pub open spec fn named_index(devices: Seq<DeviceView>, name: Seq<char>) -> nat
    decreases devices.len(),
{
    if devices.len() == 0 || devices[0].name == name {
        0
    } else {
        1 + named_index(devices.drop_first(), name)
    }
}

/// The index of the first default device, or the number of devices.
pub open spec fn default_index(devices: Seq<DeviceView>) -> nat
    decreases devices.len(),
{
    if devices.len() == 0 || devices[0].is_default {
        0
    } else {
        1 + default_index(devices.drop_first())
    }
}

/// The device to select: the one that was used last, if it is there, or else the default
/// one, or else the first one; -1 where there are none.
pub open spec fn picked(devices: Seq<DeviceView>, saved: Option<Seq<char>>) -> int {
    if saved matches Some(name) && named_index(devices, name) < devices.len() {
        named_index(devices, saved->0) as int
    } else if default_index(devices) < devices.len() {
        default_index(devices) as int
    } else if devices.len() == 0 {
        -1
    } else {
        0
    }
}

fn named_position(devices: &Vec<Device>, name: &str) -> (r: usize)
    ensures
        r == named_index(device_views(devices@), name@),
        r <= devices@.len(),
{
    let ghost all = device_views(devices@);
    assert(all.skip(0) =~= all);
    let mut i: usize = 0;
    while i < devices.len() && !same(&devices[i].name, name)
        invariant
            i <= devices@.len(),
            all == device_views(devices@),
            named_index(all, name@) == i + named_index(all.skip(i as int), name@),
        decreases devices@.len() - i,
    {
        assert(all.skip(i as int)[0] == devices@[i as int]@);
        assert(all.skip(i as int).drop_first() =~= all.skip(i + 1));
        i = i + 1;
    }
    if i < devices.len() {
        assert(all.skip(i as int)[0] == devices@[i as int]@);
    }
    i
}

fn default_position(devices: &Vec<Device>) -> (r: usize)
    ensures
        r == default_index(device_views(devices@)),
        r <= devices@.len(),
{
    let ghost all = device_views(devices@);
    assert(all.skip(0) =~= all);
    let mut i: usize = 0;
    while i < devices.len() && !devices[i].is_default
        invariant
            i <= devices@.len(),
            all == device_views(devices@),
            default_index(all) == i + default_index(all.skip(i as int)),
        decreases devices@.len() - i,
    {
        assert(all.skip(i as int)[0] == devices@[i as int]@);
        assert(all.skip(i as int).drop_first() =~= all.skip(i + 1));
        i = i + 1;
    }
    if i < devices.len() {
        assert(all.skip(i as int)[0] == devices@[i as int]@);
    }
    i
}

/// The view of an optional string.
pub open spec fn opt_name(s: Option<&str>) -> Option<Seq<char>> {
    match s {
        Some(t) => Some(t@),
        None => None,
    }
}

/// The device to select: the one that was used last, if it is there, or else the default
/// one, or else the first one; -1 where there are none.
pub fn pick_output_index(devices: &Vec<Device>, saved: Option<&str>) -> (r: i32)
    requires
        devices@.len() <= i32::MAX,
    ensures
        r == picked(device_views(devices@), opt_name(saved)),
{
    if let Some(name) = saved {
        let i: usize = named_position(devices, name);
        if i < devices.len() {
            return i as i32;
        }
    }
    let i: usize = default_position(devices);
    if i < devices.len() {
        return i as i32;
    }
    if devices.len() == 0 {
        -1
    } else {
        0
    }
}

/// The device with the given name.
pub fn device_named(devices: &Vec<Device>, name: &str) -> (r: Option<Device>)
    ensures
        r is Some <==> named_index(device_views(devices@), name@) < devices@.len(),
        r matches Some(d) ==> d@ == device_views(devices@)[named_index(
            device_views(devices@),
            name@,
        ) as int],
{
    let i: usize = named_position(devices, name);
    if i < devices.len() {
        Some(devices[i].clone())
    } else {
        None
    }
}

/// The device that is selected.
pub fn selected_device(devices: &Vec<Device>, index: i32) -> (r: Option<Device>)
    ensures
        r is Some <==> 0 <= index < devices@.len(),
        r matches Some(d) ==> d@ == devices@[index as int]@,
{
    if index >= 0 && (index as usize) < devices.len() {
        Some(devices[index as usize].clone())
    } else {
        None
    }
}

/// The status line: an error with a warning sign, or the message.
pub open spec fn status_line(error: Option<Seq<char>>, message: Seq<char>) -> Seq<char> {
    match error {
        Some(e) => "⚠ "@ + e,
        None => message,
    }
}

/// The view of an optional string.
pub open spec fn opt_error(s: Option<String>) -> Option<Seq<char>> {
    match s {
        Some(t) => Some(t@),
        None => None,
    }
}

/// What became of an operation.
pub struct Outcome {
    /// What went wrong.
    pub error: Option<String>,
    /// It was a quick push to the running filter: there is nothing to show but an error.
    pub live: bool,
    pub active: bool,
    pub message: String,
    pub outputs: Vec<Device>,
    pub correction_on: bool,
    pub needs_grant: bool,
}

/// What the window shows of an operation.
pub struct Shown {
    /// The status line, where it changes.
    pub status: Option<String>,
    /// The device to select, where there is one.
    pub selected: Option<i32>,
    /// Everything else is to be shown anew.
    pub resync: bool,
    /// The user is told how to grant access.
    pub grant_dialog: bool,
}

/// What the window shows of an operation: of a quick push its error alone, of any other
/// the status line and the devices. How to grant access is told once.
pub fn apply_outcome(o: &Outcome, saved: Option<&str>, grant_shown: bool) -> (r: Shown)
    requires
        o.outputs@.len() <= i32::MAX,
    ensures
        r.resync == !o.live,
        r.grant_dialog == (!o.live && o.needs_grant && !grant_shown),
        r.status is Some <==> !o.live || o.error is Some,
        r.status matches Some(s) ==> s@ == status_line(opt_error(o.error), o.message@),
        r.selected == if !o.live && picked(device_views(o.outputs@), opt_name(saved)) >= 0 {
            Some(picked(device_views(o.outputs@), opt_name(saved)) as i32)
        } else {
            None
        },
{
    let status: Option<String> = match &o.error {
        Some(e) => Some("⚠ ".to_owned().concat(e)),
        None => if o.live {
            None
        } else {
            Some(o.message.clone())
        },
    };
    if o.live {
        return Shown { status, selected: None, resync: false, grant_dialog: false };
    }
    let index: i32 = pick_output_index(&o.outputs, saved);
    Shown {
        status,
        selected: if index >= 0 {
            Some(index)
        } else {
            None
        },
        resync: true,
        grant_dialog: o.needs_grant && !grant_shown,
    }
}

/// Whether the correction is on: the filter is active and the correction amount is more
/// than zero.
pub fn correction_on(active: bool, tone: &ToneSettings) -> (r: bool)
    ensures
        r == (active && double(0).less(tone.wet)),
{
    active && (Double { bits: 0 }).lt(&tone.wet)
}

/// 0.01, the least correction amount while the correction is on.
pub const LEAST_WET: u64 = 0x3f84_7ae1_47ae_147b;

/// The tone settings of the controls, whose correction amount is in percent.
pub fn read_tone(percent: Double, bass: Double, tilt: Double, headroom: bool) -> (r: ToneSettings)
    ensures
        r == (ToneSettings { wet: percent.quotient(100), bass, tilt, headroom }),
{
    ToneSettings { wet: percent.over(100), bass, tilt, headroom }
}

/// The tone settings with the correction turned on, to the amount of the controls but at
/// least 1 percent, or off.
pub fn set_correction(on: bool, percent: Double, tone: &ToneSettings) -> (r: ToneSettings)
    ensures
        r == (ToneSettings {
            wet: if on {
                percent.quotient(100).larger(double(LEAST_WET))
            } else {
                double(0)
            },
            ..*tone
        }),
{
    ToneSettings {
        wet: if on {
            percent.over(100).max(Double { bits: LEAST_WET })
        } else {
            Double { bits: 0 }
        },
        bass: tone.bass,
        tilt: tone.tilt,
        headroom: tone.headroom,
    }
}

/// Switching the correction on and off shows: it counts as on just where it was switched
/// on.
pub proof fn law_correction_switch(on: bool, percent: Double, tone: ToneSettings)
    ensures
        ({
            let wet = if on {
                percent.quotient(100).larger(double(LEAST_WET))
            } else {
                double(0)
            };
            double(0).less(wet) == on
        }),
{
}

} // verus!
