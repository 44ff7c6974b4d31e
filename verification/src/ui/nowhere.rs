//! The calls of the window on a platform without a backend.

use vstd::prelude::*;
use vstd::string::*;

use crate::profile::{neutral_tone, AudioProfile, ToneSettings};
use crate::ui::sys::Device;

verus! {

/// What the user is told there.
pub open spec fn no_backend() -> Seq<char> {
    "No audio backend for this OS yet."@
}

/// Nothing is active.
pub fn status() -> (r: (bool, String))
    ensures
        !r.0,
        r.1@ == no_backend(),
{
    (false, "No audio backend for this OS yet.".to_owned())
}

/// There is nothing to grant.
pub fn needs_permission_grant() -> (r: bool)
    ensures
        !r,
{
    false
}

/// There are no devices.
pub fn list_outputs() -> (r: Vec<Device>)
    ensures
        r@.len() == 0,
{
    Vec::new()
}

/// No profile is active.
pub fn active_profile() -> (r: Option<AudioProfile>)
    ensures
        r is None,
{
    None
}

/// The tone settings are neutral.
pub fn active_tone() -> (r: ToneSettings)
    ensures
        r == neutral_tone(),
{
    ToneSettings::default()
}

/// There is no target.
pub fn saved_target_name() -> (r: Option<String>)
    ensures
        r is None,
{
    None
}

/// Nothing can be applied.
pub fn apply(_profile: &AudioProfile, _device: &Device, _tone: &ToneSettings) -> (r: Result<
    (),
    String,
>)
    ensures
        r matches Err(e) && e@ == no_backend(),
{
    Err("No audio backend for this OS yet.".to_owned())
}

/// Nothing is running.
pub fn update_live(_profile: &AudioProfile, _device: &Device, _tone: &ToneSettings) -> (r: Result<
    bool,
    String,
>)
    ensures
        r == Ok::<bool, String>(false),
{
    Ok(false)
}

/// Nothing can be enabled.
pub fn enable(_profile: &AudioProfile, _device: &Device, _tone: &ToneSettings) -> (r: Result<
    (),
    String,
>)
    ensures
        r matches Err(e) && e@ == no_backend(),
{
    Err("No audio backend for this OS yet.".to_owned())
}

/// Nothing can be disabled.
pub fn disable_device(_device: &Device) -> (r: Result<(), String>)
    ensures
        r matches Err(e) && e@ == no_backend(),
{
    Err("No audio backend for this OS yet.".to_owned())
}

} // verus!
