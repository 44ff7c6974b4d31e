//! The Windows controller: what to write when a correction is applied or turned off,
//! and what to report of it.

use vstd::prelude::*;
use vstd::string::*;

use crate::double::{double, Double};
use crate::profile::{neutral_tone, AudioProfile, ToneSettings};
use crate::state::{restored, restored_tone, StoredState};
use crate::windows::devices::OutputDevice;
use crate::windows::env::{apo_present, enhancements_enabled, enhancements_on, is_apo_enabled};
use crate::windows::register::{apo_clsid_body, FxKey};
use crate::windows::ApplyOutcome;

verus! {

/// The configuration that stands where nothing has been applied yet.
pub open spec fn disabled_config() -> Seq<char> {
    "# ADtune disabled\r\n"@
}

/// The controller of the APO.
#[derive(Clone, Copy, Debug, Default, PartialEq, Eq, Structural)]
pub struct NativeApo {}

/// Whether the correction reaches its target, and what the user is told of that.
pub open spec fn status_of(
    state: Option<StoredState<String>>,
    registered: bool,
    enhancements: bool,
) -> (bool, Seq<char>) {
    match state {
        Some(s) => if s.bypassed {
            (true, "Bypassed on "@ + s.target_name@)
        } else if registered && !enhancements {
            (
                false,
                "Audio enhancements are off on "@ + s.target_name@
                    + " — turn Calibration on to fix"@,
            )
        } else if registered {
            (true, "Correcting "@ + s.target_name@)
        } else {
            (false, "Not active on "@ + s.target_name@ + " yet"@)
        },
        None => (false, "Not configured."@),
    }
}

/// The tone settings with the correction turned off.
pub open spec fn without_correction(tone: ToneSettings) -> ToneSettings {
    ToneSettings { wet: double(0), ..tone }
}

impl NativeApo {
    pub fn new() -> (r: NativeApo)
        ensures
            r == (NativeApo {  }),
    {
        NativeApo {  }
    }

    /// Whether the APO is registered in an effect slot of an endpoint. That does not
    /// mean that enhancements are on there.
    pub fn is_enabled_on(&self, key: Option<&FxKey>) -> (r: bool)
        ensures
            r == (key matches Some(k) && apo_present(k.state(), apo_clsid_body())),
    {
        is_apo_enabled(key, "7f4a1e02-9c3b-4d5a-8e21-ad7c0c0ffee1")
    }

    /// Whether enhancements are on for an endpoint; with them off no effect runs.
    pub fn enhancements_enabled_on(&self, key: Option<&FxKey>) -> (r: bool)
        ensures
            r == (key matches Some(k) ==> enhancements_on(k.state())),
    {
        enhancements_enabled(key)
    }

    /// What an apply reports of its target: it needs to be enabled where the APO is
    /// not registered or enhancements are off.
    pub fn outcome(&self, key: Option<&FxKey>) -> (r: ApplyOutcome)
        ensures
            r.needs_enable == !(key matches Some(k) && apo_present(k.state(), apo_clsid_body())
                && enhancements_on(k.state())),
    {
        ApplyOutcome {
            needs_enable: !self.is_enabled_on(key) || !self.enhancements_enabled_on(key),
        }
    }

    /// What to write when the correction is turned off: the profile and the target of
    /// the last apply, with no correction amount.
    pub fn disable(&self, state: &StoredState<String>) -> (r: (
        AudioProfile,
        OutputDevice,
        ToneSettings,
    ))
        ensures
            r.0@ == restored(state.profile@),
            r.1.id@ == state.target_id@,
            r.1.friendly_name@ == state.target_name@,
            !r.1.is_default,
            r.2 == without_correction(restored_tone(state.tone)),
    {
        let tone: ToneSettings = state.tone.to_tone();
        (
            state.profile.to_profile(),
            OutputDevice {
                id: state.target_id.clone(),
                friendly_name: state.target_name.clone(),
                is_default: false,
            },
            ToneSettings {
                wet: Double { bits: 0 },
                bass: tone.bass,
                tilt: tone.tilt,
                headroom: tone.headroom,
            },
        )
    }

    /// The configuration that stands where nothing has been applied yet.
    pub fn idle_config(&self) -> (r: String)
        ensures
            r@ == disabled_config(),
    {
        "# ADtune disabled\r\n".to_owned()
    }

    /// The profile of the last apply.
    pub fn active_profile(&self, state: Option<&StoredState<String>>) -> (r: Option<AudioProfile>)
        ensures
            r is Some <==> state is Some,
            r matches Some(p) ==> p@ == restored(state->0.profile@) && p@.valid(),
    {
        match state {
            Some(s) => Some(s.profile.to_profile()),
            None => None,
        }
    }

    /// The tone settings of the last apply, or neutral ones.
    pub fn active_tone(&self, state: Option<&StoredState<String>>) -> (r: ToneSettings)
        ensures
            r == match state {
                Some(s) => restored_tone(s.tone),
                None => neutral_tone(),
            },
    {
        match state {
            Some(s) => s.tone.to_tone(),
            None => ToneSettings::default(),
        }
    }

    /// The target of the last apply: its identifier and its name.
    pub fn saved_target(&self, state: Option<StoredState<String>>) -> (r: Option<(String, String)>)
        ensures
            r == match state {
                Some(s) => Some((s.target_id, s.target_name)),
                None => None,
            },
    {
        match state {
            Some(s) => Some((s.target_id, s.target_name)),
            None => None,
        }
    }

    /// Whether the correction reaches its target, and what the user is told. A bypass
    /// comes first; then enhancements that are off, which would silently defeat the
    /// correction; then whether the APO is there at all.
    pub fn status(
        &self,
        state: Option<&StoredState<String>>,
        registered: bool,
        enhancements: bool,
    ) -> (r: (bool, String))
        ensures
            (r.0, r.1@) == status_of(
                match state {
                    Some(s) => Some(*s),
                    None => None,
                },
                registered,
                enhancements,
            ),
    {
        match state {
            Some(s) => if s.bypassed {
                (true, "Bypassed on ".to_owned().concat(&s.target_name))
            } else if registered && !enhancements {
                (
                    false,
                    "Audio enhancements are off on ".to_owned().concat(&s.target_name).concat(
                        " — turn Calibration on to fix",
                    ),
                )
            } else if registered {
                (true, "Correcting ".to_owned().concat(&s.target_name))
            } else {
                (false, "Not active on ".to_owned().concat(&s.target_name).concat(" yet"))
            },
            None => (false, "Not configured.".to_owned()),
        }
    }
}

/// Turning the correction off leaves a state that counts as bypassed and keeps the
/// profile.
pub proof fn law_disable_bypasses(tone: ToneSettings)
    ensures
        without_correction(tone).wet.at_most(double(0)),
        without_correction(tone).bass == tone.bass,
        without_correction(tone).tilt == tone.tilt,
{
}

} // verus!
