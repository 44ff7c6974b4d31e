//! What the controller and the service tell each other, each in a file that only it
//! writes.

use vstd::prelude::*;
use vstd::string::*;

use crate::profile::{AudioProfile, ToneSettings};
use crate::state::{stored, stored_tone, StoredState};

verus! {

/// The most bytes of a state file that are read.
pub const MAX_LEN: u64 = 8_388_608;

/// What calibration should be.
#[derive(Debug)]
pub struct DesiredState {
    /// Increases with every write, so that the service can say what it applied.
    pub revision: u64,
    /// Calibration is on.
    pub enabled: bool,
    pub state: StoredState<i64>,
}

/// What calibration is.
#[derive(Debug)]
pub struct ServiceStatus {
    /// The revision that this reflects.
    pub revision_applied: u64,
    /// The filter is loaded and its virtual sink is there.
    pub active: bool,
    /// The node of the virtual sink.
    pub virtual_node_id: Option<u32>,
    /// Why the last attempt failed.
    pub error: Option<String>,
    /// The process of the service.
    pub pid: u32,
    /// The correction amount is zero.
    pub bypassed: bool,
}

impl Default for ServiceStatus {
    fn default() -> (r: ServiceStatus)
        ensures
            r == (ServiceStatus {
                revision_applied: 0,
                active: false,
                virtual_node_id: None,
                error: None,
                pid: 0,
                bypassed: false,
            }),
    {
        ServiceStatus {
            revision_applied: 0,
            active: false,
            virtual_node_id: None,
            error: None,
            pid: 0,
            bypassed: false,
        }
    }
}

/// The next desired state: one revision after the last one, or the first.
pub fn next_desired(
    last: Option<u64>,
    enabled: bool,
    profile: &AudioProfile,
    target_id: i64,
    target_name: &str,
    tone: &ToneSettings,
) -> (r: DesiredState)
    requires
        last matches Some(n) ==> n < u64::MAX,
    ensures
        r.revision == match last {
            Some(n) => n + 1,
            None => 1,
        },
        r.enabled == enabled,
        r.state.profile@ == stored(profile@),
        r.state.target_id == target_id,
        r.state.target_name@ == target_name@,
        r.state.tone == stored_tone(*tone),
        r.state.bypassed == tone.wet.at_most(crate::double::double(0)),
{
    let revision: u64 = match last {
        Some(n) => n + 1,
        None => 1,
    };
    DesiredState {
        revision,
        enabled,
        state: StoredState::new(profile, target_id, target_name, tone),
    }
}

} // verus!
