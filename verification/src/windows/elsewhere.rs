//! The same functions on other platforms, where there is no audio processing object
//! to register and no registry to read.

use vstd::prelude::*;
use vstd::string::*;

use crate::windows::devices::OutputDevice;

verus! {

/// There are no endpoints to list.
pub fn enumerate() -> (r: Result<Vec<OutputDevice>, String>)
    ensures
        r matches Err(e) && e@ == "The ADtune Windows backend is Windows-only."@,
{
    Err("The ADtune Windows backend is Windows-only.".to_owned())
}

/// There is nothing to enable.
pub fn enable_apo_on(_endpoint_id: &str) -> (r: Result<(), String>)
    ensures
        r matches Err(e) && e@ == "The ADtune APO is Windows-only."@,
{
    Err("The ADtune APO is Windows-only.".to_owned())
}

/// There is nothing to enable.
pub fn enable_default_apo() -> (r: Result<String, String>)
    ensures
        r matches Err(e) && e@ == "The ADtune APO is Windows-only."@,
{
    Err("The ADtune APO is Windows-only.".to_owned())
}

/// There is nothing to take off.
pub fn disable_apo_on(_endpoint_id: &str) -> (r: Result<(), String>)
    ensures
        r is Ok,
{
    Ok(())
}

/// There is nothing to take off.
pub fn disable_apo_everywhere() -> (r: Result<(), String>)
    ensures
        r is Ok,
{
    Ok(())
}

/// There is no helper to run.
pub fn run_elevated(_arg: &str) -> (r: Result<(), String>)
    ensures
        r matches Err(e) && e@ == "Elevation is only available on Windows."@,
{
    Err("Elevation is only available on Windows.".to_owned())
}

/// There is no engine to restart.
pub fn restart_audio_engine() -> (r: Result<(), String>)
    ensures
        r is Ok,
{
    Ok(())
}

} // verus!
