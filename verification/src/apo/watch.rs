//! When the object reads its configuration again.

use vstd::prelude::*;

verus! {

/// How long to wait for a change in the directory of the configuration before the object
/// looks whether it is to stop, in milliseconds.
pub const CHANGE_WAIT_MS: u32 = 250;

/// How long to wait between two looks at the configuration where changes in its directory
/// are not notified, in milliseconds.
pub const CHANGE_POLL_MS: u64 = 150;

/// The most bytes of a configuration that are read.
pub const MAX_CONFIG_BYTES: u64 = 1_048_576;

/// Whether the configuration is read again: it was written at another time than when it was
/// last looked at, or is there now and was not then, or the other way about. `last` becomes
/// the time of this look.
pub fn config_changed(last: &mut Option<i128>, now: Option<i128>) -> (reload: bool)
    ensures
        reload == (now != *old(last)),
        *final(last) == now,
{
    let same: bool = match (*last, now) {
        (Some(a), Some(b)) => a == b,
        (None, None) => true,
        _ => false,
    };
    *last = now;
    !same
}

} // verus!
