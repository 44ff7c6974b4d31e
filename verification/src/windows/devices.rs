//! Playback devices.

use vstd::prelude::*;
use vstd::string::*;

use crate::text::same;

verus! {

/// A playback device.
#[derive(Debug)]
pub struct OutputDevice {
    /// The identifier of the endpoint, which outlives a change of name.
    pub id: String,
    pub friendly_name: String,
    pub is_default: bool,
}

/// What a device holds.
pub struct DeviceView {
    pub id: Seq<char>,
    pub friendly_name: Seq<char>,
    pub is_default: bool,
}

impl View for OutputDevice {
    type V = DeviceView;

    open spec fn view(&self) -> DeviceView {
        DeviceView {
            id: self.id@,
            friendly_name: self.friendly_name@,
            is_default: self.is_default,
        }
    }
}

/// What some devices hold.
pub open spec fn device_views(devices: Seq<OutputDevice>) -> Seq<DeviceView> {
    Seq::new(devices.len(), |i: int| devices[i]@)
}

/// The device of an endpoint. Without a name of its own it goes by its identifier,
/// so that it can still be chosen; it is the default where it has the identifier of
/// the default endpoint.
pub fn describe(id: String, name: Option<String>, default_id: Option<&str>) -> (r: OutputDevice)
    ensures
        r.id@ == id@,
        r.friendly_name@ == match name {
            Some(n) => if n@.len() > 0 {
                n@
            } else {
                id@
            },
            None => id@,
        },
        r.is_default == (default_id matches Some(d) && d@ == id@),
{
    let is_default: bool = match default_id {
        Some(d) => same(d, &id),
        None => false,
    };
    let friendly_name: String = match name {
        Some(n) => if n.as_str().is_empty() {
            id.clone()
        } else {
            n
        },
        None => id.clone(),
    };
    OutputDevice { id, friendly_name, is_default }
}

} // verus!
