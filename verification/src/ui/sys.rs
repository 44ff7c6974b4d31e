//! Devices in the terms of the window, whatever the platform.

use vstd::prelude::*;
use vstd::string::*;

use crate::decimal::{read_i64, signed_numeral, whole_number, write_i64};
use crate::pipewire::controller::{OutputDevice as PipeWireOutput, OutputView};
use crate::text::chars_of;
use crate::windows::devices::{DeviceView as WindowsView, OutputDevice as WindowsOutput};

verus! {

/// An output device.
#[derive(Debug)]
pub struct Device {
    /// What the platform knows it by.
    pub id: String,
    /// What it is found again by.
    pub name: String,
    /// What the user sees.
    pub description: String,
    pub is_default: bool,
}

/// What a device holds.
pub struct DeviceView {
    pub id: Seq<char>,
    pub name: Seq<char>,
    pub description: Seq<char>,
    pub is_default: bool,
}

impl View for Device {
    type V = DeviceView;

    open spec fn view(&self) -> DeviceView {
        DeviceView {
            id: self.id@,
            name: self.name@,
            description: self.description@,
            is_default: self.is_default,
        }
    }
}

/// What some devices hold.
pub open spec fn device_views(devices: Seq<Device>) -> Seq<DeviceView> {
    Seq::new(devices.len(), |i: int| devices[i]@)
}

impl Clone for Device {
    fn clone(&self) -> (r: Device)
        ensures
            r@ == self@,
    {
        Device {
            id: self.id.clone(),
            name: self.name.clone(),
            description: self.description.clone(),
            is_default: self.is_default,
        }
    }
}

/// The device of a PipeWire sink.
pub open spec fn device_of_sink(o: OutputView) -> DeviceView {
    DeviceView {
        id: signed_numeral(o.node_id as int),
        name: o.node_name,
        description: o.description,
        is_default: o.is_default,
    }
}

/// The PipeWire sink of a device; its number is -1 where the device has none.
pub open spec fn sink_of_device(d: DeviceView) -> OutputView {
    OutputView {
        node_id: match whole_number(d.id) {
            Some(n) => if i64::MIN <= n <= i64::MAX {
                n as i64
            } else {
                (-1) as i64
            },
            None => (-1) as i64,
        },
        node_name: d.name,
        description: d.description,
        is_default: d.is_default,
    }
}

/// The device of a PipeWire sink.
pub fn sink_to_device(o: PipeWireOutput) -> (r: Device)
    ensures
        r@ == device_of_sink(o@),
{
    Device {
        id: write_i64(o.node_id),
        name: o.node_name,
        description: o.description,
        is_default: o.is_default,
    }
}

/// The PipeWire sink of a device; its number is -1 where the device has none.
pub fn device_to_sink(d: &Device) -> (r: PipeWireOutput)
    ensures
        r@ == sink_of_device(d@),
{
    PipeWireOutput {
        node_id: match read_i64(&chars_of(&d.id)) {
            Some(n) => n,
            None => -1,
        },
        node_name: d.name.clone(),
        description: d.description.clone(),
        is_default: d.is_default,
    }
}

/// The device of a Windows endpoint: the endpoint's identifier is also what it is found
/// again by.
pub fn endpoint_to_device(o: WindowsOutput) -> (r: Device)
    ensures
        r@ == device_of_endpoint(o@),
{
    Device {
        name: o.id.clone(),
        id: o.id,
        description: o.friendly_name,
        is_default: o.is_default,
    }
}

/// The Windows endpoint of a device.
pub fn device_to_endpoint(d: &Device) -> (r: WindowsOutput)
    ensures
        r@ == endpoint_of_device(d@),
{
    WindowsOutput {
        id: d.id.clone(),
        friendly_name: d.description.clone(),
        is_default: d.is_default,
    }
}

/// The device of a Windows endpoint.
pub open spec fn device_of_endpoint(o: WindowsView) -> DeviceView {
    DeviceView {
        id: o.id,
        name: o.id,
        description: o.friendly_name,
        is_default: o.is_default,
    }
}

/// The Windows endpoint of a device.
pub open spec fn endpoint_of_device(d: DeviceView) -> WindowsView {
    WindowsView { id: d.id, friendly_name: d.description, is_default: d.is_default }
}

/// A sink comes back from its device unchanged.
pub proof fn law_sink_comes_back(o: OutputView)
    ensures
        sink_of_device(device_of_sink(o)) == o,
{
    let n = o.node_id as int;
    let s = signed_numeral(n);
    if n < 0 {
        crate::round_trip::lemma_numeral((-n) as nat);
        assert(s.drop_first() =~= numeral_of(-n));
    } else {
        crate::round_trip::lemma_numeral(n as nat);
        let c = s[0];
        assert(crate::decimal::digit(c));
    }
}

spec fn numeral_of(n: int) -> Seq<char> {
    crate::decimal::numeral(n as nat)
}

/// An endpoint comes back from its device unchanged.
pub proof fn law_endpoint_comes_back(o: WindowsView)
    ensures
        endpoint_of_device(device_of_endpoint(o)) == o,
{
}

/// The arguments with which the elevated helper enables a device.
pub fn enable_argument(d: &Device) -> (r: String)
    ensures
        r@ == "--enable-apo "@ + d@.id,
{
    "--enable-apo ".to_owned().concat(&d.id)
}

/// The arguments with which the elevated helper disables a device.
pub fn disable_argument(d: &Device) -> (r: String)
    ensures
        r@ == "--disable-apo "@ + d@.id,
{
    "--disable-apo ".to_owned().concat(&d.id)
}

} // verus!
