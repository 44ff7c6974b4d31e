//! How the object answers the engine: what becomes of a buffer, which interfaces it
//! has, and what it says of itself.

use vstd::prelude::*;
use vstd::string::*;

use crate::text::chars_of;
use crate::windows::setup::{engine_number, engine_plan, engine_text};

verus! {

/// The buffer holds samples.
pub const BUFFER_VALID: u32 = 1;

/// The buffer stands for silence.
pub const BUFFER_SILENT: u32 = 2;

/// A connection when a buffer is processed.
#[derive(Clone, Copy, Debug, PartialEq, Eq, Structural)]
pub struct Buffer {
    /// The address of the samples; 0 where there are none.
    pub address: usize,
    pub valid_frames: u32,
    pub flags: u32,
}

/// What to do with the samples.
#[derive(Clone, Copy, Debug, PartialEq, Eq, Structural)]
pub enum Work {
    /// Nothing.
    Skip,
    /// Write this many zeros to the output.
    Silence(usize),
    /// Filter this many samples of the output in place, once they have been copied
    /// there where the input lies elsewhere.
    Filter { copy: bool, samples: usize },
}

/// What becomes of a buffer: the frame count and the flags of the output, and what to
/// do with the samples.
#[derive(Clone, Copy, Debug, PartialEq, Eq, Structural)]
pub struct Step {
    pub valid_frames: u32,
    pub flags: u32,
    pub work: Work,
}

/// What becomes of a buffer. The output takes over the count and the flags of the
/// input; a count that is too large for memory becomes zero. Silence stays silence, and
/// only samples that count are filtered.
pub open spec fn processed(
    inputs: u32,
    outputs: u32,
    input: Option<Buffer>,
    output: Option<Buffer>,
    channels: u32,
) -> Option<Step> {
    if inputs != 1 || outputs != 1 {
        None
    } else {
        match (input, output) {
            (Some(i), Some(o)) => {
                let samples = i.valid_frames * channels;
                let step = Step { valid_frames: i.valid_frames, flags: i.flags, work: Work::Skip };
                if samples > usize::MAX {
                    Some(Step { valid_frames: 0, ..step })
                } else if samples == 0 || i.address == 0 || o.address == 0 {
                    Some(step)
                } else if i.flags == BUFFER_SILENT && i.address != o.address {
                    Some(Step { work: Work::Silence(samples as usize), ..step })
                } else if i.flags != BUFFER_VALID {
                    Some(step)
                } else {
                    Some(
                        Step {
                            work: Work::Filter {
                                copy: i.address != o.address,
                                samples: samples as usize,
                            },
                            ..step
                        },
                    )
                }
            },
            _ => None,
        }
    }
}

/// What becomes of a buffer; nothing where there is not one input and one output.
pub fn process(
    inputs: u32,
    outputs: u32,
    input: Option<Buffer>,
    output: Option<Buffer>,
    channels: u32,
) -> (r: Option<Step>)
    ensures
        r == processed(inputs, outputs, input, output, channels),
{
    if inputs != 1 || outputs != 1 {
        return None;
    }
    match (input, output) {
        (Some(i), Some(o)) => {
            let frames: u64 = i.valid_frames as u64;
            let wide: u64 = channels as u64;
            assert(frames * wide <= 0xffff_ffff * 0xffff_ffff) by (nonlinear_arith)
                requires
                    0 <= frames <= 0xffff_ffffu64,
                    0 <= wide <= 0xffff_ffffu64,
            ;
            let samples: u64 = frames * wide;
            let step: Step = Step {
                valid_frames: i.valid_frames,
                flags: i.flags,
                work: Work::Skip,
            };
            if samples > usize::MAX as u64 {
                return Some(Step { valid_frames: 0, flags: i.flags, work: Work::Skip });
            }
            if samples == 0 || i.address == 0 || o.address == 0 {
                return Some(step);
            }
            let apart: bool = i.address != o.address;
            if i.flags != BUFFER_VALID {
                if i.flags == BUFFER_SILENT && apart {
                    return Some(
                        Step {
                            valid_frames: i.valid_frames,
                            flags: i.flags,
                            work: Work::Silence(samples as usize),
                        },
                    );
                }
                return Some(step);
            }
            Some(
                Step {
                    valid_frames: i.valid_frames,
                    flags: i.flags,
                    work: Work::Filter { copy: apart, samples: samples as usize },
                },
            )
        },
        _ => None,
    }
}

/// The interfaces that an engine may ask the object for.
#[derive(Clone, Copy, Debug, PartialEq, Eq, Structural)]
pub enum Interface {
    Unknown,
    Processing,
    Configuration,
    Realtime,
    Effects,
    Effects2,
    Effects3,
    Notifications,
    PreferredFormat,
    Other,
}

/// How the object answers a request for an interface.
#[derive(Clone, Copy, Debug, PartialEq, Eq, Structural)]
pub enum Answer {
    /// With itself, counting a reference of its own.
    Itself,
    /// With the slot of the interface, counting a reference of the object that it is
    /// part of, where it is part of one, and of its own otherwise.
    Slot { counts_outer: bool },
    /// Not at all.
    Missing,
}

/// How the object answers a request for an interface. The newer interfaces are there
/// only where they are advertised.
pub open spec fn answer(asked: Interface, modern: bool, aggregated: bool) -> Answer {
    match asked {
        Interface::Unknown => Answer::Itself,
        Interface::Processing | Interface::Configuration | Interface::Realtime
        | Interface::Effects => Answer::Slot { counts_outer: aggregated },
        Interface::Effects2 | Interface::Effects3 | Interface::Notifications
        | Interface::PreferredFormat => if modern {
            Answer::Slot { counts_outer: aggregated }
        } else {
            Answer::Missing
        },
        Interface::Other => Answer::Missing,
    }
}

/// How the object answers a request for an interface.
pub fn query_interface(asked: Interface, modern: bool, aggregated: bool) -> (r: Answer)
    ensures
        r == answer(asked, modern, aggregated),
{
    match asked {
        Interface::Unknown => Answer::Itself,
        Interface::Processing => Answer::Slot { counts_outer: aggregated },
        Interface::Configuration => Answer::Slot { counts_outer: aggregated },
        Interface::Realtime => Answer::Slot { counts_outer: aggregated },
        Interface::Effects => Answer::Slot { counts_outer: aggregated },
        Interface::Other => Answer::Missing,
        _ => if modern {
            Answer::Slot { counts_outer: aggregated }
        } else {
            Answer::Missing
        },
    }
}

/// Whether an object can be created as part of another one, or on its own, and be
/// handed out by an interface: a part is handed out as itself alone.
pub fn can_create(aggregated: bool, asked: Interface, modern: bool) -> (r: bool)
    ensures
        r == (if aggregated {
            asked == Interface::Unknown
        } else {
            answer(asked, modern, false) != Answer::Missing
        }),
{
    if aggregated {
        asked == Interface::Unknown
    } else {
        query_interface(asked, modern, false) != Answer::Missing
    }
}

/// Whether the library can be unloaded: no object is alive and nobody holds it.
pub fn can_unload(objects: u32, locks: u32) -> (r: bool)
    ensures
        r == (objects == 0 && locks == 0),
{
    objects == 0 && locks == 0
}

/// What the object says of itself.
pub struct Registration {
    pub flags: u32,
    pub friendly_name: String,
    pub copyright: String,
    pub major_version: u32,
    pub minor_version: u32,
    pub min_inputs: u32,
    pub max_inputs: u32,
    pub min_outputs: u32,
    pub max_outputs: u32,
    pub max_instances: u32,
    /// How many interfaces it declares: the functional one, and two newer ones where
    /// those are advertised.
    pub interfaces: u32,
}

/// What the object says of itself.
pub fn registration(modern: bool) -> (r: Registration)
    ensures
        r.flags == 0xd,
        r.friendly_name@ == "ADtune APO"@,
        r.copyright@ == "Copyright (c) 2026 Antonio DEDEJ"@,
        r.major_version == 1,
        r.minor_version == 0,
        r.min_inputs == 1,
        r.max_inputs == 1,
        r.min_outputs == 1,
        r.max_outputs == 1,
        r.max_instances == u32::MAX,
        r.interfaces == if modern {
            3u32
        } else {
            1u32
        },
        !modern ==> agrees(r),
{
    let r: Registration = Registration {
        flags: 0xd,
        friendly_name: "ADtune APO".to_owned(),
        copyright: "Copyright (c) 2026 Antonio DEDEJ".to_owned(),
        major_version: 1,
        minor_version: 0,
        min_inputs: 1,
        max_inputs: 1,
        min_outputs: 1,
        max_outputs: 1,
        max_instances: u32::MAX,
        interfaces: if modern {
            3
        } else {
            1
        },
    };
    proof {
        let p = engine_plan();
        assert(p[1] == engine_text("FriendlyName"@, r.friendly_name@, "Failed to set FriendlyName"@));
        assert(p[5] == engine_number("Flags"@, r.flags, "Failed to set Flags"@));
        if !modern {
            assert(p[6] == engine_number(
                "NumAPOInterfaces"@,
                r.interfaces,
                "Failed to set NumAPOInterfaces"@,
            ));
        }
        assert(p[14] == engine_number(
            "MaxInstances"@,
            r.max_instances,
            "Failed to set MaxInstances"@,
        ));
    }
    r
}

/// What the object says of itself is what is registered of it.
pub open spec fn agrees(r: Registration) -> bool {
    let p = engine_plan();
    &&& p.contains(engine_text("FriendlyName"@, r.friendly_name@, "Failed to set FriendlyName"@))
    &&& p.contains(engine_number("Flags"@, r.flags, "Failed to set Flags"@))
    &&& p.contains(
        engine_number("NumAPOInterfaces"@, r.interfaces, "Failed to set NumAPOInterfaces"@),
    )
    &&& p.contains(engine_number("MaxInstances"@, r.max_instances, "Failed to set MaxInstances"@))
}

/// The UTF-16 units of a character.
pub open spec fn utf16_char(c: char) -> Seq<u16> {
    let n = c as u32;
    if n < 0x10000 {
        seq![n as u16]
    } else {
        seq![
            (0xd800 + (n - 0x10000) / 0x400) as u16,
            (0xdc00 + (n - 0x10000) % 0x400) as u16,
        ]
    }
}

/// The UTF-16 units of a text.
pub open spec fn utf16(s: Seq<char>) -> Seq<u16>
    decreases s.len(),
{
    if s.len() == 0 {
        seq![]
    } else {
        utf16(s.drop_last()) + utf16_char(s.last())
    }
}

pub(crate) fn encode(s: &str) -> (r: Vec<u16>)
    ensures
        r@ == utf16(s@),
{
    let v: Vec<char> = chars_of(s);
    let mut r: Vec<u16> = Vec::new();
    assert(r@ =~= utf16(v@.take(0)));
    for i in 0..v.len()
        invariant
            r@ == utf16(v@.take(i as int)),
    {
        let n: u32 = v[i] as u32;
        let ghost before = r@;
        if n < 0x10000 {
            r.push(n as u16);
        } else {
            r.push((0xd800 + (n - 0x10000) / 0x400) as u16);
            r.push((0xdc00 + (n - 0x10000) % 0x400) as u16);
        }
        assert(v@.take(i + 1).drop_last() =~= v@.take(i as int));
        assert(r@ =~= before + utf16_char(v@[i as int]));
    }
    assert(v@.take(v@.len() as int) =~= v@);
    r
}

/// Writes a text into a field of fixed size, as far as it fits, with a zero after it.
/// What lies behind that stays as it is.
pub fn write_wstr(destination: &mut Vec<u16>, value: &str)
    requires
        old(destination)@.len() > 0,
    ensures
        ({
            let units = utf16(value@);
            let n = if units.len() < old(destination)@.len() {
                units.len() as int
            } else {
                old(destination)@.len() - 1
            };
            final(destination)@ == units.take(n).push(0) + old(destination)@.skip(n + 1)
        }),
{
    let units: Vec<u16> = encode(value);
    let room: usize = destination.len();
    let n: usize = if units.len() < room { units.len() } else { room - 1 };
    let ghost before = destination@;
    for i in 0..n
        invariant
            n <= units@.len(),
            n < room == destination@.len(),
            destination@.len() == before.len(),
            forall|j: int| 0 <= j < i ==> destination@[j] == units@[j],
            forall|j: int| i <= j < room ==> destination@[j] == before[j],
    {
        destination.set(i, units[i]);
    }
    destination.set(n, 0);
    assert(destination@ =~= units@.take(n as int).push(0) + before.skip(n + 1));
}

} // verus!
