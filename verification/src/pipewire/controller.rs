//! The controller: what it offers, what it asks of the service, and what it reports.

use vstd::prelude::*;
use vstd::string::*;

use crate::decimal::{numeral, write_number};
use crate::pipewire::ipc::{DesiredState, ServiceStatus};
use crate::pipewire::paths::{absolute, below};
use crate::pipewire::registry::{SinkInfo, SinkView, Snapshot};
use crate::pipewire::render::{virtual_sink_name, virtual_sink_prefix};
use crate::profile::{neutral_tone, AudioProfile, ToneSettings};
use crate::state::{restored, restored_tone};
use crate::text::{chars_of, holds, holds_chars, same, stands_at, stands_chars};

verus! {

/// A sink that the user can choose.
#[derive(Debug)]
pub struct OutputDevice {
    /// The number of its node, which does not outlive the session.
    pub node_id: i64,
    /// The name of its node, by which it is found again.
    pub node_name: String,
    /// What the user sees.
    pub description: String,
    /// It is the default sink.
    pub is_default: bool,
}

/// What a device holds.
pub struct OutputView {
    pub node_id: i64,
    pub node_name: Seq<char>,
    pub description: Seq<char>,
    pub is_default: bool,
}

impl View for OutputDevice {
    type V = OutputView;

    open spec fn view(&self) -> OutputView {
        OutputView {
            node_id: self.node_id,
            node_name: self.node_name@,
            description: self.description@,
            is_default: self.is_default,
        }
    }
}

/// What some devices hold.
pub open spec fn output_views(devices: Seq<OutputDevice>) -> Seq<OutputView> {
    Seq::new(devices.len(), |i: int| devices[i]@)
}

/// The device is the virtual sink.
pub open spec fn is_virtual(description: Seq<char>, node_name: Seq<char>) -> bool {
    holds(description, virtual_sink_name()) || stands_at(node_name, virtual_sink_prefix(), 0)
}

/// The device of a sink.
pub open spec fn output_of(sink: SinkView, default_sink: Option<Seq<char>>) -> OutputView {
    OutputView {
        node_id: sink.id as i64,
        node_name: sink.name,
        description: sink.description,
        is_default: default_sink == Some(sink.name),
    }
}

/// The devices to choose from: all sinks but the virtual one.
pub open spec fn outputs(sinks: Seq<SinkView>, default_sink: Option<Seq<char>>) -> Seq<OutputView>
    decreases sinks.len(),
{
    if sinks.len() == 0 {
        seq![]
    } else {
        let before = outputs(sinks.drop_last(), default_sink);
        if stands_at(sinks.last().name, virtual_sink_prefix(), 0) {
            before
        } else {
            before.push(output_of(sinks.last(), default_sink))
        }
    }
}

/// The view of an optional string.
pub open spec fn opt_text(s: Option<String>) -> Option<Seq<char>> {
    match s {
        Some(t) => Some(t@),
        None => None,
    }
}

/// What the user is told.
pub open spec fn status_text(
    available: bool,
    snap: bool,
    needs_grant: bool,
    running: bool,
    status: Option<ServiceStatus>,
) -> (bool, Seq<char>) {
    let allow =
        "Allow PipeWire in App Center → ADtune → Permissions (or: sudo snap connect adtune:pipewire)"@;
    if !available {
        (
            false,
            if snap {
                allow
            } else {
                "PipeWire is not running (or not accessible)."@
            },
        )
    } else if needs_grant {
        (false, allow)
    } else if !running {
        (false, "Calibration is off."@)
    } else {
        match status {
            Some(st) => if st.active {
                (
                    true,
                    "Active"@ + (if st.bypassed {
                        " · bypassed"@
                    } else {
                        seq![]
                    }) + " — output "@ + (match st.virtual_node_id {
                        Some(id) => numeral(id as nat),
                        None => seq![],
                    }),
                )
            } else {
                match st.error {
                    Some(e) => (false, e@),
                    None => (false, "Calibration is off."@),
                }
            },
            None => (false, "Calibration is off."@),
        }
    }
}

/// The path of the server's socket: the name of the remote, or `pipewire-0`, in the
/// runtime directory. An absolute name stands for itself.
pub open spec fn socket_of(remote: Option<Seq<u8>>, dir: Option<Seq<u8>>) -> Option<Seq<u8>> {
    let name = match remote {
        Some(r) => r,
        None => "pipewire-0".spec_bytes(),
    };
    match dir {
        Some(d) => Some(
            if absolute(name) {
                name
            } else {
                below(d, name)
            },
        ),
        None => None,
    }
}

/// The view of optional bytes.
pub open spec fn opt_bytes(v: Option<Vec<u8>>) -> Option<Seq<u8>> {
    match v {
        Some(b) => Some(b@),
        None => None,
    }
}

/// The path of the server's socket. The directory that PipeWire itself is told comes
/// before the session's runtime directory.
pub fn socket_path(
    remote: Option<Vec<u8>>,
    pipewire_dir: Option<Vec<u8>>,
    runtime_dir: Option<Vec<u8>>,
) -> (r: Option<Vec<u8>>)
    ensures
        opt_bytes(r) == socket_of(
            opt_bytes(remote),
            match pipewire_dir {
                Some(d) => Some(d@),
                None => opt_bytes(runtime_dir),
            },
        ),
{
    let name: Vec<u8> = match remote {
        Some(n) => n,
        None => {
            let mut n: Vec<u8> = Vec::new();
            crate::pipewire::paths::push_bytes(&mut n, "pipewire-0".as_bytes());
            assert(n@ =~= "pipewire-0".spec_bytes());
            n
        },
    };
    let dir: Option<Vec<u8>> = match pipewire_dir {
        Some(d) => Some(d),
        None => runtime_dir,
    };
    match dir {
        Some(mut d) => {
            if name.len() > 0 && name[0] == 0x2f {
                Some(name)
            } else {
                if d.len() > 0 && d[d.len() - 1] != 0x2f {
                    d.push(0x2f);
                }
                crate::pipewire::paths::push_bytes(&mut d, name.as_slice());
                Some(d)
            }
        },
        None => None,
    }
}

/// The controller.
#[derive(Clone, Copy, Debug, Default, PartialEq, Eq, Structural)]
pub struct PipeWire {}

impl PipeWire {
    pub fn new() -> (r: PipeWire)
        ensures
            r == (PipeWire {  }),
    {
        PipeWire {  }
    }

    /// Whether the user has to grant access: the program runs as a snap, and the
    /// socket is not there or does not answer.
    pub fn needs_permission_grant(snap: bool, available: bool, answers: bool) -> (r: bool)
        ensures
            r == (snap && (!available || !answers)),
    {
        snap && (!available || !answers)
    }

    /// The devices to choose from: all sinks but the virtual one, in the order in which
    /// they were found.
    pub fn list_outputs(&self, snapshot: &Snapshot) -> (r: Vec<OutputDevice>)
        ensures
            output_views(r@) == outputs(
                crate::pipewire::registry::sink_views(snapshot.sinks@),
                opt_text(snapshot.default_sink),
            ),
    {
        let ghost all = crate::pipewire::registry::sink_views(snapshot.sinks@);
        let ghost default_name = opt_text(snapshot.default_sink);
        let prefix: Vec<char> = chars_of("effect_input.adtune");
        let mut r: Vec<OutputDevice> = Vec::new();
        assert(output_views(r@) =~= outputs(all.take(0), default_name));
        for i in 0..snapshot.sinks.len()
            invariant
                all == crate::pipewire::registry::sink_views(snapshot.sinks@),
                default_name == opt_text(snapshot.default_sink),
                prefix@ == virtual_sink_prefix(),
                output_views(r@) == outputs(all.take(i as int), default_name),
        {
            let s: &SinkInfo = &snapshot.sinks[i];
            let ghost before = output_views(r@);
            assert(all.take(i + 1).drop_last() =~= all.take(i as int));
            assert(all.take(i + 1).last() == s@);
            if !stands_chars(&chars_of(&s.name), &prefix, 0) {
                let is_default: bool = match &snapshot.default_sink {
                    Some(d) => same(d, &s.name),
                    None => false,
                };
                r.push(
                    OutputDevice {
                        node_id: s.id as i64,
                        node_name: s.name.clone(),
                        description: s.description.clone(),
                        is_default,
                    },
                );
                assert(output_views(r@) =~= before.push(output_of(s@, default_name)));
            }
        }
        assert(all.take(all.len() as int) =~= all);
        r
    }

    /// Whether the service runs and reports an active filter.
    pub fn is_active(&self, running: bool, status: Option<&ServiceStatus>) -> (r: bool)
        ensures
            r == (running && (status matches Some(s) && s.active)),
    {
        match status {
            Some(s) => running && s.active,
            None => false,
        }
    }

    /// Whether calibration is active, and what the user is told.
    pub fn status(
        &self,
        available: bool,
        snap: bool,
        needs_grant: bool,
        running: bool,
        status: Option<&ServiceStatus>,
    ) -> (r: (bool, String))
        ensures
            (r.0, r.1@) == status_text(
                available,
                snap,
                needs_grant,
                running,
                match status {
                    Some(s) => Some(*s),
                    None => None,
                },
            ),
    {
        if !available {
            let message: &str = if snap {
                "Allow PipeWire in App Center → ADtune → Permissions (or: sudo snap connect adtune:pipewire)"
            } else {
                "PipeWire is not running (or not accessible)."
            };
            return (false, message.to_owned());
        }
        if needs_grant {
            return (
                false,
                "Allow PipeWire in App Center → ADtune → Permissions (or: sudo snap connect adtune:pipewire)".to_owned(),
            );
        }
        if !running {
            return (false, "Calibration is off.".to_owned());
        }
        match status {
            Some(st) => if st.active {
                let mut text: String = "Active".to_owned();
                let ghost mode = if st.bypassed {
                    " · bypassed"@
                } else {
                    seq![]
                };
                if st.bypassed {
                    text.append(" · bypassed");
                }
                assert(text@ =~= "Active"@ + mode);
                text.append(" — output ");
                let ghost head = text@;
                if let Some(id) = st.virtual_node_id {
                    text.append(&write_number(id as u64));
                } else {
                    assert(text@ =~= head + seq![]);
                }
                (true, text)
            } else {
                match &st.error {
                    Some(e) => (false, e.clone()),
                    None => (false, "Calibration is off.".to_owned()),
                }
            },
            None => (false, "Calibration is off.".to_owned()),
        }
    }

    /// The profile that is applied; none where calibration is off.
    pub fn active_profile(&self, desired: Option<&DesiredState>) -> (r: Option<AudioProfile>)
        ensures
            r is Some <==> (desired matches Some(d) && d.enabled),
            r matches Some(p) ==> p@ == restored(desired->0.state.profile@) && p@.valid(),
    {
        match desired {
            Some(d) => if d.enabled {
                Some(d.state.profile.to_profile())
            } else {
                None
            },
            None => None,
        }
    }

    /// The tone settings that were applied last, or neutral ones.
    pub fn active_tone(&self, desired: Option<&DesiredState>) -> (r: ToneSettings)
        ensures
            r == match desired {
                Some(d) => restored_tone(d.state.tone),
                None => neutral_tone(),
            },
    {
        match desired {
            Some(d) => d.state.tone.to_tone(),
            None => ToneSettings::default(),
        }
    }

    /// The name of the target that was applied last.
    pub fn saved_target_name(&self, desired: Option<DesiredState>) -> (r: Option<String>)
        ensures
            r == match desired {
                Some(d) => Some(d.state.target_name),
                None => None,
            },
    {
        match desired {
            Some(d) => Some(d.state.target_name),
            None => None,
        }
    }

    /// Refuses the virtual sink as a target: the filter would feed itself.
    pub fn check_target(&self, target: &OutputDevice) -> (r: Result<(), String>)
        ensures
            r is Err <==> is_virtual(target@.description, target@.node_name),
            r matches Err(e) ==> e@
                == "Choose your physical output device, not the ADtune virtual output."@,
    {
        if holds_chars(&chars_of(&target.description), &chars_of("ADtune Calibrated"))
            || stands_chars(&chars_of(&target.node_name), &chars_of("effect_input.adtune"), 0) {
            Err("Choose your physical output device, not the ADtune virtual output.".to_owned())
        } else {
            Ok(())
        }
    }

    /// The desired state that turns calibration off: the last one, one revision later.
    pub fn disable(&self, desired: DesiredState) -> (r: DesiredState)
        requires
            desired.revision < u64::MAX,
        ensures
            r == (DesiredState {
                revision: (desired.revision + 1) as u64,
                enabled: false,
                state: desired.state,
            }),
    {
        DesiredState { revision: desired.revision + 1, enabled: false, state: desired.state }
    }
}

/// How long a service has to acknowledge a revision, in nanoseconds.
pub const ACK_TIMEOUT: u64 = 12_000_000_000;

/// How long to wait between two looks at the status of the service, in nanoseconds.
pub const ACK_POLL: u64 = 5_000_000;

/// Whether the time to acknowledge is up, this many nanoseconds after the wait began.
pub fn ack_late(waited: u64) -> (r: bool)
    ensures
        r == (waited > ACK_TIMEOUT),
{
    waited > ACK_TIMEOUT
}

/// What the wait for an acknowledgement has come to, if it is over: the service has
/// reported on the revision or on a later one, or is gone, or the time is up.
pub open spec fn ack(
    revision: u64,
    status: Option<ServiceStatus>,
    running: bool,
    late: bool,
) -> Option<Result<ServiceStatus, Seq<char>>> {
    if status matches Some(st) && st.revision_applied >= revision {
        match status->0.error {
            Some(e) => Some(Err(e@)),
            None => Some(Ok(status->0)),
        }
    } else if !running {
        Some(Err("The ADtune service exited unexpectedly."@))
    } else if late {
        Some(Err("Timed out waiting for the ADtune service."@))
    } else {
        None
    }
}

/// One look at the service while its acknowledgement of a revision is waited for.
pub fn wait_ack(revision: u64, status: Option<ServiceStatus>, running: bool, late: bool) -> (r:
    Option<Result<ServiceStatus, String>>)
    ensures
        ack(revision, status, running, late) == match r {
            Some(Ok(st)) => Some(Ok(st)),
            Some(Err(e)) => Some(Err(e@)),
            None => None,
        },
{
    if let Some(st) = status {
        if st.revision_applied >= revision {
            if let Some(e) = st.error {
                return Some(Err(e));
            }
            return Some(Ok(st));
        }
    }
    if !running {
        return Some(Err("The ADtune service exited unexpectedly.".to_owned()));
    }
    if late {
        return Some(Err("Timed out waiting for the ADtune service.".to_owned()));
    }
    None
}

/// Whether the service is started through systemd, so that it outlives the program:
/// not in a sandbox, where it belongs to that, and only where systemd can do it.
pub fn detach_service(flatpak: bool, snap: bool, systemd: bool, can_run: bool) -> (r: bool)
    ensures
        r == (!flatpak && !snap && systemd && can_run),
{
    !(flatpak || snap) && systemd && can_run
}

/// How long a service has to start, in nanoseconds.
pub const START_TIMEOUT: u64 = 3_000_000_000;

/// How long to wait between two looks at a service that is being started, in nanoseconds.
pub const START_POLL: u64 = 50_000_000;

/// Whether the time to start is up, this many nanoseconds after the service was launched.
pub fn start_late(waited: u64) -> (r: bool)
    ensures
        r == (waited >= START_TIMEOUT),
{
    waited >= START_TIMEOUT
}

/// One look at a service that is being started. Once the time is up the start has failed,
/// whether or not the service runs by then; before that it has succeeded as soon as the
/// service runs.
pub fn started(running: bool, late: bool) -> (r: Option<Result<(), String>>)
    ensures
        late ==> (r matches Some(Err(e)) && e@ == "The ADtune service did not start."@),
        !late && running ==> r == Some(Ok::<(), String>(())),
        !late && !running ==> r is None,
{
    if late {
        Some(Err("The ADtune service did not start.".to_owned()))
    } else if running {
        Some(Ok(()))
    } else {
        None
    }
}

/// The virtual sink is never offered as a target.
pub proof fn law_virtual_sink_not_listed(
    sinks: Seq<SinkView>,
    default_sink: Option<Seq<char>>,
    i: int,
)
    requires
        0 <= i < outputs(sinks, default_sink).len(),
    ensures
        !stands_at(outputs(sinks, default_sink)[i].node_name, virtual_sink_prefix(), 0),
    decreases sinks.len(),
{
    if sinks.len() > 0 {
        let before = outputs(sinks.drop_last(), default_sink);
        if i < before.len() {
            law_virtual_sink_not_listed(sinks.drop_last(), default_sink, i);
        }
    }
}

/// A status of an earlier revision does not end the wait for a later one.
pub proof fn law_stale_status_is_no_ack(revision: u64, status: ServiceStatus)
    requires
        status.revision_applied < revision,
    ensures
        ack(revision, Some(status), true, false) is None,
{
}

} // verus!
