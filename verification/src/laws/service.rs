//! The service: what it does about a desired state, and what it says of itself.

use vstd::prelude::*;

use crate::double::{double, lemma_order};
use crate::pipewire::controller::{ack, status_text};
use crate::pipewire::ipc::{DesiredState, ServiceStatus};
use crate::pipewire::service::{awaited, plan_of, queued, reload_needed, status_of, Daemon, Plan};
use crate::pipewire::registry::name_object;
use crate::profile::lemma_bounds;
use crate::state::StoredState;

verus! {

/// The graph has to be built anew exactly where the target is another one, the number of bands
/// is another one, or some band has another type, frequency or quality factor. Gains, the preamp
/// and the tone make no difference.
pub proof fn law_what_takes_a_new_graph(a: StoredState<i64>, b: StoredState<i64>)
    requires
        forall|i: int|
            0 <= i < a.profile@.bands.len() ==> (#[trigger] a.profile@.bands[i]).frequency.finite()
                && a.profile@.bands[i].q.finite(),
        forall|i: int|
            0 <= i < b.profile@.bands.len() ==> (#[trigger] b.profile@.bands[i]).frequency.finite()
                && b.profile@.bands[i].q.finite(),
    ensures
        !reload_needed(a, b) <==> a.target_name@ == b.target_name@ && a.profile@.bands.len()
            == b.profile@.bands.len() && forall|i: int|
            0 <= i < a.profile@.bands.len() ==> {
                &&& (#[trigger] a.profile@.bands[i]).kind == b.profile@.bands[i].kind
                &&& a.profile@.bands[i].frequency.value() == b.profile@.bands[i].frequency.value()
                &&& a.profile@.bands[i].q.value() == b.profile@.bands[i].q.value()
            },
{
    let x = a.profile@.bands;
    let y = b.profile@.bands;
    if x.len() == y.len() {
        assert forall|i: int| 0 <= i < x.len() implies {
            &&& (#[trigger] x[i]).frequency.equals(y[i].frequency) <==> x[i].frequency.value()
                == y[i].frequency.value()
            &&& x[i].q.equals(y[i].q) <==> x[i].q.value() == y[i].q.value()
        } by {
            assert(y[i].frequency.finite());
            lemma_order(x[i].frequency, y[i].frequency);
            lemma_order(y[i].frequency, x[i].frequency);
            lemma_order(x[i].q, y[i].q);
            lemma_order(y[i].q, x[i].q);
        }
    }
}

/// What the service does about a desired state: nothing where it has applied that revision; it
/// takes the filter away where calibration is off; and it turns calibration on otherwise, on the
/// running graph where there is one for it, and else on a new one.
pub proof fn law_plan(d: Daemon, desired: DesiredState)
    ensures
        d.applied matches Some(a) && a.revision == desired.revision ==> plan_of(d, desired)
            == Plan::Current,
        (d.applied matches Some(a) ==> a.revision != desired.revision) ==> {
            &&& !desired.enabled ==> plan_of(d, desired) == Plan::TearDown
            &&& desired.enabled && (!d.loaded || d.virtual_node is None || d.applied is None)
                ==> plan_of(d, desired) == Plan::Reload
            &&& desired.enabled && d.loaded && d.virtual_node is Some && (d.applied matches Some(a)
                && a.enabled && !reload_needed(a.state, desired.state)) ==> plan_of(d, desired)
                == Plan::Live
            &&& desired.enabled && (d.applied matches Some(a) && (!a.enabled || reload_needed(
                a.state,
                desired.state,
            ))) ==> plan_of(d, desired) == Plan::Reload
        },
{
}

/// The service is active where the filter is loaded and its sink is there, and only then; it
/// says that it is bypassed where what it has applied has no correction amount.
pub proof fn law_status(d: Daemon, error: Option<String>, pid: u32)
    ensures
        status_of(d, error, pid).active <==> d.loaded && d.virtual_node is Some,
        status_of(d, error, pid).virtual_node_id == d.virtual_node,
        status_of(d, error, pid).revision_applied == d.applying_revision,
        status_of(d, error, pid).error == error,
        status_of(d, error, pid).pid == pid,
        d.applied is None ==> !status_of(d, error, pid).bypassed,
        (d.applied matches Some(a) && a.state.tone.wet.finite()) ==> (status_of(
            d,
            error,
            pid,
        ).bypassed <==> d.applied->0.state.tone.wet.value() <= 0),
{
    if d.applied is Some && d.applied->0.state.tone.wet.finite() {
        lemma_bounds();
        lemma_order(d.applied->0.state.tone.wet, double(0));
    }
}

/// Whoever waits for a revision gets the status of that or a later one, or the error that the
/// service reported for it, word by word; a service that is gone, and one that takes too long,
/// are errors of their own.
pub proof fn law_wait(revision: u64, status: ServiceStatus, running: bool, late: bool)
    ensures
        status.revision_applied >= revision && status.error is None ==> ack(
            revision,
            Some(status),
            running,
            late,
        ) == Some(Ok::<ServiceStatus, Seq<char>>(status)),
        status.revision_applied >= revision ==> (status.error matches Some(e) ==> ack(
            revision,
            Some(status),
            running,
            late,
        ) == Some(Err::<ServiceStatus, Seq<char>>(e@))),
        status.revision_applied < revision && running && !late ==> ack(
            revision,
            Some(status),
            running,
            late,
        ) is None,
        status.revision_applied < revision && (!running || late) ==> (ack(
            revision,
            Some(status),
            running,
            late,
        ) matches Some(Err(_))),
        ack(revision, None, true, false) is None,
        ack(revision, None, false, late) matches Some(Err(_)),
{
}

/// Calibration shows as on exactly where the server can be reached, the service runs, and its
/// status says that it is active; an error of the service is shown word by word.
pub proof fn law_shown_as_active(
    available: bool,
    snap: bool,
    needs_grant: bool,
    running: bool,
    status: Option<ServiceStatus>,
)
    ensures
        status_text(available, snap, needs_grant, running, status).0 <==> available && !needs_grant
            && running && (status matches Some(st) && st.active),
        available && !needs_grant && running && (status matches Some(st) && !st.active && st.error
            is Some) ==> status_text(available, snap, needs_grant, running, status).1
            == status->0.error->0@,
{
}

/// A request for a default sink is written at once where it can be, and is kept for later where
/// it cannot; never both.
pub proof fn law_requests_are_not_lost(
    d: Daemon,
    name: Seq<char>,
    queue: Option<String>,
    write: Option<String>,
)
    requires
        queued(d, name, queue, write),
    ensures
        d.has_metadata ==> queue is None && write is Some && write->0@ == name_object(name),
        !d.has_metadata ==> write is None && queue is Some && queue->0@ == name,
{
}

/// Only the virtual sink is taken up, and only while one is waited for.
pub proof fn law_awaited_sink(d: Daemon, class: Option<&str>, name: Seq<char>)
    ensures
        awaited(d, class, name) <==> d.awaiting_sink_since is Some && class is Some && class->0@
            == "Audio/Sink"@ && exists|rest: Seq<char>|
            name == #[trigger] ("effect_input.adtune"@ + rest),
{
    let p = "effect_input.adtune"@;
    if crate::text::stands_at(name, p, 0) {
        let rest = name.skip(p.len() as int);
        assert(name =~= p + rest);
    }
    if exists|rest: Seq<char>| name == #[trigger] (p + rest) {
        let rest = choose|rest: Seq<char>| name == #[trigger] (p + rest);
        assert(name.subrange(0, p.len() as int) =~= p);
    }
}

} // verus!
