//! The service that holds the filter: how it follows the desired state.
//!
//! The service reacts to events: sinks and metadata that come and go, ticks of a
//! timer, and what became of its own actions. Each reaction is a function here; to
//! carry the actions out and to hand back the events is left to the event loop.

use vstd::prelude::*;
use vstd::string::*;

use crate::double::{double, Double};
use crate::pipewire::ipc::{DesiredState, ServiceStatus};
use crate::pipewire::registry::{default_sink_value, name_object};
use crate::pipewire::render::virtual_sink_prefix;
use crate::profile::{sane, ProfileView};
use crate::state::{capped, restored, usable, StoredBand, StoredBandView, StoredState};
use crate::text::{chars_of, same, stands_at, stands_chars};

verus! {

/// How long a filter has to publish its sink, in nanoseconds.
pub const SINK_TIMEOUT: u64 = 8_000_000_000;

/// How long after a failure it is tried again, in nanoseconds.
pub const RETRY_AFTER: u64 = 10_000_000_000;

/// How long the service tries to connect, in nanoseconds: at login the server may not be
/// there yet.
pub const CONNECT_TIMEOUT: u64 = 60_000_000_000;

/// How long after a failed attempt to connect the next one is made, in nanoseconds.
pub const CONNECT_RETRY: u64 = 2_000_000_000;

/// How long to wait before the next attempt to connect, where the last one failed this many
/// nanoseconds after the first one began; none where there is to be no other.
pub fn connect_again(waited: u64) -> (r: Option<u64>)
    ensures
        r == if waited < CONNECT_TIMEOUT {
            Some(CONNECT_RETRY)
        } else {
            None
        },
{
    if waited < CONNECT_TIMEOUT {
        Some(CONNECT_RETRY)
    } else {
        None
    }
}

/// Whether the service stops: it was asked to, or it runs from a snap whose directory is
/// gone. `snap` is none outside a snap, and otherwise says whether that directory exists.
pub fn stops(asked: bool, snap: Option<bool>) -> (r: bool)
    ensures
        r == (asked || snap == Some(false)),
{
    match snap {
        Some(exists) => asked || !exists,
        None => asked,
    }
}

/// The time between two ticks, in nanoseconds: more where changes of the desired state are
/// notified, fewer where the ticks have to find them.
pub fn tick_every(notified: bool) -> (r: u64)
    ensures
        r == if notified {
            250_000_000u64
        } else {
            100_000_000u64
        },
{
    if notified {
        250_000_000
    } else {
        100_000_000
    }
}

/// What the service knows.
pub struct Daemon {
    /// The metadata object that holds the choice of devices has been seen.
    pub has_metadata: bool,
    /// The filter is loaded.
    pub loaded: bool,
    /// The node of the virtual sink.
    pub virtual_node: Option<u32>,
    /// Since when the sink of a new filter is waited for.
    pub awaiting_sink_since: Option<u64>,
    /// The default sink that could not be set yet.
    pub pending_default: Option<String>,
    /// The desired state that was applied last.
    pub applied: Option<DesiredState>,
    /// When the file of the desired state was last seen to be written.
    pub desired_mtime: Option<i128>,
    /// The revision that is being applied.
    pub applying_revision: u64,
    /// When to try again what failed.
    pub retry_at: Option<u64>,
}

/// What a tick asks for.
pub enum Tick {
    /// Nothing.
    Wait,
    /// The sink did not appear: unload the filter and publish this status.
    GiveUp(ServiceStatus),
    /// Read the desired state.
    Read,
}

/// What a desired state asks for.
#[derive(Clone, Copy, Debug, PartialEq, Eq, Structural)]
pub enum Plan {
    /// Nothing: it is applied already.
    Current,
    /// Unload the filter and hand the default back to the target.
    TearDown,
    /// Set the gains of the running filter; a new filter where that fails.
    Live,
    /// Load a new filter.
    Reload,
}

/// The bands have the same types, frequencies and quality factors.
pub open spec fn same_shape(a: Seq<StoredBandView>, b: Seq<StoredBandView>) -> bool {
    a.len() == b.len() && forall|i: int|
        0 <= i < a.len() ==> {
            &&& (#[trigger] a[i]).kind == b[i].kind
            &&& a[i].frequency.equals(b[i].frequency)
            &&& a[i].q.equals(b[i].q)
        }
}

/// A new filter is needed: the target or the shape of the bands has changed.
pub open spec fn reload_needed(a: StoredState<i64>, b: StoredState<i64>) -> bool {
    a.target_name@ != b.target_name@ || !same_shape(a.profile@.bands, b.profile@.bands)
}

/// Whether a new filter is needed to get from one state to another. Gains, and with
/// them all tone settings, can be set on a running filter; the target, the number of
/// bands, and their types, frequencies and quality factors cannot.
pub fn needs_reload(applied: &DesiredState, desired: &DesiredState) -> (r: bool)
    ensures
        r == reload_needed(applied.state, desired.state),
{
    let a: &StoredState<i64> = &applied.state;
    let d: &StoredState<i64> = &desired.state;
    if !same(&a.target_name, &d.target_name) || a.profile.bands.len() != d.profile.bands.len() {
        return true;
    }
    let ghost x = a.profile@.bands;
    let ghost y = d.profile@.bands;
    for i in 0..a.profile.bands.len()
        invariant
            a == &applied.state,
            d == &desired.state,
            x == a.profile@.bands,
            y == d.profile@.bands,
            x.len() == y.len(),
            forall|j: int|
                0 <= j < i ==> {
                    &&& (#[trigger] x[j]).kind == y[j].kind
                    &&& x[j].frequency.equals(y[j].frequency)
                    &&& x[j].q.equals(y[j].q)
                },
    {
        let p: &StoredBand = &a.profile.bands[i];
        let q: &StoredBand = &d.profile.bands[i];
        if !same(&p.kind, &q.kind) || !p.frequency.same(&q.frequency) || !p.q.same(&q.q) {
            assert(x[i as int] == p@ && y[i as int] == q@);
            assert(!same_shape(x, y));
            return true;
        }
        assert(x[i as int] == p@ && y[i as int] == q@);
    }
    false
}

/// The bands of a profile have the same types, frequencies and quality factors as
/// those of another.
pub open spec fn same_graph(a: ProfileView, b: ProfileView) -> bool {
    a.bands.len() == b.bands.len() && forall|i: int|
        0 <= i < a.bands.len() ==> {
            &&& (#[trigger] a.bands[i]).kind == b.bands[i].kind
            &&& a.bands[i].frequency == b.bands[i].frequency
            &&& a.bands[i].q == b.bands[i].q
        }
}

proof fn lemma_equal_sane(a: Double, b: Double, fallback: u64, low: u64, high: u64)
    requires
        a.equals(b),
        double(low).finite(),
        double(high).finite(),
        double(low).rank() > 0,
        double(low).at_most(double(high)),
    ensures
        sane(a, fallback, low, high) == sane(b, fallback, low, high),
{
}

proof fn lemma_same_usable(a: Seq<StoredBandView>, b: Seq<StoredBandView>)
    requires
        same_shape(a, b),
    ensures
        ({
            let x = usable(a);
            let y = usable(b);
            x.len() == y.len() && forall|i: int|
                0 <= i < x.len() ==> {
                    &&& (#[trigger] x[i]).kind == y[i].kind
                    &&& x[i].frequency == y[i].frequency
                    &&& x[i].q == y[i].q
                }
        }),
    decreases a.len(),
{
    if a.len() > 0 {
        let p = a.drop_last();
        let q = b.drop_last();
        assert forall|i: int| 0 <= i < p.len() implies {
            &&& (#[trigger] p[i]).kind == q[i].kind
            &&& p[i].frequency.equals(q[i].frequency)
            &&& p[i].q.equals(q[i].q)
        } by {
            assert(a[i].kind == b[i].kind);
        }
        lemma_same_usable(p, q);
        let s = a[a.len() - 1];
        let t = b[b.len() - 1];
        assert(s.kind == t.kind);
        lemma_equal_sane(
            s.frequency,
            t.frequency,
            crate::profile::THOUSAND,
            crate::profile::TWENTY,
            crate::profile::TWENTY_THOUSAND,
        );
        lemma_equal_sane(
            s.q,
            t.q,
            crate::profile::ONE,
            crate::profile::Q_MIN,
            crate::profile::TWENTY,
        );
        let x = usable(a);
        let y = usable(b);
        assert forall|i: int| 0 <= i < x.len() implies {
            &&& (#[trigger] x[i]).kind == y[i].kind
            &&& x[i].frequency == y[i].frequency
            &&& x[i].q == y[i].q
        } by {
            if i < usable(p).len() {
                assert(x[i] == usable(p)[i]);
                assert(y[i] == usable(q)[i]);
            }
        }
    }
}

/// Where no new filter is needed, the graph of the new state differs from the running
/// one in its gains alone.
pub proof fn law_live_keeps_graph(a: StoredState<i64>, b: StoredState<i64>)
    requires
        !reload_needed(a, b),
    ensures
        a.target_name@ == b.target_name@,
        same_graph(restored(a.profile@), restored(b.profile@)),
{
    let x = capped(a.profile@.bands);
    let y = capped(b.profile@.bands);
    assert forall|i: int| 0 <= i < x.len() implies {
        &&& (#[trigger] x[i]).kind == y[i].kind
        &&& x[i].frequency.equals(y[i].frequency)
        &&& x[i].q.equals(y[i].q)
    } by {
        assert(a.profile@.bands[i].kind == b.profile@.bands[i].kind);
    }
    lemma_same_usable(x, y);
}

/// The status that the service reports.
pub open spec fn status_of(d: Daemon, error: Option<String>, pid: u32) -> ServiceStatus {
    ServiceStatus {
        revision_applied: d.applying_revision,
        active: d.loaded && d.virtual_node is Some,
        virtual_node_id: d.virtual_node,
        error,
        pid,
        bypassed: d.applied matches Some(a) && a.state.tone.wet.at_most(double(0)),
    }
}

/// What becomes of the queue, and what is written at once, where a node is to be the
/// default sink.
pub open spec fn queued(d: Daemon, name: Seq<char>, queue: Option<String>, write: Option<String>) -> bool {
    if d.has_metadata {
        &&& queue is None
        &&& write matches Some(v) && v@ == name_object(name)
    } else {
        &&& write is None
        &&& queue matches Some(n) && n@ == name
    }
}

/// A sink is waited for only where a filter is loaded for a state that is enabled.
pub open spec fn consistent(d: Daemon) -> bool {
    d.awaiting_sink_since is Some ==> d.loaded && (d.applied matches Some(a) && a.enabled)
}

/// The sink is the one that is waited for.
pub open spec fn awaited(d: Daemon, class: Option<&str>, name: Seq<char>) -> bool {
    &&& class matches Some(c) && c@ == "Audio/Sink"@
    &&& stands_at(name, virtual_sink_prefix(), 0)
    &&& d.awaiting_sink_since is Some
}

/// The revision is applied already.
pub open spec fn is_current(d: Daemon, desired: DesiredState) -> bool {
    d.applied matches Some(a) && a.revision == desired.revision
}

/// The running filter can be set to the desired state as it is.
pub open spec fn live_capable(d: Daemon, desired: DesiredState) -> bool {
    &&& d.loaded
    &&& d.virtual_node is Some
    &&& d.applied matches Some(a) && a.enabled && !reload_needed(a.state, desired.state)
}

/// What a desired state asks for.
pub open spec fn plan_of(d: Daemon, desired: DesiredState) -> Plan {
    if is_current(d, desired) {
        Plan::Current
    } else if !desired.enabled {
        Plan::TearDown
    } else if live_capable(d, desired) {
        Plan::Live
    } else {
        Plan::Reload
    }
}

impl Daemon {
    /// A service that has seen nothing yet.
    pub fn new() -> (r: Daemon)
        ensures
            r == (Daemon {
                has_metadata: false,
                loaded: false,
                virtual_node: None,
                awaiting_sink_since: None,
                pending_default: None,
                applied: None,
                desired_mtime: None,
                applying_revision: 0,
                retry_at: None,
            }),
            consistent(r),
    {
        Daemon {
            has_metadata: false,
            loaded: false,
            virtual_node: None,
            awaiting_sink_since: None,
            pending_default: None,
            applied: None,
            desired_mtime: None,
            applying_revision: 0,
            retry_at: None,
        }
    }

    /// The status to publish.
    pub fn publish_status(&self, error: Option<String>, pid: u32) -> (r: ServiceStatus)
        ensures
            r == status_of(*self, error, pid),
    {
        let bypassed: bool = match &self.applied {
            Some(a) => a.state.tone.wet.le(&Double { bits: 0 }),
            None => false,
        };
        ServiceStatus {
            revision_applied: self.applying_revision,
            active: self.loaded && self.virtual_node.is_some(),
            virtual_node_id: self.virtual_node,
            error,
            pid,
            bypassed,
        }
    }

    /// A node is to be the default sink: the value to write into the metadata at once,
    /// or none where the wish has to wait for the metadata.
    pub fn set_default(&mut self, node_name: &str) -> (write: Option<String>)
        ensures
            queued(*old(self), node_name@, final(self).pending_default, write),
            *final(self) == (Daemon { pending_default: final(self).pending_default, ..*old(self) }),
            consistent(*old(self)) ==> consistent(*final(self)),
    {
        if self.has_metadata {
            self.pending_default = None;
            Some(default_sink_value(node_name))
        } else {
            self.pending_default = Some(node_name.to_owned());
            None
        }
    }

    /// Whether a sink that has appeared is the one that is waited for.
    pub fn wants_sink(&self, class: Option<&str>, name: &str) -> (r: bool)
        ensures
            r == awaited(*self, class, name@),
    {
        let sink: bool = match class {
            Some(c) => same(c, "Audio/Sink"),
            None => false,
        };
        sink && stands_chars(&chars_of(name), &chars_of("effect_input.adtune"), 0)
            && self.awaiting_sink_since.is_some()
    }

    /// The awaited sink is there: the apply is complete, and the sink becomes the
    /// default.
    pub fn sink_bound(&mut self, id: u32, name: &str, pid: u32) -> (r: (
        Option<String>,
        ServiceStatus,
    ))
        ensures
            queued(*old(self), name@, final(self).pending_default, r.0),
            *final(self) == (Daemon {
                virtual_node: Some(id),
                awaiting_sink_since: None,
                pending_default: final(self).pending_default,
                ..*old(self)
            }),
            r.1 == status_of(*final(self), None, pid),
            consistent(*old(self)) ==> consistent(*final(self)),
    {
        self.virtual_node = Some(id);
        self.awaiting_sink_since = None;
        let write: Option<String> = self.set_default(name);
        (write, self.publish_status(None, pid))
    }

    /// The metadata object is there: the value to write, where a default sink has been
    /// waiting for it.
    pub fn metadata_bound(&mut self) -> (write: Option<String>)
        ensures
            *final(self) == (Daemon { has_metadata: true, pending_default: None, ..*old(self) }),
            write is Some <==> old(self).pending_default is Some,
            write matches Some(v) ==> v@ == name_object(old(self).pending_default->0@),
            consistent(*old(self)) ==> consistent(*final(self)),
    {
        self.has_metadata = true;
        match self.pending_default.take() {
            Some(name) => self.set_default(&name),
            None => None,
        }
    }

    /// A node is gone; the virtual sink may be the one.
    pub fn node_removed(&mut self, id: u32)
        ensures
            *final(self) == (Daemon {
                virtual_node: if old(self).virtual_node == Some(id) {
                    None
                } else {
                    old(self).virtual_node
                },
                ..*old(self)
            }),
            consistent(*old(self)) ==> consistent(*final(self)),
    {
        if let Some(v) = self.virtual_node {
            if v == id {
                self.virtual_node = None;
            }
        }
    }

    /// A tick of the timer, at `now`, with the time at which the file of the desired
    /// state was written. While a sink is waited for, nothing else happens, until its
    /// time is up. Otherwise the desired state is read where its file has changed or a
    /// retry is due.
    pub fn tick(&mut self, now: u64, mtime: Option<i128>, pid: u32) -> (r: Tick)
        requires
            now <= u64::MAX - RETRY_AFTER,
            old(self).awaiting_sink_since matches Some(t) ==> t <= now,
        ensures
            match old(self).awaiting_sink_since {
                Some(since) => if now - since > SINK_TIMEOUT {
                    &&& *final(self) == (Daemon {
                        awaiting_sink_since: None,
                        loaded: false,
                        applied: None,
                        retry_at: Some((now + RETRY_AFTER) as u64),
                        ..*old(self)
                    })
                    &&& r matches Tick::GiveUp(s) && s.error matches Some(e) && e@
                        == "The virtual output did not appear after loading the filter."@ && s
                        == status_of(*final(self), s.error, pid)
                } else {
                    r == Tick::Wait && *final(self) == *old(self)
                },
                None => if mtime == old(self).desired_mtime && !(old(self).retry_at matches Some(t)
                    && now >= t) {
                    r == Tick::Wait && *final(self) == *old(self)
                } else {
                    r == Tick::Read && *final(self) == (Daemon {
                        desired_mtime: mtime,
                        retry_at: None,
                        ..*old(self)
                    })
                },
            },
            consistent(*old(self)) ==> consistent(*final(self)),
    {
        if let Some(since) = self.awaiting_sink_since {
            if now - since > SINK_TIMEOUT {
                self.awaiting_sink_since = None;
                self.loaded = false;
                self.applied = None;
                self.retry_at = Some(now + RETRY_AFTER);
                return Tick::GiveUp(
                    self.publish_status(
                        Some(
                            "The virtual output did not appear after loading the filter.".to_owned(),
                        ),
                        pid,
                    ),
                );
            }
            return Tick::Wait;
        }
        let retry_due: bool = match self.retry_at {
            Some(t) => now >= t,
            None => false,
        };
        let unchanged: bool = match (mtime, self.desired_mtime) {
            (Some(a), Some(b)) => a == b,
            (None, None) => true,
            _ => false,
        };
        if unchanged && !retry_due {
            return Tick::Wait;
        }
        self.desired_mtime = mtime;
        self.retry_at = None;
        Tick::Read
    }

    /// What a desired state asks for. Unless it is applied already, its revision is the
    /// one that is reported from now on.
    pub fn consider(&mut self, desired: &DesiredState) -> (r: Plan)
        ensures
            r == plan_of(*old(self), *desired),
            *final(self) == (Daemon {
                applying_revision: if is_current(*old(self), *desired) {
                    old(self).applying_revision
                } else {
                    desired.revision
                },
                ..*old(self)
            }),
            consistent(*old(self)) ==> consistent(*final(self)),
    {
        let current: bool = match &self.applied {
            Some(a) => a.revision == desired.revision,
            None => false,
        };
        if current {
            return Plan::Current;
        }
        self.applying_revision = desired.revision;
        if !desired.enabled {
            return Plan::TearDown;
        }
        let live: bool = match &self.applied {
            Some(a) => a.enabled && !needs_reload(a, desired),
            None => false,
        };
        if self.loaded && self.virtual_node.is_some() && live {
            Plan::Live
        } else {
            Plan::Reload
        }
    }

    /// The filter has been unloaded because calibration is off: the target becomes the
    /// default again, if there is one.
    pub fn torn_down(&mut self, desired: DesiredState, pid: u32) -> (r: (
        Option<String>,
        ServiceStatus,
    ))
        ensures
            if desired.state.target_name@.len() > 0 {
                queued(
                    *old(self),
                    desired.state.target_name@,
                    final(self).pending_default,
                    r.0,
                )
            } else {
                r.0 is None && final(self).pending_default == old(self).pending_default
            },
            *final(self) == (Daemon {
                loaded: false,
                virtual_node: None,
                pending_default: final(self).pending_default,
                applied: Some(desired),
                ..*old(self)
            }),
            r.1 == status_of(*final(self), None, pid),
            old(self).awaiting_sink_since is None ==> consistent(*final(self)),
    {
        self.loaded = false;
        self.virtual_node = None;
        let mut write: Option<String> = None;
        if !desired.state.target_name.as_str().is_empty() {
            write = self.set_default(&desired.state.target_name);
        }
        self.applied = Some(desired);
        (write, self.publish_status(None, pid))
    }

    /// The gains of the running filter have been set.
    pub fn live_pushed(&mut self, desired: DesiredState, pid: u32) -> (r: ServiceStatus)
        ensures
            *final(self) == (Daemon { applied: Some(desired), ..*old(self) }),
            r == status_of(*final(self), None, pid),
            old(self).awaiting_sink_since is None ==> consistent(*final(self)),
    {
        self.applied = Some(desired);
        self.publish_status(None, pid)
    }

    /// The old filter has been unloaded, ahead of a new one.
    pub fn unloaded(&mut self)
        ensures
            *final(self) == (Daemon { loaded: false, virtual_node: None, ..*old(self) }),
            old(self).awaiting_sink_since is None ==> consistent(*final(self)),
    {
        self.loaded = false;
        self.virtual_node = None;
    }

    /// A new filter has been loaded: its sink is waited for.
    pub fn filter_loaded(&mut self, desired: DesiredState, now: u64)
        ensures
            *final(self) == (Daemon {
                loaded: true,
                awaiting_sink_since: Some(now),
                applied: Some(desired),
                ..*old(self)
            }),
            desired.enabled ==> consistent(*final(self)),
    {
        self.loaded = true;
        self.awaiting_sink_since = Some(now);
        self.applied = Some(desired);
    }

    /// No new filter could be loaded: it is tried again later.
    pub fn load_failed(&mut self, error: String, now: u64, pid: u32) -> (r: ServiceStatus)
        requires
            now <= u64::MAX - RETRY_AFTER,
        ensures
            *final(self) == (Daemon {
                applied: None,
                retry_at: Some((now + RETRY_AFTER) as u64),
                ..*old(self)
            }),
            r == status_of(*final(self), Some(error), pid),
            old(self).awaiting_sink_since is None ==> consistent(*final(self)),
    {
        self.applied = None;
        self.retry_at = Some(now + RETRY_AFTER);
        self.publish_status(Some(error), pid)
    }

    /// The service ends: the filter is gone. Unless it was asked to end, it lost its
    /// connection.
    pub fn stopped(&mut self, orderly: bool, pid: u32) -> (r: ServiceStatus)
        ensures
            *final(self) == (Daemon { loaded: false, virtual_node: None, ..*old(self) }),
            r == status_of(*final(self), r.error, pid),
            r.error is None <==> orderly,
            r.error matches Some(e) ==> e@ == "Lost the PipeWire connection."@,
            old(self).awaiting_sink_since is None ==> consistent(*final(self)),
    {
        self.loaded = false;
        self.virtual_node = None;
        let reason: Option<String> = if orderly {
            None
        } else {
            Some("Lost the PipeWire connection.".to_owned())
        };
        self.publish_status(reason, pid)
    }
}

/// Whether an error of the connection means that it is gone: a broken pipe or a reset.
/// Other errors come with every filter that is unloaded.
pub fn connection_lost(res: i32) -> (r: bool)
    ensures
        r == (res == -32 || res == -104),
{
    res == -32 || res == -104
}

/// A desired state that has been applied is not applied again.
pub proof fn law_applied_is_current(d: Daemon, desired: DesiredState)
    requires
        d.applied == Some(desired),
    ensures
        plan_of(d, desired) == Plan::Current,
{
}

/// The status after an apply acknowledges its revision; with the sink there and no
/// error it reports an active filter.
pub proof fn law_status_acknowledges(d: Daemon, desired: DesiredState, id: u32, pid: u32)
    requires
        d.applying_revision == desired.revision,
        d.loaded,
        d.virtual_node == Some(id),
    ensures
        status_of(d, None, pid).revision_applied == desired.revision,
        status_of(d, None, pid).active,
        status_of(d, None, pid).error is None,
{
}

/// What has to be moved over from an old version.
pub struct Migration {
    /// Stop and remove the old systemd unit.
    pub remove_unit: bool,
    /// The desired state to begin with.
    pub seed: Option<DesiredState>,
}

/// What to move over from an old version: nothing inside a sandbox. The old state is
/// taken over where there is no desired state yet; calibration is on exactly where the
/// old unit was still installed.
pub fn migrate_legacy(
    confined: bool,
    unit_exists: bool,
    desired_exists: bool,
    legacy: Option<StoredState<i64>>,
) -> (r: Option<Migration>)
    ensures
        r is None <==> confined,
        r matches Some(m) ==> {
            &&& m.remove_unit == unit_exists
            &&& m.seed == if desired_exists || legacy is None {
                None::<DesiredState>
            } else {
                Some(DesiredState { revision: 1, enabled: unit_exists, state: legacy->0 })
            }
        },
{
    if confined {
        return None;
    }
    let seed: Option<DesiredState> = if desired_exists {
        None
    } else {
        match legacy {
            Some(state) => Some(DesiredState { revision: 1, enabled: unit_exists, state }),
            None => None,
        }
    };
    Some(Migration { remove_unit: unit_exists, seed })
}

} // verus!
