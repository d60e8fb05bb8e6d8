//! The decisions of the event worker: what each incoming signal means for
//! the coalescing window and for the interface.
//!
//! The worker runs until the daemon is lost or the interface goes away, and
//! always returns the reason; the supervisor decides what happens next. The
//! waiting, the reading of signals and the sending of events are done by the
//! program around this library; [`handle_incoming`] says what each signal
//! leads to.

use vstd::prelude::*;
use crate::dbus::coalesce::{find, merge_signal, put, signal_id, Coalescer, DeviceSignal, RESYNC_THRESHOLD, SpecPending};
use crate::model::device::DeviceDelta;
use crate::model::error::AppError;
use crate::model::event::UiEvent;

verus! {

/// Why the worker stopped. It never stops for any other reason: a worker that
/// silently exits leaves the window showing stale authorization state.
#[derive(Debug, Clone, PartialEq, Eq)]
pub enum WorkerExit {
    /// The interface dropped its receiver: shut down cleanly.
    UiClosed,
    /// The daemon became unreachable, or a call failed.
    Lost(AppError),
}

impl From<AppError> for WorkerExit {
    fn from(e: AppError) -> (r: Self)
        ensures
            r == WorkerExit::Lost(e),
    {
        WorkerExit::Lost(e)
    }
}

impl vstd::std_specs::convert::FromSpecImpl<AppError> for WorkerExit {
    open spec fn obeys_from_spec() -> bool {
        true
    }

    open spec fn from_spec(e: AppError) -> WorkerExit {
        WorkerExit::Lost(e)
    }
}

/// One decoded signal of any kind.
#[derive(Debug)]
pub enum Incoming {
    /// A device signal.
    Device {
        /// The signal.
        signal: DeviceSignal,
        /// Another client made a permanent change.
        invalidates_rules: bool,
    },
    /// The daemon reported an asynchronous error.
    Exception {
        /// Where it happened.
        context: String,
        /// What it concerned.
        object: String,
        /// Why.
        reason: String,
    },
    /// A runtime parameter changed.
    Parameter {
        /// Parameter name.
        name: String,
        /// New value.
        value: String,
    },
    /// The bridge left the bus.
    OwnerLost,
}

/// What the worker does next, in order.
#[derive(Debug)]
pub enum WorkerAction {
    /// Send this event to the interface.
    Send(UiEvent),
    /// Read the full device list and send it as a snapshot.
    Snapshot,
    /// Stop: the daemon is lost.
    Stop(AppError),
}

/// Ends the coalescing window: the batch to send, unless it is empty.
pub fn flush(coalescer: &mut Coalescer) -> (r: Option<UiEvent>)
    ensures
        old(coalescer).entries().len() == 0 ==> r is None,
        old(coalescer).entries().len() > 0 ==> (r matches Some(UiEvent::DeviceBatch(b)) && b@.map_values(
            |d: DeviceDelta| d@,
        ) == old(coalescer).entries().map_values(|p: SpecPending| p.delta)),
        final(coalescer).entries().len() == 0,
        final(coalescer).start() is None,
{
    let ghost before = old(coalescer).entries();
    let batch = coalescer.take();
    assert(batch@.map_values(|d: DeviceDelta| d@).len() == batch@.len());
    assert(before.map_values(|p: SpecPending| p.delta).len() == before.len());
    if batch.len() == 0 {
        None
    } else {
        Some(UiEvent::DeviceBatch(batch))
    }
}

/// What follows one incoming signal, at time `now` (nanoseconds of a
/// monotonic clock):
///
/// - a device signal is merged into the window; a permanent change by
///   another client invalidates the rule cache; a burst over the resync
///   threshold is dropped for one full snapshot;
/// - a daemon exception is forwarded out of band, never coalesced and never
///   dropped, and invalidates the rule cache;
/// - a parameter change is forwarded;
/// - the bridge leaving the bus flushes the window and stops the worker.
pub fn handle_incoming(coalescer: &mut Coalescer, incoming: Incoming, now: u64) -> (r: Vec<WorkerAction>)
    ensures
        incoming matches Incoming::Device { signal, invalidates_rules } ==> {
            let merged = put(
                old(coalescer).entries(),
                merge_signal(find(old(coalescer).entries(), signal_id(signal@)), signal@),
            );
            let resync = merged.len() >= RESYNC_THRESHOLD;
            &&& final(coalescer).entries() == if resync {
                Seq::empty()
            } else {
                merged
            }
            &&& r@.len() == (if invalidates_rules { 1int } else { 0 }) + (if resync { 1int } else { 0 })
            &&& invalidates_rules ==> (r@[0] matches WorkerAction::Send(UiEvent::InvalidateRuleCache))
            &&& resync ==> r@.last() is Snapshot
        },
        incoming matches Incoming::Exception { context, object, reason } ==> {
            &&& *final(coalescer) == *old(coalescer)
            &&& r@.len() == 2
            &&& (r@[0] matches WorkerAction::Send(UiEvent::DaemonException { context: c, object: o, reason: w })
                && c@ == context@ && o@ == object@ && w@ == reason@)
            &&& r@[1] matches WorkerAction::Send(UiEvent::InvalidateRuleCache)
        },
        incoming matches Incoming::Parameter { name, value } ==> {
            &&& *final(coalescer) == *old(coalescer)
            &&& r@.len() == 1
            &&& (r@[0] matches WorkerAction::Send(UiEvent::ParameterChanged { name: n, value: v }) && n@ == name@
                && v@ == value@)
        },
        incoming is OwnerLost ==> {
            &&& final(coalescer).entries().len() == 0
            &&& r@.len() == (if old(coalescer).entries().len() > 0 { 2int } else { 1 })
            &&& old(coalescer).entries().len() > 0 ==> (r@[0] matches WorkerAction::Send(UiEvent::DeviceBatch(b))
                && b@.map_values(|d: DeviceDelta| d@) == old(coalescer).entries().map_values(
                |p: SpecPending| p.delta,
            ))
            &&& (r@.last() matches WorkerAction::Stop(AppError::Unreachable(s)) && s@
                == "the USBGuard bridge left the bus"@)
        },
{
    let mut actions: Vec<WorkerAction> = Vec::new();
    match incoming {
        Incoming::Device { signal, invalidates_rules } => {
            coalescer.push(signal, now);
            if invalidates_rules {
                actions.push(WorkerAction::Send(UiEvent::InvalidateRuleCache));
            }
            if coalescer.needs_resync() {
                coalescer.clear();
                actions.push(WorkerAction::Snapshot);
            }
        },
        Incoming::Exception { context, object, reason } => {
            actions.push(WorkerAction::Send(UiEvent::DaemonException { context, object, reason }));
            actions.push(WorkerAction::Send(UiEvent::InvalidateRuleCache));
        },
        Incoming::Parameter { name, value } => {
            actions.push(WorkerAction::Send(UiEvent::ParameterChanged { name, value }));
        },
        Incoming::OwnerLost => {
            if let Some(batch) = flush(coalescer) {
                actions.push(WorkerAction::Send(batch));
            }
            actions.push(
                WorkerAction::Stop(AppError::Unreachable(String::from_str("the USBGuard bridge left the bus"))),
            );
        },
    }
    actions
}

/// The signal streams closed: flush the window and stop.
pub fn streams_closed(coalescer: &mut Coalescer) -> (r: Vec<WorkerAction>)
    ensures
        final(coalescer).entries().len() == 0,
        r@.len() == (if old(coalescer).entries().len() > 0 { 2int } else { 1 }),
        old(coalescer).entries().len() > 0 ==> (r@[0] matches WorkerAction::Send(UiEvent::DeviceBatch(b)) && b@.map_values(
            |d: DeviceDelta| d@,
        ) == old(coalescer).entries().map_values(|p: SpecPending| p.delta)),
        (r@.last() matches WorkerAction::Stop(AppError::Unreachable(s)) && s@ == "the signal streams closed"@),
{
    let mut actions: Vec<WorkerAction> = Vec::new();
    if let Some(batch) = flush(coalescer) {
        actions.push(WorkerAction::Send(batch));
    }
    actions.push(WorkerAction::Stop(AppError::Unreachable(String::from_str("the signal streams closed"))));
    actions
}

/// What the worker does right after subscribing: a snapshot, then, since
/// the ruleset may have changed while nobody was listening, an invalidation
/// of the rule cache.
pub fn on_start() -> (r: Vec<WorkerAction>)
    ensures
        r@.len() == 2,
        r@[0] is Snapshot,
        r@[1] matches WorkerAction::Send(UiEvent::InvalidateRuleCache),
{
    let mut actions: Vec<WorkerAction> = Vec::new();
    actions.push(WorkerAction::Snapshot);
    actions.push(WorkerAction::Send(UiEvent::InvalidateRuleCache));
    actions
}

/// Whether a `DevicePolicyChanged` signal makes the cached ruleset stale:
/// it does when it names a rule (`rule_id` is not 0), that is, when the
/// change was written to the ruleset.
pub fn policy_change_invalidates_rules(rule_id: u32) -> (r: bool)
    ensures
        r == (rule_id != 0),
{
    rule_id != 0
}

} // verus!
