//! Cancellable operations: their identities and the notices their rows show.
//!
//! No deadline is imposed on an operation whose duration is a person typing a
//! password: a call waiting on a Polkit prompt waits as long as the human
//! takes. The row that started it can cancel it instead, and its notice
//! changes with the time spent waiting. **Cancellation is client-side only**,
//! so a cancellation is always followed by a re-read.

use vstd::prelude::*;
use crate::model::device::PendingKind;
use crate::model::event::OperationId;

verus! {

/// After this long (20 s), show "Waiting for authentication", in
/// nanoseconds.
pub const WAITING_NOTICE_AFTER: u64 = 20_000_000_000;

/// After this long (180 s), suggest that no Polkit agent may be running, in
/// nanoseconds. The operation is **not** cancelled.
pub const NO_AGENT_HINT_AFTER: u64 = 180_000_000_000;

/// A fresh operation id from the process's counter, which then moves on.
/// The counter wraps, as an atomic `fetch_add` does.
pub fn next_operation_id(counter: &mut u64) -> (r: OperationId)
    ensures
        r.0 == *old(counter),
        *final(counter) == (if *old(counter) == u64::MAX {
            0
        } else {
            *old(counter) + 1
        }),
{
    let id = *counter;
    *counter = if id == u64::MAX {
        0
    } else {
        id + 1
    };
    OperationId(id)
}

/// The notice a pending row shows after `elapsed` nanoseconds.
pub open spec fn spec_stage(elapsed: u64) -> PendingKind {
    if elapsed >= NO_AGENT_HINT_AFTER {
        PendingKind::PossiblyNoAgent
    } else if elapsed >= WAITING_NOTICE_AFTER {
        PendingKind::WaitingForAuthentication
    } else {
        PendingKind::Started
    }
}

/// Which notice the pending row of an operation started at `started` should
/// show at `now` (both readings of a monotonic clock, in nanoseconds).
pub fn stage(started: u64, now: u64) -> (r: PendingKind)
    ensures
        r == spec_stage(if now >= started {
            (now - started) as u64
        } else {
            0
        }),
{
    let elapsed = if now >= started {
        now - started
    } else {
        0
    };
    if elapsed >= NO_AGENT_HINT_AFTER {
        PendingKind::PossiblyNoAgent
    } else if elapsed >= WAITING_NOTICE_AFTER {
        PendingKind::WaitingForAuthentication
    } else {
        PendingKind::Started
    }
}

/// The notice only ever advances as time passes: a waiting operation is
/// never quietly returned to "started".
pub proof fn lemma_stage_monotone(a: u64, b: u64)
    requires
        a <= b,
    ensures
        spec_stage(a) is WaitingForAuthentication ==> !(spec_stage(b) is Started),
        spec_stage(a) is PossiblyNoAgent ==> spec_stage(b) is PossiblyNoAgent,
{
}

} // verus!
