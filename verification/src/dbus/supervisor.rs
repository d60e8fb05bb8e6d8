//! The decisions of supervision and reconnection.
//!
//! A worker that exits on its first error leaves the window silently frozen on
//! stale state — the worst failure mode for a security tool. The supervisor
//! restarts it, waiting for the bridge to come back rather than polling, and
//! tells the interface to discard both caches on every reconnection. The
//! waiting and the connecting are done by the program around this library;
//! what follows from each outcome is decided here.

use vstd::prelude::*;
use crate::dbus::worker::WorkerExit;
use crate::model::event::UiEvent;

verus! {

/// The bridge's well-known name.
pub const BRIDGE_NAME: &'static str = "org.usbguard1";

/// First retry delay, and the delay after the service reappears, in
/// milliseconds.
pub const BACKOFF_MIN: u64 = 500;

/// Longest wait between retries while the service stays absent, in
/// milliseconds.
pub const BACKOFF_MAX: u64 = 30000;

/// Result of waiting for the bridge.
#[derive(Debug, Clone, Copy, PartialEq, Eq, Structural)]
pub enum ServiceWait {
    /// The name gained an owner.
    Appeared,
    /// The wait timed out.
    TimedOut,
}

/// The delay before the next attempt: back to the minimum once the service
/// reappeared, doubled up to the maximum while it stays away.
pub open spec fn spec_next_backoff(backoff: u64, wait: ServiceWait) -> u64 {
    match wait {
        ServiceWait::Appeared => BACKOFF_MIN,
        ServiceWait::TimedOut => if 2 * backoff < BACKOFF_MAX {
            (2 * backoff) as u64
        } else {
            BACKOFF_MAX
        },
    }
}

/// The supervision loop's state between two connection attempts.
#[derive(Debug, Clone, Copy, PartialEq, Eq, Structural)]
pub struct Supervisor {
    /// How long the next wait for the bridge may last, in milliseconds.
    pub backoff: u64,
    /// A connection has succeeded before: the next one is a reconnection.
    pub ever_connected: bool,
}

impl Supervisor {
    /// Before the first attempt.
    pub fn new() -> (r: Self)
        ensures
            r.backoff == BACKOFF_MIN,
            !r.ever_connected,
    {
        Supervisor { backoff: BACKOFF_MIN, ever_connected: false }
    }

    /// A connection succeeded. Returns whether to send
    /// [`UiEvent::Reconnected`] first: everything observed before a
    /// disconnection is void.
    pub fn on_connected(&mut self) -> (announce: bool)
        ensures
            announce == old(self).ever_connected,
            final(self).ever_connected,
            final(self).backoff == old(self).backoff,
    {
        let announce = self.ever_connected;
        self.ever_connected = true;
        announce
    }

    /// The worker stopped, or connecting failed. Returns the event to send
    /// before waiting for the bridge, or `None` when the interface is gone
    /// and supervision ends.
    pub fn on_lost(&self, exit: WorkerExit) -> (r: Option<UiEvent>)
        ensures
            exit is UiClosed ==> r is None,
            exit matches WorkerExit::Lost(e) ==> (r matches Some(UiEvent::ConnectionLost(s)) && s@ == e.spec_text()),
    {
        match exit {
            WorkerExit::UiClosed => None,
            WorkerExit::Lost(e) => Some(UiEvent::ConnectionLost(e.to_string())),
        }
    }

    /// The wait for the bridge ended: the next delay.
    pub fn on_wait(&mut self, wait: ServiceWait)
        ensures
            final(self).backoff == spec_next_backoff(old(self).backoff, wait),
            final(self).ever_connected == old(self).ever_connected,
    {
        self.backoff = match wait {
            ServiceWait::Appeared => BACKOFF_MIN,
            ServiceWait::TimedOut => if self.backoff < BACKOFF_MAX / 2 {
                2 * self.backoff
            } else {
                BACKOFF_MAX
            },
        };
    }
}

/// Starting within the bounds, the delay never leaves them, whatever the
/// waits bring.
pub proof fn lemma_backoff_bounded(backoff: u64, wait: ServiceWait)
    requires
        BACKOFF_MIN <= backoff <= BACKOFF_MAX,
    ensures
        BACKOFF_MIN <= spec_next_backoff(backoff, wait) <= BACKOFF_MAX,
{
}

} // verus!
