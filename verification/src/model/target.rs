//! Device authorization targets, device events, and the persistence choice.
//!
//! Every numeric value the daemon sends is decoded through a *total* function
//! with a catch-all arm: an unexpected number becomes "unknown", never a
//! confident wrong label.

use vstd::prelude::*;
use vstd::std_specs::convert::{FromSpecImpl, TryFromSpecImpl};
use crate::text::{decimal_chars, decimal_string};

verus! {

/// The authorization state of a device, decoded from the daemon's `target` field.
#[derive(Debug, Clone, Copy, PartialEq, Eq, Structural, Hash)]
pub enum Target {
    /// The device is authorized.
    Allow,
    /// The device is present but not authorized.
    Block,
    /// The device was removed from the system.
    Reject,
    /// Any value outside the three device states, kept verbatim.
    Other(u32),
}

/// The target a wire value decodes to.
pub open spec fn target_of(v: u32) -> Target {
    if v == 0 {
        Target::Allow
    } else if v == 1 {
        Target::Block
    } else if v == 2 {
        Target::Reject
    } else {
        Target::Other(v)
    }
}

impl From<u32> for Target {
    fn from(v: u32) -> (r: Self) {
        if v == 0 {
            Target::Allow
        } else if v == 1 {
            Target::Block
        } else if v == 2 {
            Target::Reject
        } else {
            Target::Other(v)
        }
    }
}

impl FromSpecImpl<u32> for Target {
    open spec fn obeys_from_spec() -> bool {
        true
    }

    open spec fn from_spec(v: u32) -> Target {
        target_of(v)
    }
}

/// The target a policy sets.
pub open spec fn target_of_policy(p: DevicePolicy) -> Target {
    match p {
        DevicePolicy::Allow => Target::Allow,
        DevicePolicy::Block => Target::Block,
        DevicePolicy::Reject => Target::Reject,
    }
}

impl From<DevicePolicy> for Target {
    fn from(p: DevicePolicy) -> (r: Self) {
        match p {
            DevicePolicy::Allow => Target::Allow,
            DevicePolicy::Block => Target::Block,
            DevicePolicy::Reject => Target::Reject,
        }
    }
}

impl FromSpecImpl<DevicePolicy> for Target {
    open spec fn obeys_from_spec() -> bool {
        true
    }

    open spec fn from_spec(p: DevicePolicy) -> Target {
        target_of_policy(p)
    }
}

/// The words a target is shown with.
pub open spec fn target_text(t: Target) -> Seq<char> {
    match t {
        Target::Allow => "allowed"@,
        Target::Block => "blocked"@,
        Target::Reject => "rejected"@,
        Target::Other(n) => "unknown ("@ + decimal_chars(n as nat) + ")"@,
    }
}

impl Target {
    /// The target as shown to the user: `allowed`, `blocked`, `rejected`, or
    /// `unknown (n)`.
    pub fn to_string(&self) -> (r: String)
        ensures
            r@ == target_text(*self),
    {
        match self {
            Target::Allow => String::from_str("allowed"),
            Target::Block => String::from_str("blocked"),
            Target::Reject => String::from_str("rejected"),
            Target::Other(n) => {
                let mut s = String::from_str("unknown (");
                let digits = decimal_string(*n as u128);
                s.append(digits.as_str());
                s.append(")");
                s
            },
        }
    }
}

/// A target that can be *sent* to the daemon with `applyDevicePolicy`.
///
/// There is deliberately no conversion from [`Target::Other`]: an unknown
/// state can never be echoed back to the daemon as a command.
#[derive(Debug, Clone, Copy, PartialEq, Eq, Structural, Hash)]
pub enum DevicePolicy {
    /// Authorize the device.
    Allow,
    /// Deauthorize the device, leaving it connected.
    Block,
    /// Remove the device from the system; undoing it needs re-insertion.
    Reject,
}

/// The wire encoding of a policy.
pub open spec fn policy_wire(p: DevicePolicy) -> u32 {
    match p {
        DevicePolicy::Allow => 0,
        DevicePolicy::Block => 1,
        DevicePolicy::Reject => 2,
    }
}

/// The policy a target can be sent as, or the target back when it cannot.
pub open spec fn policy_of(t: Target) -> Result<DevicePolicy, Target> {
    match t {
        Target::Allow => Ok(DevicePolicy::Allow),
        Target::Block => Ok(DevicePolicy::Block),
        Target::Reject => Ok(DevicePolicy::Reject),
        Target::Other(_) => Err(t),
    }
}

impl DevicePolicy {
    /// The wire encoding used by `Devices1.applyDevicePolicy`.
    pub fn wire(self) -> (r: u32)
        ensures
            r == policy_wire(self),
    {
        match self {
            DevicePolicy::Allow => 0,
            DevicePolicy::Block => 1,
            DevicePolicy::Reject => 2,
        }
    }
}

impl TryFrom<Target> for DevicePolicy {
    type Error = Target;

    fn try_from(t: Target) -> (r: Result<Self, Self::Error>) {
        match t {
            Target::Allow => Ok(DevicePolicy::Allow),
            Target::Block => Ok(DevicePolicy::Block),
            Target::Reject => Ok(DevicePolicy::Reject),
            Target::Other(n) => Err(Target::Other(n)),
        }
    }
}

impl TryFromSpecImpl<Target> for DevicePolicy {
    open spec fn obeys_try_from_spec() -> bool {
        true
    }

    open spec fn try_from_spec(t: Target) -> Result<DevicePolicy, Target> {
        policy_of(t)
    }
}

/// The `event` field of `DevicePresenceChanged`.
#[derive(Debug, Clone, Copy, PartialEq, Eq, Structural, Hash)]
pub enum DeviceEvent {
    /// The device was already present when the daemon started.
    Present,
    /// The device was just inserted.
    Insert,
    /// The device's attributes changed.
    Update,
    /// The device was removed.
    Remove,
    /// A value outside the known set, kept verbatim.
    Other(u32),
}

/// The event a wire value decodes to.
pub open spec fn event_of(v: u32) -> DeviceEvent {
    if v == 0 {
        DeviceEvent::Present
    } else if v == 1 {
        DeviceEvent::Insert
    } else if v == 2 {
        DeviceEvent::Update
    } else if v == 3 {
        DeviceEvent::Remove
    } else {
        DeviceEvent::Other(v)
    }
}

impl From<u32> for DeviceEvent {
    fn from(v: u32) -> (r: Self) {
        if v == 0 {
            DeviceEvent::Present
        } else if v == 1 {
            DeviceEvent::Insert
        } else if v == 2 {
            DeviceEvent::Update
        } else if v == 3 {
            DeviceEvent::Remove
        } else {
            DeviceEvent::Other(v)
        }
    }
}

impl FromSpecImpl<u32> for DeviceEvent {
    open spec fn obeys_from_spec() -> bool {
        true
    }

    open spec fn from_spec(v: u32) -> DeviceEvent {
        event_of(v)
    }
}

/// Whether a policy change survives a daemon restart.
///
/// The daemon expresses this with two booleans of *opposite* polarity; the
/// two accessors below are the only places in the program where those
/// booleans are produced.
#[derive(Debug, Clone, Copy, PartialEq, Eq, Structural, Hash)]
pub enum Persistence {
    /// Written to the ruleset; survives a daemon restart.
    Permanent,
    /// In-memory only; lost on daemon restart. The default, because the less
    /// destructive choice is the one whose effect disappears.
    RuntimeOnly,
}

impl Default for Persistence {
    fn default() -> (r: Self)
        ensures
            r == Persistence::RuntimeOnly,
    {
        Persistence::RuntimeOnly
    }
}

impl Persistence {
    /// For `Policy1.appendRule`, whose parameter is `temporary`.
    pub fn as_temporary(self) -> (r: bool)
        ensures
            r == (self is RuntimeOnly),
    {
        match self {
            Persistence::RuntimeOnly => true,
            Persistence::Permanent => false,
        }
    }

    /// For `Devices1.applyDevicePolicy`, whose parameter is `permanent`.
    pub fn as_permanent(self) -> (r: bool)
        ensures
            r == (self is Permanent),
    {
        match self {
            Persistence::Permanent => true,
            Persistence::RuntimeOnly => false,
        }
    }
}

/// Decoding a target is total, and exactly the three device states can be
/// sent back as a policy: `DevicePolicy::try_from(Target::from(v))` succeeds
/// if and only if `v <= 2`.
pub proof fn lemma_only_known_targets_become_commands(v: u32)
    ensures
        policy_of(target_of(v)) is Ok <==> v <= 2,
{
}

/// A policy survives the trip to a target and back, and its wire value
/// decodes to the same target.
pub proof fn lemma_policy_round_trip(p: DevicePolicy)
    ensures
        policy_of(target_of_policy(p)) == Ok::<DevicePolicy, Target>(p),
        target_of(policy_wire(p)) == target_of_policy(p),
{
}

/// Event decoding is total, and only values above 3 are unknown.
pub proof fn lemma_unknown_events(v: u32)
    ensures
        event_of(v) is Other <==> v > 3,
{
}

/// The two persistence booleans always disagree.
pub proof fn lemma_persistence_polarity(p: Persistence)
    ensures
        (p is RuntimeOnly) != (p is Permanent),
{
}

} // verus!
