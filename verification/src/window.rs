//! The main window's state and its decisions, apart from the toolkit that
//! shows them: what each event from the bus side changes, how the outcome
//! of an operation is reported, which refusals disable which controls, and
//! when the ruleset is read again.
//!
//! A step takes the state and an event, and gives the next state and the
//! effects to carry out, in order. Carrying them out (widgets, toasts,
//! notifications, translations) is the toolkit's part.

use vstd::prelude::*;
use crate::device_store::{
    applied, delta_views, device_views, entry_ids, find_device, id_views, replaced, DeviceStore,
};
use crate::model::access::AccessState;
use crate::model::device::{PendingKind, SpecDevice};
use crate::model::error::AppError;
use crate::model::event::{OperationId, OperationOutcome, UiEvent};
use crate::model::ids::DeviceId;
use crate::model::parameter::Parameter;
use crate::model::rule::{RemoveOutcome, RuleHandle};
use crate::model::target::{DevicePolicy, Persistence, Target};
use crate::text::{trim_str, trim_white_space};

verus! {

/// The connection indicator in the header bar.
#[derive(Debug, Clone, Copy, PartialEq, Eq, Structural)]
pub enum Indicator {
    /// Before the first probe.
    Checking,
    /// Reachable, and some changes are permitted.
    Connected,
    /// Reachable, and neither device nor rule changes are permitted: a
    /// legitimate configuration, not a degraded one.
    ReadOnly,
    /// Access is denied.
    Denied,
    /// The daemon cannot be reached.
    Disconnected,
}

/// A refusal that says a write cannot succeed: the bus policy or USBGuard's
/// own access control. (Polkit also answers "not authorized" when the user
/// dismisses the password prompt, so a Polkit refusal is no such proof.)
#[derive(Debug, Clone, Copy, PartialEq, Eq, Structural)]
pub enum Refusal {
    /// Rejected by the bus policy.
    BusPolicy,
    /// Rejected by the daemon's IPC access control.
    IpcAcl,
}

/// Which kind of write a refusal disables.
#[derive(Debug, Clone, Copy, PartialEq, Eq, Structural)]
pub enum Write {
    /// Allowing, blocking, rejecting devices.
    Devices,
    /// Adding and removing rules.
    Rules,
    /// Changing runtime parameters.
    Parameters,
}

/// The writes the daemon has refused, each with the refusal that explains
/// why its controls are disabled.
#[derive(Debug, Clone, Copy, PartialEq, Eq, Structural)]
pub struct Denials {
    /// Device changes.
    pub devices: Option<Refusal>,
    /// Rule changes.
    pub rules: Option<Refusal>,
    /// Parameter changes.
    pub parameters: Option<Refusal>,
}

impl Denials {
    /// Nothing refused.
    pub open spec fn spec_none() -> Denials {
        Denials { devices: None, rules: None, parameters: None }
    }

    /// Nothing refused.
    pub fn none() -> (r: Denials)
        ensures
            r == Denials::spec_none(),
    {
        Denials { devices: None, rules: None, parameters: None }
    }

    /// The same with `write` refused for `refusal`.
    pub open spec fn spec_deny(self, write: Write, refusal: Refusal) -> Denials {
        match write {
            Write::Devices => Denials { devices: Some(refusal), ..self },
            Write::Rules => Denials { rules: Some(refusal), ..self },
            Write::Parameters => Denials { parameters: Some(refusal), ..self },
        }
    }

    /// Records that `write` was refused for `refusal`.
    pub fn deny(&mut self, write: Write, refusal: Refusal)
        ensures
            *final(self) == old(self).spec_deny(write, refusal),
    {
        match write {
            Write::Devices => self.devices = Some(refusal),
            Write::Rules => self.rules = Some(refusal),
            Write::Parameters => self.parameters = Some(refusal),
        }
    }

    /// The indicator for a working connection: read-only when both device
    /// and rule changes have been refused.
    pub open spec fn spec_indicator(self) -> Indicator {
        if self.devices is Some && self.rules is Some {
            Indicator::ReadOnly
        } else {
            Indicator::Connected
        }
    }

    /// The indicator for a working connection.
    pub fn indicator(&self) -> (r: Indicator)
        ensures
            r == self.spec_indicator(),
    {
        if self.devices.is_some() && self.rules.is_some() {
            Indicator::ReadOnly
        } else {
            Indicator::Connected
        }
    }
}

/// What an operation in flight is doing, to interpret its outcome.
#[derive(Debug)]
pub enum OpKind {
    /// Allowing, blocking or rejecting a device.
    Device {
        /// The device.
        id: DeviceId,
        /// What is applied.
        policy: DevicePolicy,
        /// For how long.
        persistence: Persistence,
        /// The name the messages use.
        name: String,
    },
    /// Removing a rule.
    RemoveRule,
    /// Adding a rule.
    AppendRule,
    /// Changing a runtime parameter.
    SetParameter {
        /// Which parameter.
        parameter: Parameter,
        /// The value asked for.
        new: String,
    },
}

/// A short message for the user.
#[derive(Debug)]
pub enum Notice {
    /// A device operation succeeded.
    DeviceDone {
        /// What was applied.
        policy: DevicePolicy,
        /// For how long.
        persistence: Persistence,
        /// The device's name.
        name: String,
    },
    /// The rule was removed.
    RuleRemoved,
    /// The rule had been removed elsewhere; nothing was changed.
    RuleAlreadyGone,
    /// The rule was added.
    RuleAdded,
    /// Our parameter change took effect.
    ParameterSet {
        /// Which parameter.
        parameter: Parameter,
        /// Its value now.
        value: String,
    },
    /// Someone else changed a parameter.
    ParameterChanged {
        /// Which parameter.
        parameter: Parameter,
        /// Its value now.
        value: String,
    },
    /// The write is not permitted, for this reason.
    NotPermitted(Refusal),
    /// Not authorized, and no Polkit agent seems to be running.
    NoAgent,
    /// Not authorized; the prompt may have been dismissed.
    NotAuthorized,
    /// The operation was cancelled; the daemon may have acted.
    Cancelled,
    /// The ruleset changed meanwhile, so nothing was done.
    StaleRuleset,
    /// Any other failure.
    Failed(AppError),
    /// The daemon reported an error.
    DaemonError(String),
    /// Waiting for an operation was stopped.
    StoppedWaiting,
}

/// The banner under the header bar.
#[derive(Debug)]
pub enum Banner {
    /// The connection was lost and is being retried.
    ConnectionLost,
    /// The probe found this problem.
    Problem(AccessState),
}

/// One thing for the window to do.
#[derive(Debug)]
pub enum Effect {
    /// Show the store's devices again, with the status icon's counts.
    RefreshDevices,
    /// Announce the unauthorized devices whose ids are not among these.
    AnnounceSince(Vec<DeviceId>),
    /// Show a message.
    Toast(Notice),
    /// Show this indicator.
    Indicator(Indicator),
    /// Show the banner.
    ShowBanner(Banner),
    /// Hide the banner.
    HideBanner,
    /// Grey out the device list, or stop doing so.
    DevicesStale(bool),
    /// Back to "Connecting…", with no rows.
    ResetDevices,
    /// Read the device list again.
    ReloadDevices,
    /// Read the ruleset and the parameters again.
    ReloadPolicy,
    /// Show this ruleset.
    ShowRules(Vec<RuleHandle>),
    /// The ruleset could not be read.
    RulesFailed(AppError),
    /// Show a parameter's value.
    ShowParameter(Parameter, String),
    /// Disable the refused writes' controls, and enable the others.
    Blocks(Denials),
    /// Ask which of these rules, which share their text, to remove.
    AskWhichRule(Vec<RuleHandle>),
}

/// An effect as a value: the ids to announce against are a sequence.
pub enum SpecEffect {
    /// See [`Effect::RefreshDevices`].
    RefreshDevices,
    /// See [`Effect::AnnounceSince`].
    AnnounceSince(Seq<u32>),
    /// See [`Effect::Toast`].
    Toast(Notice),
    /// See [`Effect::Indicator`].
    Indicator(Indicator),
    /// See [`Effect::ShowBanner`].
    ShowBanner(Banner),
    /// See [`Effect::HideBanner`].
    HideBanner,
    /// See [`Effect::DevicesStale`].
    DevicesStale(bool),
    /// See [`Effect::ResetDevices`].
    ResetDevices,
    /// See [`Effect::ReloadDevices`].
    ReloadDevices,
    /// See [`Effect::ReloadPolicy`].
    ReloadPolicy,
    /// See [`Effect::ShowRules`].
    ShowRules(Vec<RuleHandle>),
    /// See [`Effect::RulesFailed`].
    RulesFailed(AppError),
    /// See [`Effect::ShowParameter`].
    ShowParameter(Parameter, String),
    /// See [`Effect::Blocks`].
    Blocks(Denials),
    /// See [`Effect::AskWhichRule`].
    AskWhichRule(Vec<RuleHandle>),
}

impl View for Effect {
    type V = SpecEffect;

    open spec fn view(&self) -> SpecEffect {
        match self {
            Effect::RefreshDevices => SpecEffect::RefreshDevices,
            Effect::AnnounceSince(ids) => SpecEffect::AnnounceSince(id_views(ids@)),
            Effect::Toast(n) => SpecEffect::Toast(*n),
            Effect::Indicator(i) => SpecEffect::Indicator(*i),
            Effect::ShowBanner(b) => SpecEffect::ShowBanner(*b),
            Effect::HideBanner => SpecEffect::HideBanner,
            Effect::DevicesStale(b) => SpecEffect::DevicesStale(*b),
            Effect::ResetDevices => SpecEffect::ResetDevices,
            Effect::ReloadDevices => SpecEffect::ReloadDevices,
            Effect::ReloadPolicy => SpecEffect::ReloadPolicy,
            Effect::ShowRules(r) => SpecEffect::ShowRules(*r),
            Effect::RulesFailed(e) => SpecEffect::RulesFailed(*e),
            Effect::ShowParameter(p, v) => SpecEffect::ShowParameter(*p, *v),
            Effect::Blocks(d) => SpecEffect::Blocks(*d),
            Effect::AskWhichRule(r) => SpecEffect::AskWhichRule(*r),
        }
    }
}

/// The values of some effects.
pub open spec fn effect_views(v: Seq<Effect>) -> Seq<SpecEffect> {
    v.map_values(|e: Effect| e@)
}

fn emit(out: &mut Vec<Effect>, e: Effect)
    ensures
        effect_views(final(out)@) == effect_views(old(out)@).push(e@),
{
    let ghost before = out@;
    out.push(e);
    proof {
        assert(effect_views(out@) =~= effect_views(before).push(e@));
    }
}

/// What the window knows.
pub struct WindowState {
    /// The device table.
    pub devices: DeviceStore,
    /// The ruleset may be out of date: read it again when the page is shown.
    pub rules_stale: bool,
    /// Whether the event worker is connected.
    pub connected: bool,
    /// The last probe's result.
    pub access: Option<AccessState>,
    /// The writes refused so far.
    pub denials: Denials,
    /// The operations in flight, in the order they started.
    pub ops: Vec<(OperationId, OpKind)>,
    /// The last known value of `ImplicitPolicyTarget`.
    pub policy_target: Option<String>,
    /// The last known value of `InsertedDevicePolicy`.
    pub inserted_policy: Option<String>,
}

/// The window's state as a value.
pub struct SpecWindow {
    /// The device table.
    pub devices: Seq<SpecDevice>,
    /// See [`WindowState::rules_stale`].
    pub rules_stale: bool,
    /// See [`WindowState::connected`].
    pub connected: bool,
    /// See [`WindowState::access`].
    pub access: Option<AccessState>,
    /// See [`WindowState::denials`].
    pub denials: Denials,
    /// See [`WindowState::ops`].
    pub ops: Seq<(OperationId, OpKind)>,
    /// See [`WindowState::policy_target`].
    pub policy_target: Option<String>,
    /// See [`WindowState::inserted_policy`].
    pub inserted_policy: Option<String>,
}

impl View for WindowState {
    type V = SpecWindow;

    open spec fn view(&self) -> SpecWindow {
        SpecWindow {
            devices: self.devices.entries(),
            rules_stale: self.rules_stale,
            connected: self.connected,
            access: self.access,
            denials: self.denials,
            ops: self.ops@,
            policy_target: self.policy_target,
            inserted_policy: self.inserted_policy,
        }
    }
}

/// The devices with `pending` set on the one whose id is `id`.
pub open spec fn with_pending(s: Seq<SpecDevice>, id: u32, pending: Option<PendingKind>) -> Seq<SpecDevice> {
    s.map_values(
        |d: SpecDevice|
            if d.id == id {
                SpecDevice { pending, ..d }
            } else {
                d
            },
    )
}

/// The last known value of a parameter.
pub open spec fn known(s: SpecWindow, p: Parameter) -> Option<String> {
    match p {
        Parameter::ImplicitPolicyTarget => s.policy_target,
        Parameter::InsertedDevicePolicy => s.inserted_policy,
    }
}

/// The state with `v` as the last known value of `p`.
pub open spec fn with_known(s: SpecWindow, p: Parameter, v: String) -> SpecWindow {
    match p {
        Parameter::ImplicitPolicyTarget => SpecWindow { policy_target: Some(v), ..s },
        Parameter::InsertedDevicePolicy => SpecWindow { inserted_policy: Some(v), ..s },
    }
}

/// The last probe found a problem, which the banner is showing.
pub open spec fn access_problem(s: SpecWindow) -> bool {
    s.access matches Some(a) && !(a is Connected)
}

/// The ruleset is read again when its page is visible, it may be out of
/// date, and the daemon is connected.
pub open spec fn reload_if_needed(s: SpecWindow, visible: bool) -> (SpecWindow, Seq<SpecEffect>) {
    if visible && s.rules_stale && s.connected {
        (SpecWindow { rules_stale: false, ..s }, seq![SpecEffect::ReloadPolicy])
    } else {
        (s, Seq::empty())
    }
}

/// The ruleset may be out of date: read it again if its page is visible.
pub open spec fn mark_stale(s: SpecWindow, visible: bool) -> (SpecWindow, Seq<SpecEffect>) {
    reload_if_needed(SpecWindow { rules_stale: true, ..s }, visible)
}

/// Showing the refusals: the controls, the rows, and the indicator when it
/// describes a working connection.
pub open spec fn denial_effects(s: SpecWindow) -> Seq<SpecEffect> {
    seq![SpecEffect::Blocks(s.denials), SpecEffect::RefreshDevices] + if s.connected && !access_problem(s) {
        seq![SpecEffect::Indicator(s.denials.spec_indicator())]
    } else {
        Seq::empty()
    }
}

/// The refusal an error proves, if it proves one.
pub open spec fn refusal_of(err: AppError) -> Option<Refusal> {
    match err {
        AppError::Denied(AccessState::DeniedByBusPolicy) => Some(Refusal::BusPolicy),
        AppError::Denied(AccessState::DeniedByIpcAcl) => Some(Refusal::IpcAcl),
        _ => None,
    }
}

/// How a failed operation is reported: only a structural refusal disables
/// the controls of its kind of write.
pub open spec fn report(s: SpecWindow, err: AppError, write: Write, visible: bool) -> (SpecWindow, Seq<SpecEffect>) {
    match refusal_of(err) {
        Some(r) => {
            let s1 = SpecWindow { denials: s.denials.spec_deny(write, r), ..s };
            (s1, denial_effects(s1).push(SpecEffect::Toast(Notice::NotPermitted(r))))
        },
        None => match err {
            AppError::Denied(AccessState::NoPolkitAgent) => (s, seq![SpecEffect::Toast(Notice::NoAgent)]),
            AppError::Denied(_) => (s, seq![SpecEffect::Toast(Notice::NotAuthorized)]),
            AppError::Cancelled => (s, seq![SpecEffect::Toast(Notice::Cancelled)]),
            AppError::Stale => {
                let (s1, e1) = mark_stale(s, visible);
                (s1, seq![SpecEffect::Toast(Notice::StaleRuleset)] + e1)
            },
            _ => (s, seq![SpecEffect::Toast(Notice::Failed(err))]),
        },
    }
}

/// The position of operation `op` among `ops` from `i` on.
pub open spec fn op_index_from(ops: Seq<(OperationId, OpKind)>, op: OperationId, i: int) -> Option<int>
    decreases ops.len() - i,
{
    if i < 0 || i >= ops.len() {
        None
    } else if ops[i].0 == op {
        Some(i)
    } else {
        op_index_from(ops, op, i + 1)
    }
}

/// Reading the ruleset again after an operation that changed it, then the
/// message for its outcome.
pub open spec fn rule_change_finished(
    s: SpecWindow,
    result: Result<OperationOutcome, AppError>,
    added: bool,
    visible: bool,
) -> (SpecWindow, Seq<SpecEffect>) {
    let (s1, e1) = mark_stale(s, visible);
    match result {
        Err(err) => {
            let (s2, e2) = report(s1, err, Write::Rules, visible);
            (s2, e1 + e2)
        },
        Ok(outcome) => if added {
            (s1, e1.push(SpecEffect::Toast(Notice::RuleAdded)))
        } else {
            match outcome {
                OperationOutcome::RuleRemoved(RemoveOutcome::Removed) => (s1, e1.push(SpecEffect::Toast(Notice::RuleRemoved))),
                OperationOutcome::RuleRemoved(RemoveOutcome::AlreadyGone) => (s1, e1.push(
                    SpecEffect::Toast(Notice::RuleAlreadyGone),
                )),
                OperationOutcome::RuleRemoved(RemoveOutcome::Ambiguous { candidates }) => (s1, e1.push(
                    SpecEffect::AskWhichRule(candidates),
                )),
                _ => (s1, e1),
            }
        },
    }
}

/// An operation finished. Unknown operations were cancelled by the user and
/// have already been dealt with.
pub open spec fn finish(s: SpecWindow, op: OperationId, result: Result<OperationOutcome, AppError>, visible: bool) -> (
    SpecWindow,
    Seq<SpecEffect>,
) {
    match op_index_from(s.ops, op, 0) {
        None => (s, Seq::empty()),
        Some(k) => {
            let s0 = SpecWindow { ops: s.ops.remove(k), ..s };
            match s.ops[k].1 {
                OpKind::Device { id, policy, persistence, name } => {
                    let s1 = SpecWindow { devices: with_pending(s0.devices, id@, None), ..s0 };
                    match result {
                        Ok(_) => {
                            let e = seq![
                                SpecEffect::RefreshDevices,
                                SpecEffect::Toast(Notice::DeviceDone { policy, persistence, name }),
                            ];
                            if persistence == Persistence::Permanent {
                                let (s2, e2) = mark_stale(s1, visible);
                                (s2, e + e2)
                            } else {
                                (s1, e)
                            }
                        },
                        Err(err) => {
                            let (s2, e2) = report(s1, err, Write::Devices, visible);
                            (s2, seq![SpecEffect::RefreshDevices] + e2)
                        },
                    }
                },
                OpKind::RemoveRule => rule_change_finished(s0, result, false, visible),
                OpKind::AppendRule => rule_change_finished(s0, result, true, visible),
                OpKind::SetParameter { parameter, new } => match result {
                    Ok(_) => (
                        with_known(s0, parameter, new),
                        seq![
                            SpecEffect::ShowParameter(parameter, new),
                            SpecEffect::Toast(Notice::ParameterSet { parameter, value: new }),
                        ],
                    ),
                    Err(err) => {
                        let shown = match known(s0, parameter) {
                            Some(v) => seq![SpecEffect::ShowParameter(parameter, v)],
                            None => Seq::empty(),
                        };
                        let (s2, e2) = report(s0, err, Write::Parameters, visible);
                        (s2, shown + e2)
                    },
                },
            }
        },
    }
}

/// The parameter with this name.
pub open spec fn parameter_named(name: Seq<char>) -> Option<Parameter> {
    if Parameter::ImplicitPolicyTarget.spec_name() == name {
        Some(Parameter::ImplicitPolicyTarget)
    } else if Parameter::InsertedDevicePolicy.spec_name() == name {
        Some(Parameter::InsertedDevicePolicy)
    } else {
        None
    }
}

/// The operation sets `p` to `value`.
pub open spec fn sets_to(kind: OpKind, p: Parameter, value: Seq<char>) -> bool {
    kind matches OpKind::SetParameter { parameter, new } && parameter == p && new@ == value
}

/// One of our own operations is setting `p` to `value`: its outcome will be
/// announced when it finishes.
pub open spec fn ours(ops: Seq<(OperationId, OpKind)>, p: Parameter, value: Seq<char>) -> bool {
    exists|i: int| 0 <= i < ops.len() && sets_to(#[trigger] ops[i].1, p, value)
}

/// A parameter changed on the daemon: show it, and say so when someone
/// else changed a value that was known.
pub open spec fn param_changed(s: SpecWindow, name: String, value: String) -> (SpecWindow, Seq<SpecEffect>) {
    match parameter_named(name@) {
        None => (s, Seq::empty()),
        Some(p) => {
            let show = seq![SpecEffect::ShowParameter(p, value)];
            let told = !ours(s.ops, p, value@) && (known(s, p) matches Some(previous) && previous@ != value@);
            (
                with_known(s, p, value),
                if told {
                    show.push(SpecEffect::Toast(Notice::ParameterChanged { parameter: p, value }))
                } else {
                    show
                },
            )
        },
    }
}

/// A new probe result.
pub open spec fn apply_access(s: SpecWindow, a: AccessState) -> (SpecWindow, Seq<SpecEffect>) {
    let e = if a is Connected {
        if s.connected {
            seq![SpecEffect::Indicator(s.denials.spec_indicator()), SpecEffect::HideBanner]
        } else {
            Seq::empty()
        }
    } else {
        seq![
            SpecEffect::Indicator(
                if a.spec_is_denied() {
                    Indicator::Denied
                } else {
                    Indicator::Disconnected
                },
            ),
            SpecEffect::ShowBanner(Banner::Problem(a)),
        ]
    };
    (SpecWindow { access: Some(a), ..s }, e)
}

/// What an event from the bus side changes, and what the window then does.
/// `visible` is whether the policy page is the one shown.
pub open spec fn step(s: SpecWindow, event: UiEvent, visible: bool) -> (SpecWindow, Seq<SpecEffect>) {
    match event {
        UiEvent::DeviceSnapshot(ds) => {
            // A snapshot while connected is a burst resynchronization: its
            // new devices are insertions too. The first one after
            // connecting announces nothing.
            let s1 = SpecWindow { connected: true, devices: replaced(s.devices, device_views(ds@)), ..s };
            let announce = if s.connected {
                seq![SpecEffect::AnnounceSince(entry_ids(s.devices))]
            } else {
                Seq::empty()
            };
            let front = if !access_problem(s1) {
                seq![SpecEffect::HideBanner, SpecEffect::Indicator(s1.denials.spec_indicator())]
            } else {
                Seq::empty()
            };
            let (s2, e2) = reload_if_needed(s1, visible);
            (s2, seq![SpecEffect::RefreshDevices] + announce + seq![SpecEffect::DevicesStale(false)] + front + e2)
        },
        UiEvent::DeviceBatch(batch) => (
            SpecWindow { devices: applied(s.devices, delta_views(batch@)), ..s },
            seq![SpecEffect::RefreshDevices, SpecEffect::AnnounceSince(entry_ids(s.devices))],
        ),
        UiEvent::RuleSnapshot(rules) => (s, seq![SpecEffect::ShowRules(rules)]),
        UiEvent::RuleSnapshotFailed(err) => (SpecWindow { rules_stale: true, ..s }, seq![SpecEffect::RulesFailed(err)]),
        UiEvent::InvalidateRuleCache => mark_stale(s, visible),
        UiEvent::ParameterChanged { name, value } => param_changed(s, name, value),
        UiEvent::DaemonException { reason, .. } => (s, seq![SpecEffect::Toast(Notice::DaemonError(reason))]),
        UiEvent::OperationFinished { op, result } => finish(s, op, result, visible),
        UiEvent::AccessStateChanged(a) => apply_access(s, a),
        UiEvent::ConnectionLost(_) => {
            let s1 = SpecWindow { connected: false, ..s };
            (
                s1,
                seq![SpecEffect::DevicesStale(true), SpecEffect::Indicator(Indicator::Disconnected)]
                    + if !access_problem(s1) {
                    seq![SpecEffect::ShowBanner(Banner::ConnectionLost)]
                } else {
                    Seq::empty()
                },
            )
        },
        UiEvent::Reconnected => {
            // Nothing observed before the disconnection is trusted, including
            // which writes were refused.
            let s1 = SpecWindow {
                devices: Seq::empty(),
                rules_stale: true,
                denials: Denials::spec_none(),
                ..s
            };
            (s1, seq![SpecEffect::ResetDevices] + denial_effects(s1))
        },
    }
}

/// The initial state: nothing known, not connected, the ruleset to be read.
pub open spec fn initial() -> SpecWindow {
    SpecWindow {
        devices: Seq::empty(),
        rules_stale: true,
        connected: false,
        access: None,
        denials: Denials::spec_none(),
        ops: Seq::empty(),
        policy_target: None,
        inserted_policy: None,
    }
}

/// Starting an operation: a device operation marks its row.
pub open spec fn started(s: SpecWindow, op: OperationId, kind: OpKind) -> (SpecWindow, Seq<SpecEffect>) {
    let s1 = SpecWindow { ops: s.ops.push((op, kind)), ..s };
    match kind {
        OpKind::Device { id, .. } => (
            SpecWindow { devices: with_pending(s1.devices, id@, Some(PendingKind::Started)), ..s1 },
            seq![SpecEffect::RefreshDevices],
        ),
        _ => (s1, Seq::empty()),
    }
}

/// An operation on `device` has been running long enough for `stage`: its
/// row says so, if the operation is still running.
pub open spec fn stage_reached(s: SpecWindow, op: OperationId, device: DeviceId, stage: PendingKind) -> (
    SpecWindow,
    Seq<SpecEffect>,
) {
    if op_index_from(s.ops, op, 0) is Some {
        (SpecWindow { devices: with_pending(s.devices, device@, Some(stage)), ..s }, seq![SpecEffect::RefreshDevices])
    } else {
        (s, Seq::empty())
    }
}

/// The first operation from `i` on that acts on `device`.
pub open spec fn device_op_from(ops: Seq<(OperationId, OpKind)>, device: DeviceId, i: int) -> Option<int>
    decreases ops.len() - i,
{
    if i < 0 || i >= ops.len() {
        None
    } else if ops[i].1 matches OpKind::Device { id, .. } && id == device {
        Some(i)
    } else {
        device_op_from(ops, device, i + 1)
    }
}

/// The user stopped waiting for the operation on `device`: it is forgotten,
/// and the device list is read again, since the daemon may have acted.
pub open spec fn cancelled(s: SpecWindow, device: DeviceId) -> (SpecWindow, Option<OperationId>, Seq<SpecEffect>) {
    match device_op_from(s.ops, device, 0) {
        None => (s, None, Seq::empty()),
        Some(k) => (
            SpecWindow { ops: s.ops.remove(k), devices: with_pending(s.devices, device@, None), ..s },
            Some(s.ops[k].0),
            seq![SpecEffect::RefreshDevices, SpecEffect::Toast(Notice::StoppedWaiting), SpecEffect::ReloadDevices],
        ),
    }
}

/// The name the window's messages give a device: its trimmed name, when it
/// has one that is not blank.
pub open spec fn device_name(s: Seq<SpecDevice>, id: u32) -> Option<Seq<char>> {
    match find_device(s, id) {
        Some(d) => match d.attrs.name {
            Some(n) => if trim_white_space(n).len() > 0 {
                Some(trim_white_space(n))
            } else {
                None
            },
            None => None,
        },
        None => None,
    }
}

impl WindowState {
    /// The name the window's messages give a device; `None` when it has no
    /// name to give, and the caller says "device N".
    pub fn device_name(&self, id: DeviceId) -> (r: Option<String>)
        ensures
            match r {
                Some(n) => device_name(self@.devices, id@) == Some(n@),
                None => device_name(self@.devices, id@) is None,
            },
    {
        match self.devices.get(id) {
            Some(d) => match &d.attrs.name {
                Some(n) => {
                    let t = trim_str(n.as_str());
                    if t.is_empty() {
                        None
                    } else {
                        Some(String::from_str(t))
                    }
                },
                None => None,
            },
            None => None,
        }
    }

    /// The initial state.
    pub fn new() -> (r: Self)
        ensures
            r@ == initial(),
    {
        let r = WindowState {
            devices: DeviceStore::new(),
            rules_stale: true,
            connected: false,
            access: None,
            denials: Denials::none(),
            ops: Vec::new(),
            policy_target: None,
            inserted_policy: None,
        };
        assert(r.devices.entries() =~= Seq::<SpecDevice>::empty());
        assert(r.ops@ =~= Seq::<(OperationId, OpKind)>::empty());
        r
    }

    /// Whether the last probe found a problem.
    pub fn access_problem(&self) -> (r: bool)
        ensures
            r == access_problem(self@),
    {
        match &self.access {
            Some(AccessState::Connected { .. }) => false,
            Some(_) => true,
            None => false,
        }
    }

    fn set_known(&mut self, p: Parameter, v: String)
        ensures
            final(self)@ == with_known(old(self)@, p, v),
    {
        match p {
            Parameter::ImplicitPolicyTarget => self.policy_target = Some(v),
            Parameter::InsertedDevicePolicy => self.inserted_policy = Some(v),
        }
    }

    fn known_value(&self, p: Parameter) -> (r: Option<String>)
        ensures
            r == known(self@, p),
    {
        let v = match p {
            Parameter::ImplicitPolicyTarget => &self.policy_target,
            Parameter::InsertedDevicePolicy => &self.inserted_policy,
        };
        match v {
            Some(s) => Some(s.clone()),
            None => None,
        }
    }

    fn reload_if_needed(&mut self, visible: bool, out: &mut Vec<Effect>)
        ensures
            final(self)@ == reload_if_needed(old(self)@, visible).0,
            effect_views(final(out)@) == effect_views(old(out)@) + reload_if_needed(old(self)@, visible).1,
    {
        if visible && self.rules_stale && self.connected {
            self.rules_stale = false;
            emit(out, Effect::ReloadPolicy);
        } else {
            assert(effect_views(out@) + Seq::<SpecEffect>::empty() =~= effect_views(out@));
        }
    }

    fn mark_stale(&mut self, visible: bool, out: &mut Vec<Effect>)
        ensures
            final(self)@ == mark_stale(old(self)@, visible).0,
            effect_views(final(out)@) == effect_views(old(out)@) + mark_stale(old(self)@, visible).1,
    {
        self.rules_stale = true;
        self.reload_if_needed(visible, out);
    }

    fn denial_effects(&self, out: &mut Vec<Effect>)
        ensures
            effect_views(final(out)@) == effect_views(old(out)@) + denial_effects(self@),
    {
        let ghost start = effect_views(out@);
        emit(out, Effect::Blocks(self.denials));
        emit(out, Effect::RefreshDevices);
        if self.connected && !self.access_problem() {
            emit(out, Effect::Indicator(self.denials.indicator()));
        }
        assert(effect_views(out@) =~= start + denial_effects(self@));
    }

    fn report(&mut self, err: AppError, write: Write, visible: bool, out: &mut Vec<Effect>)
        ensures
            final(self)@ == report(old(self)@, err, write, visible).0,
            effect_views(final(out)@) == effect_views(old(out)@) + report(old(self)@, err, write, visible).1,
    {
        let ghost start = effect_views(out@);
        let ghost s0 = self@;
        let refusal = match &err {
            AppError::Denied(AccessState::DeniedByBusPolicy) => Some(Refusal::BusPolicy),
            AppError::Denied(AccessState::DeniedByIpcAcl) => Some(Refusal::IpcAcl),
            _ => None,
        };
        match refusal {
            Some(r) => {
                self.denials.deny(write, r);
                self.denial_effects(out);
                emit(out, Effect::Toast(Notice::NotPermitted(r)));
                assert(effect_views(out@) =~= start + report(s0, err, write, visible).1);
            },
            None => match err {
                AppError::Denied(AccessState::NoPolkitAgent) => {
                    emit(out, Effect::Toast(Notice::NoAgent));
                    assert(effect_views(out@) =~= start + report(s0, err, write, visible).1);
                },
                AppError::Denied(_) => {
                    emit(out, Effect::Toast(Notice::NotAuthorized));
                    assert(effect_views(out@) =~= start + report(s0, err, write, visible).1);
                },
                AppError::Cancelled => {
                    emit(out, Effect::Toast(Notice::Cancelled));
                    assert(effect_views(out@) =~= start + report(s0, err, write, visible).1);
                },
                AppError::Stale => {
                    emit(out, Effect::Toast(Notice::StaleRuleset));
                    self.mark_stale(visible, out);
                    assert(effect_views(out@) =~= start + report(s0, err, write, visible).1);
                },
                other => {
                    emit(out, Effect::Toast(Notice::Failed(other)));
                    assert(effect_views(out@) =~= start + report(s0, err, write, visible).1);
                },
            },
        }
    }

    fn take_op(&mut self, op: OperationId) -> (r: Option<OpKind>)
        ensures
            match op_index_from(old(self)@.ops, op, 0) {
                None => r is None && final(self)@ == old(self)@,
                Some(k) => r == Some(old(self)@.ops[k].1) && final(self)@ == (SpecWindow {
                    ops: old(self)@.ops.remove(k),
                    ..old(self)@
                }),
            },
    {
        let mut i: usize = 0;
        while i < self.ops.len()
            invariant
                i <= self.ops@.len(),
                self@ == old(self)@,
                op_index_from(self.ops@, op, 0) == op_index_from(self.ops@, op, i as int),
            decreases self.ops@.len() - i,
        {
            if self.ops[i].0 == op {
                let ghost before = self.ops@;
                let (_, kind) = self.ops.remove(i);
                assert(self.ops@ == before.remove(i as int));
                return Some(kind);
            }
            i = i + 1;
        }
        None
    }

    fn rule_change_finished(
        &mut self,
        result: Result<OperationOutcome, AppError>,
        added: bool,
        visible: bool,
        out: &mut Vec<Effect>,
    )
        ensures
            final(self)@ == rule_change_finished(old(self)@, result, added, visible).0,
            effect_views(final(out)@) == effect_views(old(out)@) + rule_change_finished(
                old(self)@,
                result,
                added,
                visible,
            ).1,
    {
        let ghost start = effect_views(out@);
        let ghost s0 = self@;
        self.mark_stale(visible, out);
        let ghost mid = effect_views(out@);
        match result {
            Err(err) => {
                self.report(err, Write::Rules, visible, out);
            },
            Ok(outcome) => {
                if added {
                    emit(out, Effect::Toast(Notice::RuleAdded));
                } else {
                    match outcome {
                        OperationOutcome::RuleRemoved(RemoveOutcome::Removed) => {
                            emit(out, Effect::Toast(Notice::RuleRemoved));
                        },
                        OperationOutcome::RuleRemoved(RemoveOutcome::AlreadyGone) => {
                            emit(out, Effect::Toast(Notice::RuleAlreadyGone));
                        },
                        OperationOutcome::RuleRemoved(RemoveOutcome::Ambiguous { candidates }) => {
                            emit(out, Effect::AskWhichRule(candidates));
                        },
                        _ => {},
                    }
                }
            },
        }
        assert(effect_views(out@) =~= start + rule_change_finished(s0, result, added, visible).1);
    }

    fn finish(&mut self, op: OperationId, result: Result<OperationOutcome, AppError>, visible: bool, out: &mut Vec<Effect>)
        ensures
            final(self)@ == finish(old(self)@, op, result, visible).0,
            effect_views(final(out)@) == effect_views(old(out)@) + finish(old(self)@, op, result, visible).1,
    {
        let ghost start = effect_views(out@);
        let ghost s0 = self@;
        match self.take_op(op) {
            None => {
                assert(effect_views(out@) =~= start + finish(s0, op, result, visible).1);
            },
            Some(kind) => match kind {
                OpKind::Device { id, policy, persistence, name } => {
                    self.devices.set_pending(id, None);
                    emit(out, Effect::RefreshDevices);
                    match result {
                        Ok(_) => {
                            emit(out, Effect::Toast(Notice::DeviceDone { policy, persistence, name }));
                            if persistence == Persistence::Permanent {
                                self.mark_stale(visible, out);
                            }
                        },
                        Err(err) => {
                            self.report(err, Write::Devices, visible, out);
                        },
                    }
                    assert(effect_views(out@) =~= start + finish(s0, op, result, visible).1);
                },
                OpKind::RemoveRule => {
                    self.rule_change_finished(result, false, visible, out);
                },
                OpKind::AppendRule => {
                    self.rule_change_finished(result, true, visible, out);
                },
                OpKind::SetParameter { parameter, new } => match result {
                    Ok(_) => {
                        emit(out, Effect::ShowParameter(parameter, new.clone()));
                        self.set_known(parameter, new.clone());
                        emit(out, Effect::Toast(Notice::ParameterSet { parameter, value: new }));
                        assert(effect_views(out@) =~= start + finish(s0, op, result, visible).1);
                    },
                    Err(err) => {
                        match self.known_value(parameter) {
                            Some(v) => emit(out, Effect::ShowParameter(parameter, v)),
                            None => {},
                        }
                        let ghost mid = effect_views(out@);
                        self.report(err, Write::Parameters, visible, out);
                        assert(effect_views(out@) =~= start + finish(s0, op, result, visible).1);
                    },
                },
            },
        }
    }

    fn is_ours(&self, p: Parameter, value: &String) -> (r: bool)
        ensures
            r == ours(self@.ops, p, value@),
    {
        let mut i: usize = 0;
        while i < self.ops.len()
            invariant
                i <= self.ops@.len(),
                forall|j: int| 0 <= j < i ==> !sets_to(#[trigger] self.ops@[j].1, p, value@),
            decreases self.ops@.len() - i,
        {
            match &self.ops[i].1 {
                OpKind::SetParameter { parameter, new } => {
                    if *parameter == p && new.eq(value) {
                        assert(sets_to(self.ops@[i as int].1, p, value@));
                        return true;
                    }
                },
                _ => {},
            }
            i = i + 1;
        }
        false
    }

    fn param_changed(&mut self, name: String, value: String, out: &mut Vec<Effect>)
        ensures
            final(self)@ == param_changed(old(self)@, name, value).0,
            effect_views(final(out)@) == effect_views(old(out)@) + param_changed(old(self)@, name, value).1,
    {
        let ghost start = effect_views(out@);
        let ghost s0 = self@;
        let found = Parameter::from_name(name.as_str());
        proof {
            lemma_parameter_named(found, name@);
        }
        match found {
            None => {
                assert(effect_views(out@) =~= start + param_changed(s0, name, value).1);
            },
            Some(p) => {
                let differs = match self.known_value(p) {
                    Some(previous) => !previous.eq(&value),
                    None => false,
                };
                let told = !self.is_ours(p, &value) && differs;
                emit(out, Effect::ShowParameter(p, value.clone()));
                self.set_known(p, value.clone());
                if told {
                    emit(out, Effect::Toast(Notice::ParameterChanged { parameter: p, value }));
                }
                assert(effect_views(out@) =~= start + param_changed(s0, name, value).1);
            },
        }
    }

    fn apply_access(&mut self, a: AccessState, out: &mut Vec<Effect>)
        ensures
            final(self)@ == apply_access(old(self)@, a).0,
            effect_views(final(out)@) == effect_views(old(out)@) + apply_access(old(self)@, a).1,
    {
        let ghost start = effect_views(out@);
        let ghost s0 = self@;
        match &a {
            AccessState::Connected { .. } => {
                if self.connected {
                    emit(out, Effect::Indicator(self.denials.indicator()));
                    emit(out, Effect::HideBanner);
                }
            },
            _ => {
                let indicator = if a.is_denied() {
                    Indicator::Denied
                } else {
                    Indicator::Disconnected
                };
                emit(out, Effect::Indicator(indicator));
                emit(out, Effect::ShowBanner(Banner::Problem(a.duplicate())));
            },
        }
        self.access = Some(a);
        assert(effect_views(out@) =~= start + apply_access(s0, a).1);
    }

    /// Applies an event from the bus side: the single entry point from
    /// there. `visible` is whether the policy page is the one shown.
    pub fn apply(&mut self, event: UiEvent, visible: bool) -> (r: Vec<Effect>)
        ensures
            final(self)@ == step(old(self)@, event, visible).0,
            effect_views(r@) == step(old(self)@, event, visible).1,
    {
        let mut out: Vec<Effect> = Vec::new();
        let ghost s0 = self@;
        assert(effect_views(out@) =~= Seq::<SpecEffect>::empty());
        match event {
            UiEvent::DeviceSnapshot(ds) => {
                let before = if self.connected {
                    Some(self.devices.ids())
                } else {
                    None
                };
                self.connected = true;
                self.devices.replace(ds);
                emit(&mut out, Effect::RefreshDevices);
                match before {
                    Some(b) => emit(&mut out, Effect::AnnounceSince(b)),
                    None => {},
                }
                emit(&mut out, Effect::DevicesStale(false));
                if !self.access_problem() {
                    emit(&mut out, Effect::HideBanner);
                    emit(&mut out, Effect::Indicator(self.denials.indicator()));
                }
                let ghost mid = effect_views(out@);
                self.reload_if_needed(visible, &mut out);
                assert(effect_views(out@) =~= step(s0, event, visible).1);
            },
            UiEvent::DeviceBatch(batch) => {
                let before = self.devices.ids();
                self.devices.apply(batch);
                emit(&mut out, Effect::RefreshDevices);
                emit(&mut out, Effect::AnnounceSince(before));
                assert(effect_views(out@) =~= step(s0, event, visible).1);
            },
            UiEvent::RuleSnapshot(rules) => {
                emit(&mut out, Effect::ShowRules(rules));
                assert(effect_views(out@) =~= step(s0, event, visible).1);
            },
            UiEvent::RuleSnapshotFailed(err) => {
                self.rules_stale = true;
                emit(&mut out, Effect::RulesFailed(err));
                assert(effect_views(out@) =~= step(s0, event, visible).1);
            },
            UiEvent::InvalidateRuleCache => {
                self.mark_stale(visible, &mut out);
                assert(effect_views(out@) =~= step(s0, event, visible).1);
            },
            UiEvent::ParameterChanged { name, value } => {
                self.param_changed(name, value, &mut out);
                assert(effect_views(out@) =~= step(s0, event, visible).1);
            },
            UiEvent::DaemonException { reason, .. } => {
                emit(&mut out, Effect::Toast(Notice::DaemonError(reason)));
                assert(effect_views(out@) =~= step(s0, event, visible).1);
            },
            UiEvent::OperationFinished { op, result } => {
                self.finish(op, result, visible, &mut out);
                assert(effect_views(out@) =~= step(s0, event, visible).1);
            },
            UiEvent::AccessStateChanged(a) => {
                self.apply_access(a, &mut out);
                assert(effect_views(out@) =~= step(s0, event, visible).1);
            },
            UiEvent::ConnectionLost(_) => {
                self.connected = false;
                emit(&mut out, Effect::DevicesStale(true));
                emit(&mut out, Effect::Indicator(Indicator::Disconnected));
                if !self.access_problem() {
                    emit(&mut out, Effect::ShowBanner(Banner::ConnectionLost));
                }
                assert(effect_views(out@) =~= step(s0, event, visible).1);
            },
            UiEvent::Reconnected => {
                self.devices.clear();
                self.rules_stale = true;
                self.denials = Denials::none();
                emit(&mut out, Effect::ResetDevices);
                self.denial_effects(&mut out);
                assert(self.devices.entries() =~= Seq::<SpecDevice>::empty());
                assert(effect_views(out@) =~= step(s0, event, visible).1);
            },
        }
        out
    }

    /// The policy page was shown: the ruleset is read again if needed.
    pub fn policy_shown(&mut self) -> (r: Vec<Effect>)
        ensures
            final(self)@ == reload_if_needed(old(self)@, true).0,
            effect_views(r@) == reload_if_needed(old(self)@, true).1,
    {
        let mut out: Vec<Effect> = Vec::new();
        assert(effect_views(out@) =~= Seq::<SpecEffect>::empty());
        self.reload_if_needed(true, &mut out);
        assert(effect_views(out@) =~= reload_if_needed(old(self)@, true).1);
        out
    }

    /// An operation was started: it is remembered until it finishes, and a
    /// device operation marks its row.
    pub fn started(&mut self, op: OperationId, kind: OpKind) -> (r: Vec<Effect>)
        ensures
            final(self)@ == started(old(self)@, op, kind).0,
            effect_views(r@) == started(old(self)@, op, kind).1,
    {
        let mut out: Vec<Effect> = Vec::new();
        assert(effect_views(out@) =~= Seq::<SpecEffect>::empty());
        let device = match &kind {
            OpKind::Device { id, .. } => Some(*id),
            _ => None,
        };
        self.ops.push((op, kind));
        match device {
            Some(id) => {
                self.devices.set_pending(id, Some(PendingKind::Started));
                emit(&mut out, Effect::RefreshDevices);
            },
            None => {},
        }
        assert(effect_views(out@) =~= started(old(self)@, op, kind).1);
        out
    }

    /// Whether operation `op` is still running.
    pub fn op_running(&self, op: OperationId) -> (r: bool)
        ensures
            r == (op_index_from(self@.ops, op, 0) is Some),
    {
        let mut i: usize = 0;
        while i < self.ops.len()
            invariant
                i <= self.ops@.len(),
                op_index_from(self.ops@, op, 0) == op_index_from(self.ops@, op, i as int),
            decreases self.ops@.len() - i,
        {
            if self.ops[i].0 == op {
                return true;
            }
            i = i + 1;
        }
        false
    }

    /// An operation on `device` has been running long enough for `stage`.
    pub fn stage_reached(&mut self, op: OperationId, device: DeviceId, stage: PendingKind) -> (r: Vec<Effect>)
        ensures
            final(self)@ == stage_reached(old(self)@, op, device, stage).0,
            effect_views(r@) == stage_reached(old(self)@, op, device, stage).1,
    {
        let mut out: Vec<Effect> = Vec::new();
        assert(effect_views(out@) =~= Seq::<SpecEffect>::empty());
        let running = self.op_running(op);
        if running {
            self.devices.set_pending(device, Some(stage));
            emit(&mut out, Effect::RefreshDevices);
        }
        assert(effect_views(out@) =~= stage_reached(old(self)@, op, device, stage).1);
        out
    }

    /// The user stopped waiting for the operation on `device`. Returns that
    /// operation, for the caller to cancel, and the effects.
    pub fn cancel_device_op(&mut self, device: DeviceId) -> (r: (Option<OperationId>, Vec<Effect>))
        ensures
            final(self)@ == cancelled(old(self)@, device).0,
            r.0 == cancelled(old(self)@, device).1,
            effect_views(r.1@) == cancelled(old(self)@, device).2,
    {
        let mut out: Vec<Effect> = Vec::new();
        assert(effect_views(out@) =~= Seq::<SpecEffect>::empty());
        let mut i: usize = 0;
        while i < self.ops.len()
            invariant
                i <= self.ops@.len(),
                self@ == old(self)@,
                out@.len() == 0,
                device_op_from(self.ops@, device, 0) == device_op_from(self.ops@, device, i as int),
            decreases self.ops@.len() - i,
        {
            let hit = match &self.ops[i].1 {
                OpKind::Device { id, .. } => *id == device,
                _ => false,
            };
            if hit {
                let (op, _) = self.ops.remove(i);
                self.devices.set_pending(device, None);
                emit(&mut out, Effect::RefreshDevices);
                emit(&mut out, Effect::Toast(Notice::StoppedWaiting));
                emit(&mut out, Effect::ReloadDevices);
                assert(effect_views(out@) =~= cancelled(old(self)@, device).2);
                return (Some(op), out);
            }
            i = i + 1;
        }
        (None, out)
    }
}

proof fn lemma_parameter_named(found: Option<Parameter>, name: Seq<char>)
    requires
        found matches Some(p) ==> p.spec_name() == name,
        found is None ==> (forall|p: Parameter| #[trigger] p.spec_name() != name),
    ensures
        found == parameter_named(name),
{
    crate::model::parameter::lemma_names_distinct(Parameter::ImplicitPolicyTarget, Parameter::InsertedDevicePolicy);
    if let Some(p) = found {
        crate::model::parameter::lemma_names_distinct(p, Parameter::ImplicitPolicyTarget);
    } else {
        assert(Parameter::ImplicitPolicyTarget.spec_name() != name);
        assert(Parameter::InsertedDevicePolicy.spec_name() != name);
    }
}

/// No two operations in flight share an id.
pub open spec fn distinct_ops(ops: Seq<(OperationId, OpKind)>) -> bool {
    forall|i: int, j: int| 0 <= i < j < ops.len() ==> (#[trigger] ops[i]).0 != (#[trigger] ops[j]).0
}

proof fn lemma_op_index(ops: Seq<(OperationId, OpKind)>, op: OperationId, i: int)
    requires
        0 <= i,
    ensures
        op_index_from(ops, op, i) matches Some(k) ==> i <= k < ops.len() && ops[k].0 == op,
        op_index_from(ops, op, i) is None ==> forall|j: int| i <= j < ops.len() ==> (#[trigger] ops[j]).0 != op,
    decreases ops.len() - i,
{
    if i < ops.len() && ops[i].0 != op {
        lemma_op_index(ops, op, i + 1);
    }
}

proof fn lemma_op_gone(ops: Seq<(OperationId, OpKind)>, k: int)
    requires
        distinct_ops(ops),
        0 <= k < ops.len(),
    ensures
        op_index_from(ops.remove(k), ops[k].0, 0) is None,
{
    let rest = ops.remove(k);
    let op = ops[k].0;
    lemma_op_index(rest, op, 0);
    if let Some(j) = op_index_from(rest, op, 0) {
        if j < k {
            assert(rest[j] == ops[j]);
        } else {
            assert(rest[j] == ops[j + 1]);
        }
    }
}

proof fn lemma_device_op(ops: Seq<(OperationId, OpKind)>, device: DeviceId, i: int)
    requires
        0 <= i,
    ensures
        device_op_from(ops, device, i) matches Some(k) ==> i <= k < ops.len(),
    decreases ops.len() - i,
{
    if i < ops.len() && !(ops[i].1 matches OpKind::Device { id, .. } && id == device) {
        lemma_device_op(ops, device, i + 1);
    }
}

/// An operation's outcome is reported once: when no two operations in
/// flight share an id, a second outcome for an operation that has finished
/// changes nothing and shows nothing.
pub proof fn lemma_outcome_reported_once(
    s: SpecWindow,
    op: OperationId,
    first: Result<OperationOutcome, AppError>,
    second: Result<OperationOutcome, AppError>,
    visible: bool,
)
    requires
        distinct_ops(s.ops),
    ensures
        finish(finish(s, op, first, visible).0, op, second, visible) == (finish(s, op, first, visible).0, Seq::<SpecEffect>::empty()),
{
    lemma_op_index(s.ops, op, 0);
    if let Some(k) = op_index_from(s.ops, op, 0) {
        lemma_op_gone(s.ops, k);
        assert(finish(s, op, first, visible).0.ops == s.ops.remove(k));
    }
}

/// The outcome of an operation that the user stopped waiting for is
/// ignored: when no two operations in flight share an id, it changes
/// nothing and shows nothing, whatever it is.
pub proof fn lemma_cancelled_outcome_ignored(
    s: SpecWindow,
    device: DeviceId,
    outcome: Result<OperationOutcome, AppError>,
    visible: bool,
)
    requires
        distinct_ops(s.ops),
    ensures
        cancelled(s, device).1 matches Some(op) ==> finish(cancelled(s, device).0, op, outcome, visible) == (
            cancelled(s, device).0,
            Seq::<SpecEffect>::empty(),
        ),
{
    lemma_device_op(s.ops, device, 0);
    if let Some(k) = device_op_from(s.ops, device, 0) {
        lemma_op_gone(s.ops, k);
    }
}

/// Starting an operation under an id that no operation in flight has keeps
/// the ids of the operations in flight distinct.
pub proof fn lemma_started_distinct(s: SpecWindow, op: OperationId, kind: OpKind)
    requires
        distinct_ops(s.ops),
        op_index_from(s.ops, op, 0) is None,
    ensures
        distinct_ops(started(s, op, kind).0.ops),
{
    lemma_op_index(s.ops, op, 0);
    let ops = s.ops.push((op, kind));
    assert(started(s, op, kind).0.ops == ops);
    assert forall|i: int, j: int| 0 <= i < j < ops.len() implies (#[trigger] ops[i]).0 != (#[trigger] ops[j]).0 by {
        if j == s.ops.len() {
            assert(ops[i] == s.ops[i]);
        } else {
            assert(ops[i] == s.ops[i]);
            assert(ops[j] == s.ops[j]);
        }
    }
}

// ---------------------------------------------------------------------------
// How the window's states are shown, before translation.

/// The icon and the label of the connection indicator.
pub open spec fn spec_indicator_presentation(i: Indicator) -> (Seq<char>, Seq<char>) {
    match i {
        Indicator::Checking => ("content-loading-symbolic"@, "Checking…"@),
        Indicator::Connected => ("emblem-ok-symbolic"@, "Connected"@),
        Indicator::ReadOnly => ("changes-prevent-symbolic"@, "Read-only"@),
        Indicator::Denied => ("dialog-warning-symbolic"@, "Access denied"@),
        Indicator::Disconnected => ("network-offline-symbolic"@, "Disconnected"@),
    }
}

/// The icon and the label of the connection indicator.
pub fn indicator_presentation(i: Indicator) -> (r: (&'static str, &'static str))
    ensures
        (r.0@, r.1@) == spec_indicator_presentation(i),
{
    match i {
        Indicator::Checking => ("content-loading-symbolic", "Checking…"),
        Indicator::Connected => ("emblem-ok-symbolic", "Connected"),
        Indicator::ReadOnly => ("changes-prevent-symbolic", "Read-only"),
        Indicator::Denied => ("dialog-warning-symbolic", "Access denied"),
        Indicator::Disconnected => ("network-offline-symbolic", "Disconnected"),
    }
}

/// The icon and the label of a device's state: never colour alone.
pub open spec fn spec_state_presentation(t: Target) -> (Seq<char>, Seq<char>) {
    match t {
        Target::Allow => ("emblem-ok-symbolic"@, "Allowed"@),
        Target::Block => ("action-unavailable-symbolic"@, "Blocked"@),
        Target::Reject => ("process-stop-symbolic"@, "Rejected"@),
        Target::Other(_) => ("dialog-question-symbolic"@, "Unknown"@),
    }
}

/// The icon and the label of a device's state.
pub fn state_presentation(t: Target) -> (r: (&'static str, &'static str))
    ensures
        (r.0@, r.1@) == spec_state_presentation(t),
{
    match t {
        Target::Allow => ("emblem-ok-symbolic", "Allowed"),
        Target::Block => ("action-unavailable-symbolic", "Blocked"),
        Target::Reject => ("process-stop-symbolic", "Rejected"),
        Target::Other(_) => ("dialog-question-symbolic", "Unknown"),
    }
}

/// What the row of a device with an operation in flight says.
pub open spec fn spec_pending_message(kind: PendingKind) -> Seq<char> {
    match kind {
        PendingKind::Started => "Working…"@,
        PendingKind::WaitingForAuthentication => "Waiting for authentication"@,
        PendingKind::PossiblyNoAgent => "Still waiting — is a Polkit agent running?"@,
    }
}

/// What the row of a device with an operation in flight says.
pub fn pending_message(kind: PendingKind) -> (r: &'static str)
    ensures
        r@ == spec_pending_message(kind),
{
    match kind {
        PendingKind::Started => "Working…",
        PendingKind::WaitingForAuthentication => "Waiting for authentication",
        PendingKind::PossiblyNoAgent => "Still waiting — is a Polkit agent running?",
    }
}

/// The message for a device operation that succeeded: whole sentences, not
/// assembled from pieces, since word order differs between languages. Its
/// placeholder is `{device}`.
pub open spec fn spec_device_done_template(policy: DevicePolicy, persistence: Persistence) -> Seq<char> {
    match (policy, persistence) {
        (DevicePolicy::Allow, Persistence::RuntimeOnly) => "Allowed “{device}” for this session"@,
        (DevicePolicy::Allow, Persistence::Permanent) => "Allowed “{device}” permanently"@,
        (DevicePolicy::Block, Persistence::RuntimeOnly) => "Blocked “{device}” for this session"@,
        (DevicePolicy::Block, Persistence::Permanent) => "Blocked “{device}” permanently"@,
        (DevicePolicy::Reject, Persistence::RuntimeOnly) => "Rejected “{device}” for this session"@,
        (DevicePolicy::Reject, Persistence::Permanent) => "Rejected “{device}” permanently"@,
    }
}

/// The message for a device operation that succeeded.
pub fn device_done_template(policy: DevicePolicy, persistence: Persistence) -> (r: &'static str)
    ensures
        r@ == spec_device_done_template(policy, persistence),
{
    match (policy, persistence) {
        (DevicePolicy::Allow, Persistence::RuntimeOnly) => "Allowed “{device}” for this session",
        (DevicePolicy::Allow, Persistence::Permanent) => "Allowed “{device}” permanently",
        (DevicePolicy::Block, Persistence::RuntimeOnly) => "Blocked “{device}” for this session",
        (DevicePolicy::Block, Persistence::Permanent) => "Blocked “{device}” permanently",
        (DevicePolicy::Reject, Persistence::RuntimeOnly) => "Rejected “{device}” for this session",
        (DevicePolicy::Reject, Persistence::Permanent) => "Rejected “{device}” permanently",
    }
}

/// What the status icon does when the `run-in-background` setting or the
/// icon itself changes.
#[derive(Debug, Clone, Copy, PartialEq, Eq, Structural)]
pub enum TrayChange {
    /// Register the icon.
    Start,
    /// Remove the icon.
    Stop,
    /// Nothing to do.
    Keep,
}

/// The icon is started when it is wanted and not running, and stopped when
/// it is not wanted.
pub open spec fn spec_tray_change(wanted: bool, running: bool) -> TrayChange {
    if wanted && !running {
        TrayChange::Start
    } else if !wanted && running {
        TrayChange::Stop
    } else {
        TrayChange::Keep
    }
}

/// What the status icon does.
pub fn tray_change(wanted: bool, running: bool) -> (r: TrayChange)
    ensures
        r == spec_tray_change(wanted, running),
{
    if wanted && !running {
        TrayChange::Start
    } else if !wanted && running {
        TrayChange::Stop
    } else {
        TrayChange::Keep
    }
}

/// The text of the one-time notice that the program keeps running in the
/// background: how to reopen it depends on whether there is a status icon.
/// Its placeholder is `{app}`.
pub open spec fn spec_background_notice(has_tray: bool) -> Seq<char> {
    if has_tray {
        "It will announce newly inserted devices. Use the status icon to reopen it or quit."@
    } else {
        "It will announce newly inserted devices. This desktop has no status icon area: open {app} again from the application menu to show the window, and quit from its main menu."@
    }
}

/// The text of the notice that the program keeps running in the background.
pub fn background_notice(has_tray: bool) -> (r: &'static str)
    ensures
        r@ == spec_background_notice(has_tray),
{
    if has_tray {
        "It will announce newly inserted devices. Use the status icon to reopen it or quit."
    } else {
        "It will announce newly inserted devices. This desktop has no status icon area: open {app} again from the application menu to show the window, and quit from its main menu."
    }
}

/// The preselected choice for device actions, from the stored
/// `default-persistence` setting: permanent for its second value, this
/// session only otherwise, and when no setting can be read.
pub fn persistence_of_setting(value: Option<i32>) -> (r: Persistence)
    ensures
        r == if value == Some(1i32) {
            Persistence::Permanent
        } else {
            Persistence::RuntimeOnly
        },
{
    match value {
        Some(1) => Persistence::Permanent,
        _ => Persistence::RuntimeOnly,
    }
}

} // verus!
