//! The decisions of the access probe sequence.
//!
//! The probes run in order, stopping at the first failure:
//!
//! | # | Question                              | Outcome on failure                     |
//! |---|---------------------------------------|----------------------------------------|
//! | 1 | Is there a system bus?                | `BusUnavailable`                       |
//! | 2 | Is `org.usbguard1` owned/activatable? | `BridgeNotInstalled`                   |
//! | 3 | Is a Polkit agent running?            | recorded; explains a later denial      |
//! | 4 | Can we read a parameter?              | → 5                                    |
//! | 5 | Which checkpoint denied it?           | a `Denied*` state                      |
//! | 6 | Can we write?                         | **not probed** — only a write can tell |
//!
//! The calls themselves are made by the program around this library; what
//! each answer means is decided here.

use vstd::prelude::*;
use crate::dbus::errors::{attribution, classify, state_of, Attribution, ErrorShape};
use crate::model::access::{AccessState, Capabilities};
use crate::model::device::opt_text;
use crate::model::error::AppError;
use crate::text::{
    all_digits, chars_eq, contains_chars, has_substring, is_digit, str_bytes, str_eq, trim_end_chars,
    trim_end_white_space,
};

verus! {

/// What the bridge's interface says about the daemon's API level.
#[derive(Debug, Clone, Copy, PartialEq, Eq, Structural)]
pub enum ApiLevel {
    /// `appendRule` takes `temporary`: USBGuard 1.1.0 or later.
    AtLeast1_1,
    /// `appendRule` has no `temporary`: older than 1.1.0. Runtime-only rules
    /// cannot be offered.
    Before1_1,
}

/// Everything the probe learned, for the diagnostic panel and `--diagnose`.
#[derive(Debug, Clone, PartialEq, Eq)]
pub struct ProbeReport {
    /// The outcome.
    pub state: AccessState,
    /// Whether the bridge name had an owner before probing.
    pub bridge_owned: Option<bool>,
    /// Whether the bridge is D-Bus activatable (installed).
    pub bridge_activatable: Option<bool>,
    /// Whether `usbguard.service` is active, per systemd.
    pub daemon_running: Option<bool>,
    /// Probe 3: a known Polkit agent is running in this session.
    pub agent_present: Option<bool>,
    /// The daemon's API level, when reachable.
    pub api: Option<ApiLevel>,
    /// `ImplicitPolicyTarget`, when readable.
    pub implicit_policy_target: Option<String>,
}

impl ProbeReport {
    /// A report with this outcome and nothing else learned.
    pub fn new(state: AccessState) -> (r: Self)
        ensures
            r.state == state,
            r.bridge_owned is None,
            r.bridge_activatable is None,
            r.daemon_running is None,
            r.agent_present is None,
            r.api is None,
            r.implicit_policy_target is None,
    {
        ProbeReport {
            state,
            bridge_owned: None,
            bridge_activatable: None,
            daemon_running: None,
            agent_present: None,
            api: None,
            implicit_policy_target: None,
        }
    }
}

/// Probe 2: neither owned nor activatable means not installed. The D-Bus
/// service file that makes the name activatable is installed by the bridge
/// package and nothing else. An unknown answer proves nothing.
pub fn bridge_not_installed(owned: Option<bool>, activatable: Option<bool>) -> (r: bool)
    ensures
        r == (owned == Some(false) && activatable == Some(false)),
{
    match (owned, activatable) {
        (Some(false), Some(false)) => true,
        _ => false,
    }
}

/// What a successful parameter read tells: the daemon is reachable and
/// parameters can be read; nothing is known yet of the writes.
pub open spec fn readable_caps() -> Capabilities {
    Capabilities { get_parameters: true, ..Capabilities::initial() }
}

/// Probes 4 and 5: the state implied by the outcome of reading a parameter.
/// A failure is classified; an unreachable bridge carries what systemd said
/// of the daemon.
pub fn state_after_read(
    outcome: &Result<String, ErrorShape>,
    agent_present: Option<bool>,
    daemon_running: Option<bool>,
) -> (r: AccessState)
    ensures
        outcome is Ok ==> r == (AccessState::Connected { caps: readable_caps() }),
        outcome matches Err(e) ==> (match attribution(opt_text(e.name), e.detail@, agent_present) {
            Attribution::Unreachable => r == (AccessState::BridgeNotRunning { daemon_running }),
            a => state_of(a, e.detail@, r),
        }),
{
    match outcome {
        Ok(_) => {
            let caps = Capabilities {
                list_devices: false,
                modify_devices: true,
                list_rules: false,
                modify_rules: true,
                get_parameters: true,
                set_parameters: true,
            };
            AccessState::Connected { caps }
        },
        Err(e) => {
            let state = classify(e, agent_present);
            match state {
                AccessState::BridgeNotRunning { .. } => AccessState::BridgeNotRunning { daemon_running },
                other => other,
            }
        },
    }
}

/// The API level the bridge's introspection data shows: `appendRule` has a
/// `temporary` argument from USBGuard 1.1.0 on.
pub fn api_level_of(introspection: &str) -> (r: ApiLevel)
    ensures
        r == if has_substring(introspection@, "name=\"temporary\""@) {
            ApiLevel::AtLeast1_1
        } else {
            ApiLevel::Before1_1
        },
{
    let text = crate::text::chars_of(introspection);
    if contains_chars(&text, "name=\"temporary\"") {
        ApiLevel::AtLeast1_1
    } else {
        ApiLevel::Before1_1
    }
}

/// A systemd `ActiveState` that counts as running.
pub fn unit_state_active(active_state: &str) -> (r: bool)
    ensures
        r == (active_state@ == "active"@ || active_state@ == "reloading"@),
{
    str_eq(active_state, "active") || str_eq(active_state, "reloading")
}

/// A `/proc` entry that is a process: its name is all ASCII digits.
pub fn is_process_entry(name: &str) -> (r: bool)
    ensures
        r == all_digits(str_bytes(name)),
{
    let b = name.as_bytes();
    let mut i: usize = 0;
    while i < b.len()
        invariant
            b@ == str_bytes(name),
            i <= b@.len(),
            forall|j: int| 0 <= j < i ==> is_digit(b@[j]),
        decreases b@.len() - i,
    {
        if !(b[i] >= 48 && b[i] <= 57) {
            assert(!is_digit(str_bytes(name)[i as int]));
            return false;
        }
        i = i + 1;
    }
    assert(all_digits(str_bytes(name)));
    true
}

/// Process names (as `/proc/<pid>/comm` shows them, truncated to 15 bytes)
/// of known Polkit authentication agents, including desktop shells that embed
/// one.
pub open spec fn is_known_agent_name(n: Seq<char>) -> bool {
    ||| n == "gnome-shell"@
    ||| n == "polkit-gnome-au"@
    ||| n == "polkit-kde-auth"@
    ||| n == "polkit-mate-aut"@
    ||| n == "mate-polkit"@
    ||| n == "lxpolkit"@
    ||| n == "lxqt-policykit-"@
    ||| n == "xfce-polkit"@
    ||| n == "hyprpolkitagent"@
    ||| n == "cinnamon"@
    ||| n == "budgie-polkit-d"@
    ||| n == "pantheon-agent-"@
    ||| n == "cosmic-osd"@
    ||| n == "soteria"@
    ||| n == "ukui-polkit"@
    ||| n == "deepin-polkit-a"@
    ||| n == "phosh"@
}

/// Probe 3, for one process: whether its `comm` file names a known Polkit
/// agent. Polkit offers an unprivileged process no way to ask whether an
/// agent is registered, so the probe is a heuristic over process names.
pub fn is_known_agent(comm: &str) -> (r: bool)
    ensures
        r == is_known_agent_name(trim_end_white_space(comm@)),
{
    let n = trim_end_chars(comm);
    chars_eq(&n, "gnome-shell") || chars_eq(&n, "polkit-gnome-au") || chars_eq(&n, "polkit-kde-auth")
        || chars_eq(&n, "polkit-mate-aut") || chars_eq(&n, "mate-polkit") || chars_eq(&n, "lxpolkit")
        || chars_eq(&n, "lxqt-policykit-") || chars_eq(&n, "xfce-polkit") || chars_eq(&n, "hyprpolkitagent")
        || chars_eq(&n, "cinnamon") || chars_eq(&n, "budgie-polkit-d") || chars_eq(&n, "pantheon-agent-")
        || chars_eq(&n, "cosmic-osd") || chars_eq(&n, "soteria") || chars_eq(&n, "ukui-polkit")
        || chars_eq(&n, "deepin-polkit-a") || chars_eq(&n, "phosh")
}

/// The `--diagnose` exit code of each probe outcome.
pub open spec fn spec_exit_code(state: AccessState) -> u8 {
    match state {
        AccessState::Connected { .. } => 0,
        AccessState::BusUnavailable => 5,
        AccessState::BridgeNotInstalled => 4,
        AccessState::BridgeNotRunning { .. } => 4,
        AccessState::DeniedByBusPolicy => 3,
        AccessState::DeniedByPolkit { .. } => 3,
        AccessState::DeniedByIpcAcl => 3,
        AccessState::NoPolkitAgent => 3,
        AccessState::DeniedUnattributed { .. } => 3,
    }
}

/// Maps the probe outcome to the `--diagnose` exit codes: 0 reachable, 3
/// denied, 4 bridge missing or stopped, 5 no system bus.
pub fn exit_code(state: &AccessState) -> (r: u8)
    ensures
        r == spec_exit_code(*state),
{
    match state {
        AccessState::Connected { .. } => 0,
        AccessState::BusUnavailable => 5,
        AccessState::BridgeNotInstalled => 4,
        AccessState::BridgeNotRunning { .. } => 4,
        AccessState::DeniedByBusPolicy => 3,
        AccessState::DeniedByPolkit { .. } => 3,
        AccessState::DeniedByIpcAcl => 3,
        AccessState::NoPolkitAgent => 3,
        AccessState::DeniedUnattributed { .. } => 3,
    }
}

/// Every denial, and only a denial, exits with code 3.
pub proof fn lemma_denials_exit_3(state: AccessState)
    ensures
        (spec_exit_code(state) == 3) == state.spec_is_denied(),
{
}

/// Converts an operation error into the access state it implies, if any, so
/// a denied write can update the diagnostic panel.
pub fn state_from_error(err: &AppError) -> (r: Option<AccessState>)
    ensures
        r == match err {
            AppError::Denied(state) => Some(*state),
            _ => None,
        },
{
    match err {
        AppError::Denied(state) => Some(state.duplicate()),
        _ => None,
    }
}

} // verus!
