//! The access model as data: which of the three checkpoints let us through.

use vstd::prelude::*;

verus! {

/// What the program has observed it may do.
///
/// Established by observation, not prediction: read capabilities are set on the
/// first successful call, write capabilities start optimistically `true` and
/// are cleared by the first denial.
#[derive(Debug, Clone, Copy, PartialEq, Eq, Structural, Hash)]
pub struct Capabilities {
    /// `listDevices` succeeded.
    pub list_devices: bool,
    /// `applyDevicePolicy` has not been denied.
    pub modify_devices: bool,
    /// `listRules` succeeded.
    pub list_rules: bool,
    /// `appendRule` / `removeRule` have not been denied.
    pub modify_rules: bool,
    /// `getParameter` succeeded (the probe).
    pub get_parameters: bool,
    /// `setParameter` has not been denied.
    pub set_parameters: bool,
}

impl Capabilities {
    /// Nothing read yet; every write optimistically assumed.
    pub open spec fn initial() -> Capabilities {
        Capabilities {
            list_devices: false,
            modify_devices: true,
            list_rules: false,
            modify_rules: true,
            get_parameters: false,
            set_parameters: true,
        }
    }

    /// True when at least one kind of write is still believed possible.
    pub fn can_write(self) -> (r: bool)
        ensures
            r == (self.modify_devices || self.modify_rules || self.set_parameters),
    {
        self.modify_devices || self.modify_rules || self.set_parameters
    }
}

impl Default for Capabilities {
    /// Nothing read yet; every write optimistically assumed.
    fn default() -> (r: Self)
        ensures
            r == Capabilities::initial(),
    {
        Capabilities {
            list_devices: false,
            modify_devices: true,
            list_rules: false,
            modify_rules: true,
            get_parameters: false,
            set_parameters: true,
        }
    }
}

/// Why the daemon is or is not reachable.
#[derive(Debug, Clone, PartialEq, Eq, Hash)]
pub enum AccessState {
    /// Reachable. `caps` says how much.
    Connected {
        /// What has been observed to work.
        caps: Capabilities,
    },
    /// No system bus in this session — usually a misconfigured container.
    BusUnavailable,
    /// The bridge package is not installed: the name is neither owned nor
    /// activatable.
    BridgeNotInstalled,
    /// The name is activatable but unowned: `usbguard-dbus.service` is not
    /// running. `daemon_running` is whether `usbguard.service` itself is
    /// active, when systemd could tell us.
    BridgeNotRunning {
        /// State of `usbguard.service`, if known.
        daemon_running: Option<bool>,
    },
    /// Rejected by the bus policy, before Polkit (checkpoint A).
    DeniedByBusPolicy,
    /// Rejected by Polkit (checkpoint B).
    DeniedByPolkit {
        /// The Polkit action, when the error named it.
        action: Option<String>,
    },
    /// Rejected by the daemon's IPC access control (checkpoint C).
    DeniedByIpcAcl,
    /// Polkit would prompt, but no authentication agent is running.
    NoPolkitAgent,
    /// Denied, and the origin could not be attributed. Every remedy is shown.
    DeniedUnattributed {
        /// The error text, for the report.
        detail: String,
    },
}

impl AccessState {
    /// The one-line summary of each state.
    pub open spec fn spec_summary(&self) -> Seq<char> {
        match self {
            AccessState::Connected { .. } => "connected"@,
            AccessState::BusUnavailable => "no system D-Bus"@,
            AccessState::BridgeNotInstalled => "the USBGuard D-Bus bridge is not installed"@,
            AccessState::BridgeNotRunning { .. } => "the USBGuard D-Bus bridge is not running"@,
            AccessState::DeniedByBusPolicy => "denied by the D-Bus bus policy"@,
            AccessState::DeniedByPolkit { .. } => "denied by Polkit"@,
            AccessState::DeniedByIpcAcl => "denied by the USBGuard IPC access control"@,
            AccessState::NoPolkitAgent => "no Polkit authentication agent is running"@,
            AccessState::DeniedUnattributed { .. } => "access denied"@,
        }
    }

    /// The four `Denied*` states and `NoPolkitAgent`.
    pub open spec fn spec_is_denied(&self) -> bool {
        ||| self is DeniedByBusPolicy
        ||| self is DeniedByPolkit
        ||| self is DeniedByIpcAcl
        ||| self is NoPolkitAgent
        ||| self is DeniedUnattributed
    }

    /// The full text: the summary, then the Polkit action or the error text
    /// when there is one.
    pub open spec fn spec_text(&self) -> Seq<char> {
        self.spec_summary() + match self {
            AccessState::DeniedByPolkit { action: Some(a) } => " ("@ + a@ + ")"@,
            AccessState::DeniedUnattributed { detail } => if detail@.len() > 0 {
                ": "@ + detail@
            } else {
                Seq::empty()
            },
            _ => Seq::empty(),
        }
    }

    /// A one-line summary for the header and for `--diagnose`.
    pub fn summary(&self) -> (r: &'static str)
        ensures
            r@ == self.spec_summary(),
    {
        match self {
            AccessState::Connected { .. } => "connected",
            AccessState::BusUnavailable => "no system D-Bus",
            AccessState::BridgeNotInstalled => "the USBGuard D-Bus bridge is not installed",
            AccessState::BridgeNotRunning { .. } => "the USBGuard D-Bus bridge is not running",
            AccessState::DeniedByBusPolicy => "denied by the D-Bus bus policy",
            AccessState::DeniedByPolkit { .. } => "denied by Polkit",
            AccessState::DeniedByIpcAcl => "denied by the USBGuard IPC access control",
            AccessState::NoPolkitAgent => "no Polkit authentication agent is running",
            AccessState::DeniedUnattributed { .. } => "access denied",
        }
    }

    /// True for the four `Denied*` states and `NoPolkitAgent`.
    pub fn is_denied(&self) -> (r: bool)
        ensures
            r == self.spec_is_denied(),
    {
        match self {
            AccessState::DeniedByBusPolicy => true,
            AccessState::DeniedByPolkit { .. } => true,
            AccessState::DeniedByIpcAcl => true,
            AccessState::NoPolkitAgent => true,
            AccessState::DeniedUnattributed { .. } => true,
            _ => false,
        }
    }

    /// The state as `Display` shows it.
    pub fn to_string(&self) -> (r: String)
        ensures
            r@ == self.spec_text(),
    {
        let mut s = String::from_str(self.summary());
        match self {
            AccessState::DeniedByPolkit { action: Some(a) } => {
                s.append(" (");
                s.append(a.as_str());
                s.append(")");
            },
            AccessState::DeniedUnattributed { detail } => {
                if !detail.as_str().is_empty() {
                    s.append(": ");
                    s.append(detail.as_str());
                }
            },
            _ => {},
        }
        assert(s@ =~= self.spec_text());
        s
    }

    /// A copy of the state.
    pub fn duplicate(&self) -> (r: Self)
        ensures
            r == *self,
    {
        match self {
            AccessState::Connected { caps } => AccessState::Connected { caps: *caps },
            AccessState::BusUnavailable => AccessState::BusUnavailable,
            AccessState::BridgeNotInstalled => AccessState::BridgeNotInstalled,
            AccessState::BridgeNotRunning { daemon_running } => AccessState::BridgeNotRunning {
                daemon_running: *daemon_running,
            },
            AccessState::DeniedByBusPolicy => AccessState::DeniedByBusPolicy,
            AccessState::DeniedByPolkit { action } => AccessState::DeniedByPolkit {
                action: match action {
                    Some(a) => Some(a.clone()),
                    None => None,
                },
            },
            AccessState::DeniedByIpcAcl => AccessState::DeniedByIpcAcl,
            AccessState::NoPolkitAgent => AccessState::NoPolkitAgent,
            AccessState::DeniedUnattributed { detail } => AccessState::DeniedUnattributed { detail: detail.clone() },
        }
    }
}

} // verus!
