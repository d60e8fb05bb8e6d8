//! Turning D-Bus errors into [`AppError`] and [`AccessState`].
//!
//! Classification works on a plain [`ErrorShape`] — an error name and its
//! message — rather than on the bus library's error type, so every branch is
//! stated and checked without having to fabricate a D-Bus reply.
//!
//! Matching on error text is fragile by construction. It is a user-experience
//! optimization, never a correctness requirement: `DeniedUnattributed` is a
//! complete, correct outcome that shows every remedy instead of guessing one.

use vstd::prelude::*;
use crate::model::access::AccessState;
use crate::model::device::opt_text;
use crate::model::error::AppError;
use crate::text::{ascii_lowercase, contains_chars, has_substring, lowercase, str_eq};

verus! {

/// The parts of a D-Bus error that classification looks at.
#[derive(Debug, Clone, PartialEq, Eq)]
pub struct ErrorShape {
    /// The D-Bus error name, when the error came from the bus or a peer.
    /// `None` for local errors (I/O, handshake, …).
    pub name: Option<String>,
    /// The human-readable message.
    pub detail: String,
}

/// The bus or a peer refused the call.
pub const ACCESS_DENIED: &'static str = "org.freedesktop.DBus.Error.AccessDenied";

/// Authentication failed.
pub const AUTH_FAILED: &'static str = "org.freedesktop.DBus.Error.AuthFailed";

/// The call needs interactive authorization.
pub const INTERACTIVE_AUTH: &'static str = "org.freedesktop.DBus.Error.InteractiveAuthorizationRequired";

/// A generic failure; the bridge reports daemon exceptions under it.
pub const FAILED: &'static str = "org.freedesktop.DBus.Error.Failed";

/// No service owns or can activate the name.
pub const SERVICE_UNKNOWN: &'static str = "org.freedesktop.DBus.Error.ServiceUnknown";

/// The name is not owned.
pub const NAME_HAS_NO_OWNER: &'static str = "org.freedesktop.DBus.Error.NameHasNoOwner";

/// The peer did not answer in time.
pub const NO_REPLY: &'static str = "org.freedesktop.DBus.Error.NoReply";

/// The connection is closed.
pub const DISCONNECTED: &'static str = "org.freedesktop.DBus.Error.Disconnected";

/// The activated service exited.
pub const CHILD_EXITED: &'static str = "org.freedesktop.DBus.Error.Spawn.ChildExited";

/// The error names that mean the bridge cannot be reached at all.
pub open spec fn is_unreachable_name(n: Seq<char>) -> bool {
    ||| n == SERVICE_UNKNOWN@
    ||| n == NAME_HAS_NO_OWNER@
    ||| n == NO_REPLY@
    ||| n == DISCONNECTED@
    ||| n == CHILD_EXITED@
}

/// The error names under which the bus or Polkit refuse a call.
pub open spec fn is_denial_name(n: Seq<char>) -> bool {
    n == ACCESS_DENIED@ || n == AUTH_FAILED@ || n == INTERACTIVE_AUTH@
}

/// Phrases the bus daemon uses when its policy refuses a message.
/// dbus-daemon says "Rejected send message"; dbus-broker says the sender
/// "is not allowed to send". Both are checked before the Polkit phrase, which
/// dbus-broker's wording can otherwise resemble.
pub open spec fn has_bus_policy_phrase(text: Seq<char>) -> bool {
    ||| has_substring(text, "rejected send message"@)
    ||| has_substring(text, "not allowed to send"@)
    ||| has_substring(text, "is not authorized to send"@)
}

/// The wording of a Polkit refusal: the bridge answers one with exactly
/// "Not authorized.".
pub open spec fn has_polkit_phrase(text: Seq<char>) -> bool {
    has_substring(text, "not authorized"@) || has_substring(text, "polkit"@)
}

/// The daemon's own access control surfaces through the bridge as a generic
/// `Failed` (or `AccessDenied`) whose message is the IPC exception, with one
/// of the permission phrases that the IPC server reports.
pub open spec fn is_ipc_acl_text(n: Seq<char>, lowercase_detail: Seq<char>) -> bool {
    &&& (n == FAILED@ || n == ACCESS_DENIED@)
    &&& has_substring(lowercase_detail, "ipc"@)
    &&& {
        ||| has_substring(lowercase_detail, "permission"@)
        ||| has_substring(lowercase_detail, "access control"@)
        ||| has_substring(lowercase_detail, "not allowed"@)
        ||| has_substring(lowercase_detail, "denied"@)
    }
}

/// Which checkpoint an error is attributed to.
pub enum Attribution {
    /// The bridge is not on the bus.
    Unreachable,
    /// The daemon's IPC access control.
    IpcAcl,
    /// The bus policy.
    BusPolicy,
    /// Polkit, with no authentication agent running.
    NoAgent,
    /// Polkit.
    Polkit,
    /// Nothing the text allows to tell.
    Unattributed,
}

/// The attribution of an error with this name and message. `agent_present`
/// is whether a Polkit agent runs, when that is known.
pub open spec fn attribution(name: Option<Seq<char>>, detail: Seq<char>, agent_present: Option<bool>) -> Attribution {
    let text = lowercase(detail);
    match name {
        None => Attribution::Unattributed,
        Some(n) => if is_unreachable_name(n) {
            Attribution::Unreachable
        } else if is_ipc_acl_text(n, text) {
            Attribution::IpcAcl
        } else if is_denial_name(n) {
            if has_bus_policy_phrase(text) {
                Attribution::BusPolicy
            } else if has_polkit_phrase(text) {
                if agent_present == Some(false) {
                    Attribution::NoAgent
                } else {
                    Attribution::Polkit
                }
            } else {
                Attribution::Unattributed
            }
        } else {
            Attribution::Unattributed
        },
    }
}

/// `r` is the access state of the attribution `a`, for an error with this
/// message.
pub open spec fn state_of(a: Attribution, detail: Seq<char>, r: AccessState) -> bool {
    match a {
        Attribution::Unreachable => r == AccessState::BridgeNotRunning { daemon_running: None },
        Attribution::IpcAcl => r == AccessState::DeniedByIpcAcl,
        Attribution::BusPolicy => r == AccessState::DeniedByBusPolicy,
        Attribution::NoAgent => r == AccessState::NoPolkitAgent,
        Attribution::Polkit => r == AccessState::DeniedByPolkit { action: None },
        Attribution::Unattributed => r matches AccessState::DeniedUnattributed { detail: d } && d@ == detail,
    }
}

/// `name`, a colon and a space, then `detail`.
pub open spec fn named_detail(name: Seq<char>, detail: Seq<char>) -> Seq<char> {
    name + ": "@ + detail
}

/// `r` is the application error for an error with this name and message.
pub open spec fn app_error_of(
    name: Option<Seq<char>>,
    detail: Seq<char>,
    agent_present: Option<bool>,
    r: AppError,
) -> bool {
    match name {
        None => r matches AppError::Unreachable(s) && s@ == detail,
        Some(n) => if is_unreachable_name(n) {
            r matches AppError::Unreachable(s) && s@ == named_detail(n, detail)
        } else if attribution(name, detail, agent_present) is Unattributed && n == FAILED@ {
            r matches AppError::Rejected(s) && s@ == detail
        } else if attribution(name, detail, agent_present) is Unattributed && !is_denial_name(n) {
            r matches AppError::Rejected(s) && s@ == named_detail(n, detail)
        } else {
            r matches AppError::Denied(st) && state_of(attribution(name, detail, agent_present), detail, st)
        },
    }
}

fn is_unreachable(name: &str) -> (r: bool)
    ensures
        r == is_unreachable_name(name@),
{
    str_eq(name, SERVICE_UNKNOWN) || str_eq(name, NAME_HAS_NO_OWNER) || str_eq(name, NO_REPLY)
        || str_eq(name, DISCONNECTED) || str_eq(name, CHILD_EXITED)
}

fn is_denial(name: &str) -> (r: bool)
    ensures
        r == is_denial_name(name@),
{
    str_eq(name, ACCESS_DENIED) || str_eq(name, AUTH_FAILED) || str_eq(name, INTERACTIVE_AUTH)
}

/// The daemon's own access control surfaces through the bridge as a generic
/// `Failed` whose message is the IPC exception. The permission phrases are
/// what the IPC server reports; `RuleParserError` and the like are ordinary
/// rejections and must not be confused with them.
fn is_ipc_acl_denial(name: &str, lowercase_detail: &Vec<char>) -> (r: bool)
    ensures
        r == is_ipc_acl_text(name@, lowercase_detail@),
{
    (str_eq(name, FAILED) || str_eq(name, ACCESS_DENIED)) && contains_chars(lowercase_detail, "ipc") && (
    contains_chars(lowercase_detail, "permission") || contains_chars(lowercase_detail, "access control")
        || contains_chars(lowercase_detail, "not allowed") || contains_chars(lowercase_detail, "denied"))
}

/// Classifies a denial. `agent_present` is whether a Polkit agent runs:
/// `Some(false)` turns a Polkit refusal into [`AccessState::NoPolkitAgent`].
pub fn classify(err: &ErrorShape, agent_present: Option<bool>) -> (r: AccessState)
    ensures
        state_of(attribution(opt_text(err.name), err.detail@, agent_present), err.detail@, r),
{
    let text = ascii_lowercase(err.detail.as_str());
    let name = match &err.name {
        None => {
            return AccessState::DeniedUnattributed { detail: err.detail.clone() };
        },
        Some(n) => n.as_str(),
    };
    if is_unreachable(name) {
        return AccessState::BridgeNotRunning { daemon_running: None };
    }
    if is_ipc_acl_denial(name, &text) {
        return AccessState::DeniedByIpcAcl;
    }
    if is_denial(name) {
        if contains_chars(&text, "rejected send message") || contains_chars(&text, "not allowed to send")
            || contains_chars(&text, "is not authorized to send") {
            // Bus-level rejection: the message never reached the bridge.
            AccessState::DeniedByBusPolicy
        } else if contains_chars(&text, "not authorized") || contains_chars(&text, "polkit") {
            match agent_present {
                Some(false) => AccessState::NoPolkitAgent,
                _ => AccessState::DeniedByPolkit { action: None },
            }
        } else {
            AccessState::DeniedUnattributed { detail: err.detail.clone() }
        }
    } else {
        AccessState::DeniedUnattributed { detail: err.detail.clone() }
    }
}

/// `name: detail`.
fn join_named(name: &str, detail: &str) -> (r: String)
    ensures
        r@ == named_detail(name@, detail@),
{
    let mut s = String::from_str(name);
    s.append(": ");
    s.append(detail);
    s
}

/// Maps a D-Bus error to the error taxonomy.
pub fn to_app_error(err: &ErrorShape, agent_present: Option<bool>) -> (r: AppError)
    ensures
        app_error_of(opt_text(err.name), err.detail@, agent_present, r),
{
    let name = match &err.name {
        None => {
            return AppError::Unreachable(err.detail.clone());
        },
        Some(n) => n.as_str(),
    };
    if is_unreachable(name) {
        return AppError::Unreachable(join_named(name, err.detail.as_str()));
    }
    let state = classify(err, agent_present);
    let unattributed = match &state {
        AccessState::DeniedUnattributed { .. } => true,
        _ => false,
    };
    if unattributed && str_eq(name, FAILED) {
        AppError::Rejected(err.detail.clone())
    } else if unattributed && !is_denial(name) {
        AppError::Rejected(join_named(name, err.detail.as_str()))
    } else {
        AppError::Denied(state)
    }
}

/// A refusal worded by the bus daemon is a bus-policy refusal, whatever else
/// its message says: an error under a denial name whose message (in any
/// case) carries "rejected send message" (dbus-daemon), "not allowed to
/// send" or "is not authorized to send" (dbus-broker) is classified as
/// `DeniedByBusPolicy` — never as a Polkit refusal, although dbus-broker's
/// "is not authorized" also reads like Polkit's "Not authorized." — unless
/// the message is the daemon's own IPC access control.
pub proof fn lemma_bus_policy_wording_wins(name: Seq<char>, detail: Seq<char>, agent_present: Option<bool>, r: AccessState)
    requires
        name == ACCESS_DENIED@ || name == AUTH_FAILED@ || name == INTERACTIVE_AUTH@,
        !is_ipc_acl_text(name, lowercase(detail)),
        has_substring(lowercase(detail), "rejected send message"@) || has_substring(lowercase(detail), "not allowed to send"@)
            || has_substring(lowercase(detail), "is not authorized to send"@),
    ensures
        state_of(attribution(Some(name), detail, agent_present), detail, r) <==> r == AccessState::DeniedByBusPolicy,
{
    lemma_denial_names_reachable(name);
}

proof fn lemma_denial_names_reachable(name: Seq<char>)
    requires
        name == ACCESS_DENIED@ || name == AUTH_FAILED@ || name == INTERACTIVE_AUTH@,
    ensures
        !is_unreachable_name(name),
{
    reveal_strlit("org.freedesktop.DBus.Error.AccessDenied");
    reveal_strlit("org.freedesktop.DBus.Error.AuthFailed");
    reveal_strlit("org.freedesktop.DBus.Error.InteractiveAuthorizationRequired");
    reveal_strlit("org.freedesktop.DBus.Error.ServiceUnknown");
    reveal_strlit("org.freedesktop.DBus.Error.NameHasNoOwner");
    reveal_strlit("org.freedesktop.DBus.Error.NoReply");
    reveal_strlit("org.freedesktop.DBus.Error.Disconnected");
    reveal_strlit("org.freedesktop.DBus.Error.Spawn.ChildExited");
    assert(name[27] != SERVICE_UNKNOWN@[27] || name[28] != SERVICE_UNKNOWN@[28]);
    assert(name[27] != NAME_HAS_NO_OWNER@[27]);
    assert(name[27] != NO_REPLY@[27]);
    assert(name[27] != DISCONNECTED@[27]);
    assert(name[27] != CHILD_EXITED@[27] || name[28] != CHILD_EXITED@[28]);
}

/// A refusal worded by Polkit, and not by the bus daemon, is a Polkit
/// refusal: an error under a denial name whose message (in any case) says
/// "not authorized" or names Polkit, without any of the bus daemon's
/// phrases, is `NoPolkitAgent` when no agent runs, and `DeniedByPolkit`
/// otherwise.
pub proof fn lemma_polkit_wording(name: Seq<char>, detail: Seq<char>, agent_present: Option<bool>, r: AccessState)
    requires
        name == ACCESS_DENIED@ || name == AUTH_FAILED@ || name == INTERACTIVE_AUTH@,
        !is_ipc_acl_text(name, lowercase(detail)),
        !has_substring(lowercase(detail), "rejected send message"@),
        !has_substring(lowercase(detail), "not allowed to send"@),
        !has_substring(lowercase(detail), "is not authorized to send"@),
        has_substring(lowercase(detail), "not authorized"@) || has_substring(lowercase(detail), "polkit"@),
    ensures
        state_of(attribution(Some(name), detail, agent_present), detail, r) <==> r == if agent_present == Some(false) {
            AccessState::NoPolkitAgent
        } else {
            AccessState::DeniedByPolkit { action: None }
        },
{
    lemma_denial_names_reachable(name);
}

} // verus!
