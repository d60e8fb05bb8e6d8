//! USBGuard GUI: the rule language, the device model, the access
//! diagnostics and the window's decisions of an unprivileged desktop client
//! for the USBGuard daemon.

use vstd::prelude::*;

pub mod text;

pub mod cli;

pub mod dbus;
pub mod device_store;
pub mod i18n;
pub mod presentation;
pub mod remedy;
pub mod model;
pub mod rules;

pub mod announce;
pub mod policy_page;
pub mod rule_form;
pub mod window;

verus! {

/// The crate version.
pub const VERSION: &'static str = "0.1.0";

} // verus!
