//! The decisions behind everything that talks to the USBGuard D-Bus bridge.
//!
//! | Module        | Role                                                        |
//! |---------------|-------------------------------------------------------------|
//! | `client`      | Handles from `listRules`, resolving a rule by its text      |
//! | `errors`      | D-Bus errors → `AppError` / `AccessState`                   |
//! | `coalesce`    | Burst merging                                               |
//! | `worker`      | What each incoming signal leads to                          |
//! | `supervisor`  | Restart and reconnection with backoff                       |
//! | `commands`    | Operation ids and the notices of operations in flight       |
//! | `diagnostics` | What each answer of the access probe means                  |
//!
//! The calls on the bus are made by the program around this library.

pub mod client;
pub mod coalesce;
pub mod commands;
pub mod diagnostics;
pub mod errors;
pub mod supervisor;
pub mod worker;
