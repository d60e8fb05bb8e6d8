//! Domain types shared across the application.
//!
//! `model` depends on nothing else in the program, so everything here is
//! testable without a bus or a display.

pub mod access;
pub mod device;
pub mod error;
pub mod event;
pub mod ids;
pub mod parameter;
pub mod rule;
pub mod target;
