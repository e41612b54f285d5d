//! Brightness-argument mini-language and application engine.
//!
//! A single short token expresses a brightness mutation or query for one,
//! many, or all display devices.  This crate parses such tokens into typed
//! values, merges them into a prioritized command set, applies the resolved
//! commands to a device collection with isolated per-device failure handling,
//! and renders brightness values as text progress bars.

pub mod cli;
pub mod duration;
pub mod logger;
pub mod monitor;
pub mod parser;
pub mod progressbar;
pub mod text;

use vstd::prelude::*;

verus! {

} // verus!
