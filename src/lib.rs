//! Chronological merging of rotated per-service log files.
//!
//! The library holds the logic: it parses log lines, keeps them in a
//! deduplicated, time-ordered set, filters them by boot time and builds
//! the glob patterns and the follow command. Reading directories and files
//! and running processes is left to the caller.
use vstd::prelude::*;

pub mod stamp;
pub mod logline;
pub mod logset;
pub mod services;
pub mod files;

verus! {

} // verus!
