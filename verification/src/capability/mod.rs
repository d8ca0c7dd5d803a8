//! Capability model: typed capability tokens and their access rights.
//!
//! Agents start with zero capabilities and must be granted each one;
//! a holder can hand out a subset of its rights but never escalate;
//! the kernel can revoke any capability at any time.

pub mod types;

pub use types::{
    CapAgent, CapDevice, CapExec, CapFS, CapIO, CapIRQ, CapId, CapIdCounter, CapMemory, CapNet,
    Capability, Rights,
};

use vstd::prelude::*;

verus! {

/// Initialize the capability subsystem. The capability types need no
/// run-time set-up; the capability table is created by `CapTable::new`.
pub fn init() {
}

} // verus!
