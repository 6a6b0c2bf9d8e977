//! Prepares a freshly booted worker node's local NVMe storage and then clears
//! the node's scheduling-block taint.
//!
//! The library holds the decision logic: cloud-specific disk detection over a
//! block-device inventory, idempotent planning of volume-group and swap setup
//! commands, and the optimistic-concurrency protocol that removes the taint.
//! Running external commands and talking to the cluster API are left to the
//! surrounding binary, which feeds observations in and carries planned actions
//! out.

use vstd::prelude::*;

pub mod detect;
pub mod lvm;
pub mod remove_taint;
pub mod swap;
pub mod text;

verus! {

/// Which cloud environment the node runs in; selects the detection algorithm.
#[derive(Clone, Copy, Debug, PartialEq, Eq, Structural)]
pub enum CloudProvider {
    Aws,
    Gcp,
    Azure,
    Generic,
}

/// A fatal condition that the process must surface with a non-zero exit.
#[derive(Clone, Copy, Debug, PartialEq, Eq, Structural)]
pub enum SetupError {
    /// No eligible ephemeral device was found: a deployment misconfiguration.
    DetectionEmpty,
    /// The bounded taint-removal retry loop ran out of attempts.
    TaintRetriesExhausted,
}

} // verus!
