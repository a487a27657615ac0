//! Idempotent provisioning of local ephemeral instance-store disks.
//!
//! The library decides, from freshly observed machine state, exactly which
//! corrective actions must run to bring a node's local disks into the desired
//! configuration: either an LVM volume group or active swap devices.  All
//! decision logic lives here and is verified; the surrounding binary queries
//! the machine, hands the observations in as plain values, and carries out the
//! returned plan of actions one at a time, stopping at the first fatal step.

use vstd::prelude::*;

pub mod config;
pub mod lvm;
pub mod plan;
pub mod swap;
pub mod text;

verus! {

/// Cloud environment the node runs in; some corrective actions are only
/// available on specific providers.
#[derive(Clone, Copy, Debug, PartialEq, Eq, Structural)]
pub enum CloudProvider {
    Aws,
    Gcp,
    Azure,
    Generic,
}

/// The fatal conditions an orchestration run can end in.  Every one of them
/// aborts the run; the operator re-invokes the tool and relies on each
/// corrective action being idempotent.
#[derive(Clone, Copy, Debug, PartialEq, Eq, Structural)]
pub enum SetupError {
    /// The volume-group report had no first element or no group list.
    BadVgReport,
    /// The physical-volume report had no first element or no volume list.
    BadPvReport,
    /// A non-header line of the kernel swap table held no token.
    BadSwapTable,
    /// Taint removal was requested without a node name.
    NodeNameMissing,
    /// The config-patch swap-enablement strategy has no handler for this
    /// provider.
    UnsupportedProvider { provider: CloudProvider },
}

/// Environment variables to set on every spawned external command.
/// This is mostly useful in testing to point at mocks; the executor that
/// performs `Action::Run` steps applies these to each child process.
#[derive(Clone)]
pub struct Commander {
    pub envs: Vec<(String, String)>,
}

impl Default for Commander {
    /// A commander that passes the environment through unchanged.
    fn default() -> (c: Commander)
        ensures
            c.envs@.len() == 0,
    {
        Commander { envs: Vec::new() }
    }
}

} // verus!
