//! Arguments of the `prune` subcommand.
use vstd::prelude::*;

verus! {

/// What to prune.
#[derive(Debug)]
pub struct PruneArgs {
    pub command: PruneCommands,
}

#[derive(Debug, Clone, Copy, PartialEq, Eq, Structural)]
pub enum PruneCommands {
    /// Remove data that is not assigned to any of the snapshots
    UnusedData,
    /// Keeps last N snapshots
    KeepSnapshots { n: usize },
}

} // verus!
