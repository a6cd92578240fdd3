//! Arguments of the `list` subcommand, in the layout where every listing names its snapshot.
use vstd::prelude::*;

verus! {

/// What to list.
#[derive(Debug)]
pub struct ListArgs {
    pub command: ListCommands,
}

#[derive(Debug)]
pub enum ListCommands {
    /// List all snapshots
    Snapshots,
    /// List all roots of a given snapshot
    Roots { snapshot_id: String },
    /// List all files from a root in a snapshot
    File { snapshot_id: String, root_id: String },
}

} // verus!
