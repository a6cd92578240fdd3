//! One file's contribution to a snapshot being built.
use vstd::prelude::*;
use crate::root_definition::RootDefinition;
use crate::snapshots::shapshot_entry::SnapshotEntry;

verus! {

/// The entry of the file `file_id` of `root`.
pub struct SnapshotDelta {
    pub root: RootDefinition,
    pub file_id: String,
    pub entry: SnapshotEntry,
}

} // verus!
