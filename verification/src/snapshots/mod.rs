//! Snapshots: for each root, the stored contents and modification time of each file.
pub mod shapshot_delta;
pub mod shapshot_entry;
pub mod snapshot;
pub mod snapshot_io;
pub mod snapshot_builder;
