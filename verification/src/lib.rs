//! Galvanizer: a deduplicating, compressing backup store.
//!
//! The library holds the verified logic of the backup tool: the configuration model,
//! the path arithmetic that ties files of a backup root to their identifiers, the
//! snapshot data model, the content-addressed data store and the walkers that
//! decide what gets backed up and what gets restored.
pub mod paths;
pub mod outside_types;
pub mod text;
pub mod compression;
pub mod store_preferences;
pub mod globs;
pub mod root_preferences;
pub mod config;
pub mod root_definition;
pub mod keyed_map;
pub mod snapshots;
pub mod snapshot_walker;
pub mod digest;
pub mod store_error;
pub mod store_cache;
pub mod store;
pub mod root_walker;
pub mod pruning;
pub mod schemas;
pub mod cli;
