//! The arguments of the command line's subcommands, as plain values.
pub mod list;
pub mod prune;
pub mod restore;
