//! Command line arguments in the form where every listing names its snapshot.
pub mod list;
