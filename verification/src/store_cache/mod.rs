//! The content-addressed part of the store: which hashes it holds, and how
//! contents go in and come back out.
pub mod hash_db;
pub mod file_io;
