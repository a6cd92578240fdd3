//! Error types of std and of outside crates that the library carries in its own
//! error values. They are opaque: the library never looks inside them.
use vstd::prelude::*;

verus! {

/// `std::io::Error`, carried by the errors of operations that touch the disk.
#[verifier::external_type_specification]
#[verifier::external_body]
pub struct ExIoError(std::io::Error);

/// `globset::Error`, the error of an invalid glob pattern or glob set.
#[verifier::external_type_specification]
#[verifier::external_body]
pub struct ExGlobError(globset::Error);

/// `walkdir::Error`, the error of a directory traversal.
#[verifier::external_type_specification]
#[verifier::external_body]
pub struct ExWalkDirError(walkdir::Error);

/// `chrono::ParseError`, the error of parsing a date against a format.
#[verifier::external_type_specification]
#[verifier::external_body]
pub struct ExChronoParseError(chrono::ParseError);

/// `toml::ser::Error`, the error of writing a value as TOML.
#[verifier::external_type_specification]
#[verifier::external_body]
pub struct ExTomlSerError(toml::ser::Error);

/// `toml::de::Error`, the error of reading a value from TOML.
#[verifier::external_type_specification]
#[verifier::external_body]
pub struct ExTomlDeError(toml::de::Error);

} // verus!
