//! Errors of the store.
use vstd::prelude::*;
use crate::config::ConfigError;

verus! {

/// Why contents could not be put into, or taken out of, the store.
#[derive(Debug)]
pub enum CacheHandlerError {
    FailedToGetCacheLocation(ConfigError),
    FailedToOpenFile(std::io::Error, &'static str),
    ErrorDuringCompression(std::io::Error),
}

pub type CacheHandlerResult<T> = Result<T, CacheHandlerError>;

/// Why a file could not be stored.
#[derive(Debug)]
pub enum StoreError {
    InvalidOptionProvided { detail: String },
    ConfigurationError(ConfigError),
    CannotReadStoreCacheFolder(std::io::Error),
    PathIdentifierError(&'static str),
    ErrorDuringHashEval(std::io::Error),
    FileMetadataError(std::io::Error),
    CacheHandlerError(CacheHandlerError),
    CriticalHashError,
    StoreEntryNotFound,
    DataCacheHasNotBeenRefreshed,
}

pub type StoreResult<T> = Result<T, StoreError>;

} // verus!
