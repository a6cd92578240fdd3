//! How stored file contents are compressed.
use vstd::prelude::*;

verus! {

/// The compression setting of a store.
#[derive(Clone, Copy, Debug, PartialEq, Eq, Structural)]
pub enum CompressionOptions {
    Disabled,
    Snap,
}

impl Default for CompressionOptions {
    /// Compression is disabled unless the configuration asks for it.
    fn default() -> (r: Self)
        ensures
            r == CompressionOptions::Disabled,
    {
        CompressionOptions::Disabled
    }
}

} // verus!
