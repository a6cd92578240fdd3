//! Where the store lives and how its data folder is split into subfolders.
use vstd::prelude::*;

verus! {

/// Length of the hash prefix that names a data subfolder when none is configured.
pub const DEFAULT_PREFIX_LENGTH: u16 = 2;

/// Location of the store and the layout of its data folder.
#[derive(Clone, Debug)]
pub struct StorePreferences {
    path: String,
    subfolder_prefix_length: Option<u16>,
}

impl StorePreferences {
    pub closed spec fn spec_path(&self) -> Seq<char> {
        self.path@
    }

    /// The configured prefix length, if any.
    pub closed spec fn prefix_setting(&self) -> Option<u16> {
        self.subfolder_prefix_length
    }

    pub fn new(path: String, subfolder_prefix_length: Option<u16>) -> (r: Self)
        ensures
            r.spec_path() == path@,
            r.prefix_setting() == subfolder_prefix_length,
    {
        Self { path, subfolder_prefix_length }
    }

    pub fn path(&self) -> (r: &String)
        ensures
            r@ == self.spec_path(),
    {
        &self.path
    }

    /// The configured prefix length, falling back to `DEFAULT_PREFIX_LENGTH`.
    pub fn subfolder_prefix_length(&self) -> (r: u16)
        ensures
            r == match self.prefix_setting() {
                Some(n) => n,
                None => DEFAULT_PREFIX_LENGTH,
            },
    {
        match self.subfolder_prefix_length {
            Some(n) => n,
            None => DEFAULT_PREFIX_LENGTH,
        }
    }

    /// The configured prefix length as written in the configuration.
    pub fn subfolder_prefix_length_setting(&self) -> (r: Option<u16>)
        ensures
            r == self.prefix_setting(),
    {
        self.subfolder_prefix_length
    }
}

} // verus!
