//! What a snapshot records of one file.
use vstd::prelude::*;

verus! {

/// A point in time: seconds since the Unix epoch and the nanoseconds past that second.
#[derive(Clone, Copy, Debug, PartialEq, Eq, Structural)]
pub struct Timestamp {
    pub seconds: i64,
    pub nanoseconds: u32,
}

/// `a` is not later than `b`.
pub open spec fn timestamp_le(a: Timestamp, b: Timestamp) -> bool {
    a.seconds < b.seconds || (a.seconds == b.seconds && a.nanoseconds <= b.nanoseconds)
}

impl Timestamp {
    pub fn new(seconds: i64, nanoseconds: u32) -> (r: Self)
        ensures
            r.seconds == seconds,
            r.nanoseconds == nanoseconds,
    {
        Timestamp { seconds, nanoseconds }
    }

    /// Whether this time is not later than `other`.
    pub fn not_after(&self, other: &Timestamp) -> (r: bool)
        ensures
            r == timestamp_le(*self, *other),
    {
        self.seconds < other.seconds || (self.seconds == other.seconds && self.nanoseconds
            <= other.nanoseconds)
    }

    /// Whether this time is later than `other`.
    pub fn later_than(&self, other: &Timestamp) -> (r: bool)
        ensures
            r == !timestamp_le(*self, *other),
    {
        !self.not_after(other)
    }
}

/// The stored contents of a file, by hash, and when the file was last modified.
#[derive(Clone, Debug)]
pub struct SnapshotEntry {
    data_hash: String,
    last_modified: Timestamp,
}

impl SnapshotEntry {
    pub closed spec fn spec_hash(&self) -> Seq<char> {
        self.data_hash@
    }

    pub closed spec fn spec_modified(&self) -> Timestamp {
        self.last_modified
    }

    pub fn new(data_hash: String, last_modified: Timestamp) -> (r: Self)
        ensures
            r.spec_hash() == data_hash@,
            r.spec_modified() == last_modified,
    {
        Self { data_hash, last_modified }
    }

    pub fn data_hash(&self) -> (r: &str)
        ensures
            r@ == self.spec_hash(),
    {
        self.data_hash.as_str()
    }

    pub fn last_modified(&self) -> (r: Timestamp)
        ensures
            r == self.spec_modified(),
    {
        self.last_modified
    }

    /// A copy of this entry.
    pub fn duplicate(&self) -> (r: Self)
        ensures
            r == *self,
    {
        SnapshotEntry { data_hash: self.data_hash.clone(), last_modified: self.last_modified }
    }
}

} // verus!
