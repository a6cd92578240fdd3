//! The snapshot data model.
use vstd::prelude::*;
use crate::config::ConfigError;
use crate::keyed_map::StringKeyedMap;
use crate::root_definition::RootDefinition;
use crate::snapshots::shapshot_delta::SnapshotDelta;
use crate::snapshots::shapshot_entry::SnapshotEntry;

verus! {

/// Why a snapshot could not be found, read or written.
#[derive(Debug)]
pub enum SnapshotError {
    SnapshotIOError(std::io::Error),
    SnapshotEntryReadError,
    InvalidSnapshotName(chrono::ParseError),
    SnapshotSerializationError(toml::ser::Error),
    SnapshotDeserializationError(toml::de::Error),
    ConfigError(ConfigError),
}

pub type SnapshotResult<T> = Result<T, SnapshotError>;

/// The entries of one root, by file identifier, and the root they belong to.
pub struct RootSnapshotEntries {
    entries: StringKeyedMap<SnapshotEntry>,
    root_definition: RootDefinition,
}

impl RootSnapshotEntries {
    pub closed spec fn spec_entries(&self) -> StringKeyedMap<SnapshotEntry> {
        self.entries
    }

    pub closed spec fn spec_root(&self) -> RootDefinition {
        self.root_definition
    }

    /// Entries of `root_definition`.
    pub fn new(entries: StringKeyedMap<SnapshotEntry>, root_definition: RootDefinition) -> (r: Self)
        ensures
            r.spec_entries() == entries,
            r.spec_root() == root_definition,
    {
        RootSnapshotEntries { entries, root_definition }
    }

    pub fn entries(&self) -> (r: &StringKeyedMap<SnapshotEntry>)
        ensures
            *r == self.spec_entries(),
    {
        &self.entries
    }

    pub fn entries_mut(&mut self) -> (r: &mut StringKeyedMap<SnapshotEntry>)
        ensures
            *r == old(self).spec_entries(),
            final(self).spec_entries() == *final(r),
            final(self).spec_root() == old(self).spec_root(),
    {
        &mut self.entries
    }

    pub fn root_definition(&self) -> (r: &RootDefinition)
        ensures
            *r == self.spec_root(),
    {
        &self.root_definition
    }
}

/// Represents all saved information for all roots: for each root id, the
/// entries of the root's files by file id.
pub struct Snapshot {
    roots: StringKeyedMap<RootSnapshotEntries>,
}

/// Each root's entries are a well-formed map.
pub open spec fn entries_wf(roots: StringKeyedMap<RootSnapshotEntries>) -> bool {
    forall|i: int| 0 <= i < roots.value_seq().len() ==> (#[trigger] roots.value_seq()[i]).spec_entries().wf()
}

impl Snapshot {
    pub closed spec fn spec_roots(&self) -> StringKeyedMap<RootSnapshotEntries> {
        self.roots
    }

    pub open spec fn wf(&self) -> bool {
        self.spec_roots().wf() && entries_wf(self.spec_roots())
    }

    /// The entry recorded for file `file_id` of the root with id `root_id`.
    pub open spec fn spec_entry(&self, root_id: Seq<char>, file_id: Seq<char>) -> Option<SnapshotEntry> {
        match self.spec_roots().lookup(root_id) {
            Some(r) => r.spec_entries().lookup(file_id),
            None => None,
        }
    }

    pub proof fn lemma_lookup_wf(&self, root_id: Seq<char>)
        requires
            self.wf(),
        ensures
            self.spec_roots().lookup(root_id) matches Some(r) ==> r.spec_entries().wf(),
    {
        if self.spec_roots().contains_key(root_id) {
            let j = self.spec_roots().key_seq().index_of(root_id);
            self.spec_roots().lemma_index_of(j);
        }
    }

    /// A snapshot without roots.
    pub fn empty() -> (r: Snapshot)
        ensures
            r.wf(),
            r.spec_roots().key_seq() == Seq::<Seq<char>>::empty(),
    {
        Snapshot::new(StringKeyedMap::new())
    }

    pub fn new(entries: StringKeyedMap<RootSnapshotEntries>) -> (r: Self)
        requires
            entries.wf(),
            entries_wf(entries),
        ensures
            r.wf(),
            r.spec_roots() == entries,
    {
        Self { roots: entries }
    }

    /// The entry of file `file_id` in the root with id `root_id`.
    pub fn get_entry_for_file_in_root(&self, root_id: &str, file_id: &str) -> (r: Option<&SnapshotEntry>)
        requires
            self.wf(),
        ensures
            match r {
                Some(e) => self.spec_entry(root_id@, file_id@) == Some(*e),
                None => self.spec_entry(root_id@, file_id@) is None,
            },
    {
        proof {
            self.lemma_lookup_wf(root_id@);
        }
        match self.roots.get(root_id) {
            Some(r) => r.entries().get(file_id),
            None => None,
        }
    }

    /// The entries of the root named like `root_definition`, made empty (with this
    /// definition) when the snapshot has no such root yet.
    pub fn get_root_entries_mut(&mut self, root_definition: RootDefinition) -> (r: &mut RootSnapshotEntries)
        requires
            old(self).wf(),
        ensures
            r.spec_entries().wf(),
            old(self).spec_roots().lookup(root_definition.spec_name()) matches Some(v) ==> *r == v,
            old(self).spec_roots().lookup(root_definition.spec_name()) is None ==> r.spec_root()
                == root_definition && r.spec_entries().key_seq() == Seq::<Seq<char>>::empty(),
            final(self).spec_roots().key_seq() == if old(self).spec_roots().contains_key(root_definition.spec_name()) {
                old(self).spec_roots().key_seq()
            } else {
                old(self).spec_roots().key_seq().push(root_definition.spec_name())
            },
            final(self).spec_roots().value_seq() == (if old(self).spec_roots().contains_key(root_definition.spec_name()) {
                old(self).spec_roots().value_seq()
            } else {
                old(self).spec_roots().value_seq().push(*r)
            }).update(old(self).spec_roots().entry_index(root_definition.spec_name()), *final(r)),
    {
        let name = String::from_str(root_definition.name());
        let fresh = RootSnapshotEntries { entries: StringKeyedMap::new(), root_definition };
        proof {
            self.lemma_lookup_wf(name@);
        }
        self.roots.entry_or_insert(name, fresh)
    }

    /// The definition recorded for the root with id `root_id`.
    pub open spec fn spec_root_definition(&self, root_id: Seq<char>) -> Option<RootDefinition> {
        match self.spec_roots().lookup(root_id) {
            Some(r) => Some(r.spec_root()),
            None => None,
        }
    }

    /// Records a file's entry: the entry of `delta.file_id` in the root named like
    /// `delta.root` becomes `delta.entry`; a root new to the snapshot is recorded
    /// with `delta.root` as its definition.
    pub fn record_delta(&mut self, delta: SnapshotDelta)
        requires
            old(self).wf(),
        ensures
            final(self).wf(),
            forall|root_id: Seq<char>, file_id: Seq<char>| #[trigger]
                final(self).spec_entry(root_id, file_id) == if root_id == delta.root.spec_name()
                    && file_id == delta.file_id@ {
                    Some(delta.entry)
                } else {
                    old(self).spec_entry(root_id, file_id)
                },
            forall|root_id: Seq<char>| #[trigger]
                final(self).spec_root_definition(root_id) == if root_id == delta.root.spec_name()
                    && old(self).spec_root_definition(root_id) is None {
                    Some(delta.root)
                } else {
                    old(self).spec_root_definition(root_id)
                },
    {
        let ghost old_roots = self.spec_roots();
        let ghost name = delta.root.spec_name();
        let ghost file_id = delta.file_id@;
        let ghost entry = delta.entry;
        let ghost root = delta.root;
        let r = self.get_root_entries_mut(delta.root);
        let ghost r0 = *r;
        r.entries_mut().insert(delta.file_id, delta.entry);
        let ghost r1 = *r;
        proof {
            StringKeyedMap::lemma_lookup_after_entry(old_roots, self.spec_roots(), name, r0, r1);
            let vs = self.spec_roots().value_seq();
            assert forall|i: int| 0 <= i < vs.len() implies (#[trigger] vs[i]).spec_entries().wf() by {
                if i != old_roots.entry_index(name) && i < old_roots.value_seq().len() {
                    assert(vs[i] == old_roots.value_seq()[i]);
                }
            }
            assert forall|root_id: Seq<char>, f: Seq<char>| #[trigger]
                self.spec_entry(root_id, f) == if root_id == name && f == file_id {
                    Some(entry)
                } else {
                    old(self).spec_entry(root_id, f)
                } by {
                if root_id == name {
                    if !old_roots.contains_key(name) {
                        assert(!r0.spec_entries().contains_key(f));
                    }
                }
            }
            assert forall|root_id: Seq<char>| #[trigger]
                self.spec_root_definition(root_id) == if root_id == name
                    && old(self).spec_root_definition(root_id) is None {
                    Some(root)
                } else {
                    old(self).spec_root_definition(root_id)
                } by {
            }
        }
    }

    pub fn get_roots(&self) -> (r: &StringKeyedMap<RootSnapshotEntries>)
        ensures
            *r == self.spec_roots(),
    {
        &self.roots
    }
}

} // verus!
