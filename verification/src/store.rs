//! The store: the configuration together with the set of hashes it holds.
use vstd::prelude::*;
use crate::config::Config;
use crate::paths::string_views;
use crate::snapshots::shapshot_entry::Timestamp;
use crate::root_definition::RootDefinition;
use crate::store_cache::file_io::StoredFile;
use crate::store_cache::hash_db::{path_stems, HashDB};
use crate::store_error::StoreResult;

verus! {

/// Handler of the data store: stores files and keeps track of the hashes held.
pub struct Store {
    config: Config,
    data_store_cache: HashDB,
}

/// A store that has not read the hashes held in its data folder yet.
pub struct StoreBuilder(Config);

impl StoreBuilder {
    pub closed spec fn spec_config(&self) -> Config {
        self.0
    }

    pub fn new(config: Config) -> (r: StoreBuilder)
        ensures
            r.spec_config() == config,
    {
        StoreBuilder(config)
    }

    /// The store, holding the hashes named by the files of its data folder
    /// (`cache_files`, the files found in the data folder's subfolders).
    pub fn init_and_build(self, cache_files: &Vec<String>) -> (r: Store)
        ensures
            r.spec_config() == self.spec_config(),
            r.held() == path_stems(string_views(cache_files@)),
    {
        let db = HashDB::empty().update_hash_set_with_cache_contents(cache_files);
        proof {
            assert(Set::<Seq<char>>::empty().union(path_stems(string_views(cache_files@))) =~= path_stems(
                string_views(cache_files@),
            ));
        }
        Store { config: self.0, data_store_cache: db }
    }
}

/// A store built from a listing of its data folder that includes the file of
/// stored contents holds the hash of those contents: a store can be reopened
/// without losing track of what it holds.
pub proof fn lemma_reopened_store_holds(config: Config, cache_files: Seq<Seq<char>>, data: Seq<u8>)
    requires
        crate::digest::content_hash(data).len() > 0,
        cache_files.contains(crate::store_cache::file_io::stored_location(config, crate::digest::content_hash(data))),
    ensures
        path_stems(cache_files).contains(crate::digest::content_hash(data)),
{
    crate::store_cache::file_io::lemma_stored_file_names_its_hash(config, data);
    let i = cache_files.index_of(crate::store_cache::file_io::stored_location(config, crate::digest::content_hash(data)));
    assert(crate::paths::file_stem(cache_files[i]) == Some(crate::digest::content_hash(data)));
}

impl Store {
    pub closed spec fn spec_config(&self) -> Config {
        self.config
    }

    /// The hashes the store holds.
    pub closed spec fn held(&self) -> Set<Seq<char>> {
        self.data_store_cache.contents()
    }

    pub fn config(&self) -> (r: &Config)
        ensures
            *r == self.spec_config(),
    {
        &self.config
    }

    /// Forgets a hash whose contents could not be written, so that storing the
    /// same contents again writes them.
    pub fn discard_hash(&mut self, hash: &str)
        ensures
            final(self).spec_config() == old(self).spec_config(),
            final(self).held() == old(self).held().remove(hash@),
    {
        self.data_store_cache.remove(hash);
    }

    /// Stores a file of `parent_root`, as `store_cache::file_io::store_file` does
    /// with this store's configuration and hashes.
    pub fn store_file(
        &mut self,
        path: &str,
        parent_root: &RootDefinition,
        last_modified: Result<Timestamp, std::io::Error>,
        contents: Result<Vec<u8>, std::io::Error>,
    ) -> (r: StoreResult<StoredFile>)
        ensures
            final(self).spec_config() == old(self).spec_config(),
            crate::store_cache::file_io::store_file_outcome(
                old(self).spec_config(),
                old(self).held(),
                final(self).held(),
                path@,
                *parent_root,
                last_modified,
                contents,
                r,
            ),
    {
        crate::store_cache::file_io::store_file(
            &self.config,
            &mut self.data_store_cache,
            path,
            parent_root,
            last_modified,
            contents,
        )
    }
}

} // verus!
