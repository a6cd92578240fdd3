//! The configuration of the backup tool.
use vstd::prelude::*;
use vstd::string::*;
use crate::compression::CompressionOptions;
use crate::paths::{first_chars, join_path, join_path_of, with_extension, with_extension_of};
use crate::root_definition::RootDefinition;
use crate::root_preferences::{
    fill_spec, optional_preferences_view, RootPreferences, RootPreferencesView,
};
use crate::store_preferences::StorePreferences;
use crate::text::str_equal;

verus! {

/// Errors of preparing the configuration.
#[derive(Debug)]
pub enum ConfigError {
    NoStoreCachePathAvailabile,
    FailedToCreateFolder(std::io::Error),
    PatternError(globset::Error),
}

pub type ConfigResult<T> = Result<T, ConfigError>;

/// Name of the folder of the store that holds file contents.
pub open spec fn data_store_folder() -> Seq<char> {
    seq!['d', 'a', 't', 'a', '_', 's', 't', 'o', 'r', 'e']
}

/// Name of the folder of the store that holds snapshots.
pub open spec fn snapshots_folder() -> Seq<char> {
    seq!['s', 'n', 'a', 'p', 's', 'h', 'o', 't', 's']
}

/// Extension of the files that hold stored contents.
pub open spec fn cache_file_extension() -> Seq<char> {
    seq!['b', 'i', 'n']
}

fn data_store_folder_name() -> (r: &'static str)
    ensures
        r@ == data_store_folder(),
{
    proof {
        reveal_strlit("data_store");
    }
    "data_store"
}

fn snapshots_folder_name() -> (r: &'static str)
    ensures
        r@ == snapshots_folder(),
{
    proof {
        reveal_strlit("snapshots");
    }
    "snapshots"
}

fn cache_file_extension_name() -> (r: &'static str)
    ensures
        r@ == cache_file_extension(),
{
    proof {
        reveal_strlit("bin");
    }
    "bin"
}

/// The folder of the store that holds file contents.
pub open spec fn store_cache_path(store_root: Seq<char>) -> Seq<char> {
    join_path(store_root, data_store_folder())
}

/// The folder of the store that holds snapshots.
pub open spec fn snapshots_path(store_root: Seq<char>) -> Seq<char> {
    join_path(store_root, snapshots_folder())
}

/// The first `n` characters of `s`, or all of them.
pub open spec fn char_prefix(s: Seq<char>, n: int) -> Seq<char> {
    s.take(if n < s.len() { n } else { s.len() as int })
}

/// Where the contents with hash `hash` are stored: in the data folder, in the
/// subfolder named by the first `prefix_length` characters of the hash, in the
/// file named by the hash with the cache extension.
pub open spec fn cache_path_for_hash(store_root: Seq<char>, prefix_length: int, hash: Seq<char>) -> Seq<char> {
    with_extension(
        join_path(join_path(store_cache_path(store_root), char_prefix(hash, prefix_length)), hash),
        cache_file_extension(),
    )
}

/// The file holding the contents with hash `hash` is named by the hash: its
/// file stem gives the hash back, for a hash that is a plain file name.
pub proof fn lemma_cache_file_stem(store_root: Seq<char>, prefix_length: int, hash: Seq<char>)
    requires
        crate::paths::plain_name(hash),
    ensures
        crate::paths::file_stem(cache_path_for_hash(store_root, prefix_length, hash)) == Some(hash),
{
    let ext = cache_file_extension();
    assert(ext[0] != '/' && ext[0] != '.' && ext[1] != '/' && ext[1] != '.' && ext[2] != '/' && ext[2] != '.');
    assert(crate::paths::plain_name(ext));
    crate::paths::lemma_stem_of_named_file(
        join_path(store_cache_path(store_root), char_prefix(hash, prefix_length)),
        hash,
        ext,
    );
}

/// Index of the first root named `id`, or -1.
pub open spec fn first_named_index(roots: Seq<RootDefinition>, id: Seq<char>) -> int
    decreases roots.len(),
{
    if roots.len() == 0 {
        -1
    } else if roots[0].spec_name() == id {
        0
    } else {
        let k = first_named_index(roots.skip(1), id);
        if k < 0 {
            -1
        } else {
            k + 1
        }
    }
}

/// The first root named `id` is at `first_named_index`; no root is named `id`
/// when it is negative.
pub proof fn lemma_first_named_index(roots: Seq<RootDefinition>, id: Seq<char>)
    ensures
        -1 <= first_named_index(roots, id) < roots.len(),
        first_named_index(roots, id) >= 0 ==> roots[first_named_index(roots, id)].spec_name() == id,
        forall|j: int|
            0 <= j < roots.len() && (first_named_index(roots, id) < 0 || j < first_named_index(
                roots,
                id,
            )) ==> #[trigger] roots[j].spec_name() != id,
    decreases roots.len(),
{
    if roots.len() > 0 && roots[0].spec_name() != id {
        lemma_first_named_index(roots.skip(1), id);
        assert forall|j: int|
            0 <= j < roots.len() && (first_named_index(roots, id) < 0 || j < first_named_index(
                roots,
                id,
            )) implies #[trigger] roots[j].spec_name() != id by {
            if j > 0 {
                assert(roots[j] == roots.skip(1)[j - 1]);
            }
        }
    }
}

/// The configuration: where the store is, how contents are compressed, and
/// which roots are backed up with which preferences.
#[derive(Clone, Debug)]
pub struct Config {
    version: String,
    store: StorePreferences,
    compression_settings: Option<CompressionOptions>,
    default_root_preferences: Option<RootPreferences>,
    backup_roots: Vec<RootDefinition>,
}

impl Config {
    pub closed spec fn spec_version(&self) -> Seq<char> {
        self.version@
    }

    pub closed spec fn spec_store(&self) -> StorePreferences {
        self.store
    }

    pub closed spec fn spec_compression(&self) -> Option<CompressionOptions> {
        self.compression_settings
    }

    pub closed spec fn spec_default_preferences(&self) -> Option<RootPreferencesView> {
        optional_preferences_view(self.default_root_preferences)
    }

    pub closed spec fn spec_roots(&self) -> Seq<RootDefinition> {
        self.backup_roots@
    }

    /// The path of the store.
    pub open spec fn spec_store_root(&self) -> Seq<char> {
        self.spec_store().spec_path()
    }

    /// A configuration made of its parts. Creating the store's folders on disk
    /// is left to the caller.
    pub fn new(
        version: String,
        store: StorePreferences,
        compression_settings: Option<CompressionOptions>,
        default_root_preferences: Option<RootPreferences>,
        backup_roots: Vec<RootDefinition>,
    ) -> (r: Self)
        ensures
            r.spec_version() == version@,
            r.spec_store() == store,
            r.spec_compression() == compression_settings,
            r.spec_default_preferences() == optional_preferences_view(default_root_preferences),
            r.spec_roots() == backup_roots@,
    {
        Self { version, store, compression_settings, default_root_preferences, backup_roots }
    }

    /// The path of the store.
    pub fn get_root(&self) -> (r: String)
        ensures
            r@ == self.spec_store_root(),
    {
        self.store().path().clone()
    }

    /// The folder of the store that holds file contents.
    pub fn get_store_cache_path(&self) -> (r: String)
        ensures
            r@ == store_cache_path(self.spec_store_root()),
    {
        let root = self.get_root();
        join_path_of(root.as_str(), data_store_folder_name())
    }

    /// The folder of the store that holds snapshots.
    pub fn get_snaphots_path(&self) -> (r: String)
        ensures
            r@ == snapshots_path(self.spec_store_root()),
    {
        let root = self.get_root();
        join_path_of(root.as_str(), snapshots_folder_name())
    }

    /// Where the contents with the given hash are stored.
    pub fn get_store_cache_path_for_hash(&self, hash_str: &str) -> (r: String)
        ensures
            r@ == cache_path_for_hash(
                self.spec_store_root(),
                match self.spec_store().prefix_setting() {
                    Some(n) => n as int,
                    None => crate::store_preferences::DEFAULT_PREFIX_LENGTH as int,
                },
                hash_str@,
            ),
    {
        let prefix_length = self.store().subfolder_prefix_length() as usize;
        let prefix = first_chars(hash_str, prefix_length);
        let cache = self.get_store_cache_path();
        let folder = join_path_of(cache.as_str(), prefix.as_str());
        let file = join_path_of(folder.as_str(), hash_str);
        with_extension_of(file.as_str(), cache_file_extension_name())
    }

    pub fn version(&self) -> (r: &str)
        ensures
            r@ == self.spec_version(),
    {
        self.version.as_str()
    }

    pub fn compression_settings(&self) -> (r: Option<&CompressionOptions>)
        ensures
            match r {
                Some(c) => self.spec_compression() == Some(*c),
                None => self.spec_compression() is None,
            },
    {
        match &self.compression_settings {
            Some(c) => Some(c),
            None => None,
        }
    }

    pub fn default_root_preferences(&self) -> (r: Option<&RootPreferences>)
        ensures
            match r {
                Some(p) => self.spec_default_preferences() == Some(p@),
                None => self.spec_default_preferences() is None,
            },
    {
        match &self.default_root_preferences {
            Some(p) => Some(p),
            None => None,
        }
    }

    pub fn store(&self) -> (r: &StorePreferences)
        ensures
            *r == self.spec_store(),
    {
        &self.store
    }

    pub fn backup_roots(&self) -> (r: &[RootDefinition])
        ensures
            r@ == self.spec_roots(),
    {
        self.backup_roots.as_slice()
    }

    /// The first root named `id`, if any.
    pub fn find_root_by_id(&self, id: &str) -> (r: Option<&RootDefinition>)
        ensures
            match r {
                Some(root) => first_named_index(self.spec_roots(), id@) >= 0 && *root
                    == self.spec_roots()[first_named_index(self.spec_roots(), id@)],
                None => first_named_index(self.spec_roots(), id@) < 0,
            },
    {
        let ghost roots = self.spec_roots();
        let n = self.backup_roots.len();
        let mut i: usize = 0;
        proof {
            assert(roots.skip(0) =~= roots);
        }
        while i < n
            invariant
                n == roots.len(),
                roots == self.spec_roots(),
                i <= n,
                first_named_index(roots, id@) == (if first_named_index(roots.skip(i as int), id@) < 0 {
                    -1
                } else {
                    first_named_index(roots.skip(i as int), id@) + i
                }),
            decreases n - i,
        {
            proof {
                assert(roots.skip(i as int).skip(1) =~= roots.skip(i + 1));
                assert(roots.skip(i as int)[0] == roots[i as int]);
            }
            if str_equal(self.backup_roots[i].name(), id) {
                return Some(&self.backup_roots[i]);
            }
            i = i + 1;
        }
        proof {
            assert(roots.skip(n as int).len() == 0);
        }
        None
    }

    /// The preferences of the first root named `id`, filled in from the default
    /// preferences; `None` when no root has that name.
    pub fn get_combined_preferences_for_root(&self, id: &str) -> (r: Option<RootPreferences>)
        ensures
            match r {
                Some(p) => first_named_index(self.spec_roots(), id@) >= 0 && p@ == fill_spec(
                    self.spec_roots()[first_named_index(self.spec_roots(), id@)].spec_preferences(),
                    self.spec_default_preferences(),
                ),
                None => first_named_index(self.spec_roots(), id@) < 0,
            },
    {
        let root = match self.find_root_by_id(id) {
            Some(root) => root,
            None => return None,
        };
        let root_prefs = match root.preferences() {
            Some(p) => Some(p.duplicate()),
            None => None,
        };
        let defaults = match &self.default_root_preferences {
            Some(p) => Some(p.duplicate()),
            None => None,
        };
        Some(RootPreferences::fill_with_priority(root_prefs, defaults))
    }
}

} // verus!
