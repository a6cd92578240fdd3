//! What a backup does with each file found under a root: skip it, carry its
//! entry over from the previous snapshot, or store it anew. The directory walk
//! itself is done by the caller, which hands each entry to `classify_entry`.
use vstd::prelude::*;
use crate::config::{first_named_index, lemma_first_named_index, Config, ConfigError};
use crate::globs::{any_glob_matches, glob_set_is_match, glob_set_patterns, glob_set_possible};
use crate::paths::strip_path_prefix;
use crate::root_definition::{same_root, RootDefinition, OUTSIDE_ROOT_MESSAGE};
use crate::root_preferences::{effective_exclusions, effective_inclusions, fill_spec, RootPreferencesView};
use crate::snapshots::shapshot_delta::SnapshotDelta;
use crate::snapshots::shapshot_entry::{timestamp_le, Timestamp};
use crate::snapshots::snapshot::Snapshot;

verus! {

/// Why a root or one of its files could not be walked.
#[derive(Debug)]
pub enum WalkerError {
    WalkDirError(walkdir::Error),
    RootConfigurationError(ConfigError),
    RootDoesNotExist(String),
    PathIdentifierError(&'static str),
    ModificationDateReadError(std::io::Error),
}

/// What becomes of a file of a root.
pub enum WalkResult {
    /// The file has not changed since the previous snapshot: its entry is carried over.
    UnchangedFile(SnapshotDelta),
    /// The file is new or changed and must be stored.
    NewFile { path: String, root: RootDefinition },
}

/// A root ready to be walked: the root and its compiled inclusion and exclusion globs.
pub struct RootWalk {
    root: RootDefinition,
    include_set: globset::GlobSet,
    exclude_set: globset::GlobSet,
}

impl RootWalk {
    pub closed spec fn spec_root(&self) -> RootDefinition {
        self.root
    }

    pub closed spec fn include_patterns(&self) -> Seq<Seq<char>> {
        glob_set_patterns(self.include_set)
    }

    pub closed spec fn exclude_patterns(&self) -> Seq<Seq<char>> {
        glob_set_patterns(self.exclude_set)
    }

    pub fn root(&self) -> (r: &RootDefinition)
        ensures
            *r == self.spec_root(),
    {
        &self.root
    }
}

/// The preferences a root is walked with: those of the first configured root of
/// the same name, filled in from the configuration's defaults.
pub open spec fn walk_preferences(config: Config, root: RootDefinition) -> RootPreferencesView {
    fill_spec(
        config.spec_roots()[first_named_index(config.spec_roots(), root.spec_name())].spec_preferences(),
        config.spec_default_preferences(),
    )
}

/// Prepares the walk of `root`: its preferences must be found and its globs
/// must compile.
pub fn prepare_root(config: &Config, root: &RootDefinition) -> (r: Result<RootWalk, WalkerError>)
    ensures
        first_named_index(config.spec_roots(), root.spec_name()) < 0 ==> (r matches Err(
            WalkerError::RootDoesNotExist(n),
        ) && n@ == root.spec_name()),
        first_named_index(config.spec_roots(), root.spec_name()) >= 0 ==> {
            let p = walk_preferences(*config, *root);
            if !glob_set_possible(effective_inclusions(p)) || !glob_set_possible(effective_exclusions(p)) {
                r matches Err(WalkerError::RootConfigurationError(e)) && e is PatternError
            } else {
                r matches Ok(w) && same_root(w.spec_root(), *root) && w.include_patterns()
                    == effective_inclusions(p) && w.exclude_patterns() == effective_exclusions(p)
            }
        },
{
    let root_prefs = match config.get_combined_preferences_for_root(root.name()) {
        Some(p) => p,
        None => return Err(WalkerError::RootDoesNotExist(String::from_str(root.name()))),
    };
    let include_set = match root_prefs.inclusions_globset() {
        Ok(s) => s,
        Err(e) => return Err(WalkerError::RootConfigurationError(e)),
    };
    let exclude_set = match root_prefs.exclusions_globset() {
        Ok(s) => s,
        Err(e) => return Err(WalkerError::RootConfigurationError(e)),
    };
    Ok(RootWalk { root: root.duplicate(), include_set, exclude_set })
}

/// A configured root is always found, so preparing it never fails for that reason.
pub proof fn lemma_configured_root_found(config: Config, i: int)
    requires
        0 <= i < config.spec_roots().len(),
    ensures
        first_named_index(config.spec_roots(), config.spec_roots()[i].spec_name()) >= 0,
{
    lemma_first_named_index(config.spec_roots(), config.spec_roots()[i].spec_name());
}

/// An entry the directory walk found: its path, whether it is a file, and the
/// result of reading its modification time (looked at only for files that pass
/// the globs).
pub struct WalkedFile {
    pub path: String,
    pub is_file: bool,
    pub modified: Result<Timestamp, std::io::Error>,
}

/// What becomes of an entry of the walk of `walk`'s root. A failed walk step is
/// an error; entries that are not files, do not match an inclusion glob or match
/// an exclusion glob are skipped; a file outside the root, or whose time could
/// not be read, is an error. A file recorded in the old snapshot and not modified
/// after the recorded time is carried over with its recorded entry; any other
/// file is to be stored.
pub open spec fn entry_outcome(
    walk: RootWalk,
    old_snapshot: Snapshot,
    entry: Result<WalkedFile, walkdir::Error>,
    r: Option<Result<WalkResult, WalkerError>>,
) -> bool {
    match entry {
        Err(_) => r matches Some(Err(WalkerError::WalkDirError(_))),
        Ok(f) => if !f.is_file || !any_glob_matches(walk.include_patterns(), f.path@)
            || any_glob_matches(walk.exclude_patterns(), f.path@) {
            r is None
        } else {
            match strip_path_prefix(f.path@, walk.spec_root().spec_path()) {
                None => r matches Some(Err(WalkerError::PathIdentifierError(m))) && m
                    == OUTSIDE_ROOT_MESSAGE,
                Some(id) => match f.modified {
                    Err(_) => r matches Some(Err(WalkerError::ModificationDateReadError(_))),
                    Ok(t) => match old_snapshot.spec_entry(walk.spec_root().spec_name(), id) {
                        Some(e) if timestamp_le(t, e.spec_modified()) => r matches Some(
                            Ok(WalkResult::UnchangedFile(d)),
                        ) && same_root(d.root, walk.spec_root()) && d.file_id@ == id && d.entry
                            == e,
                        _ => r matches Some(Ok(WalkResult::NewFile { path, root })) && path@
                            == f.path@ && same_root(root, walk.spec_root()),
                    },
                },
            }
        },
    }
}

/// Decides what becomes of one entry of the walk of a root.
pub fn classify_entry(
    walk: &RootWalk,
    old_snapshot: &Snapshot,
    entry: Result<WalkedFile, walkdir::Error>,
) -> (r: Option<Result<WalkResult, WalkerError>>)
    requires
        old_snapshot.wf(),
    ensures
        entry_outcome(*walk, *old_snapshot, entry, r),
{
    let file = match entry {
        Ok(f) => f,
        Err(e) => return Some(Err(WalkerError::WalkDirError(e))),
    };
    if !file.is_file {
        return None;
    }
    if !glob_set_is_match(&walk.include_set, file.path.as_str()) {
        return None;
    }
    if glob_set_is_match(&walk.exclude_set, file.path.as_str()) {
        return None;
    }
    let path_identifier = match walk.root.make_path_identifier(file.path.as_str()) {
        Ok(id) => id,
        Err(e) => return Some(Err(WalkerError::PathIdentifierError(e))),
    };
    let fs_last_modified = match file.modified {
        Ok(t) => t,
        Err(e) => return Some(Err(WalkerError::ModificationDateReadError(e))),
    };
    match old_snapshot.get_entry_for_file_in_root(walk.root.name(), path_identifier.as_str()) {
        Some(entry) => {
            if fs_last_modified.not_after(&entry.last_modified()) {
                let copied_entry = SnapshotDelta {
                    root: walk.root.duplicate(),
                    file_id: path_identifier,
                    entry: entry.duplicate(),
                };
                return Some(Ok(WalkResult::UnchangedFile(copied_entry)));
            }
        },
        None => {},
    }
    Some(Ok(WalkResult::NewFile { path: file.path, root: walk.root.duplicate() }))
}

} // verus!
