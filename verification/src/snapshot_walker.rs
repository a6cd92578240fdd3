//! Which files of a snapshot are restored, and where to.
use vstd::prelude::*;
use crate::globs::{any_glob_matches, glob_set_is_match, build_globset, glob_set_possible};
use crate::keyed_map::StringKeyedMap;
use crate::paths::{join_path, string_views};
use crate::root_definition::RootDefinition;
use crate::snapshots::shapshot_entry::SnapshotEntry;
use crate::snapshots::snapshot::{RootSnapshotEntries, Snapshot};
use crate::text::str_equal;

verus! {

/// Which files to restore, and how.
pub struct SnapshotWalkerFilter {
    /// Snapshot date to restore from. If no date is given, the most recent snapshot is chosen.
    pub snapshot_id: Option<String>,
    /// If defined, restores only this root, otherwise restores all roots.
    pub root_id: Option<String>,
    /// If defined, restores only files that match this glob, otherwise restores all files.
    pub file_id: Option<String>,
    /// Skip files that are both on disk and in the backup.
    pub dont_overwrite_files: bool,
    /// Skip restoring files that are missing from the disk.
    pub skip_missing_file_restore: bool,
    /// Delete files that are on disk but not in the backup (not available).
    pub delete_new_files: bool,
}

impl SnapshotWalkerFilter {
    /// A filter that restores every file of the latest snapshot.
    pub fn all() -> (r: Self)
        ensures
            r.snapshot_id is None,
            r.root_id is None,
            r.file_id is None,
            !r.dont_overwrite_files,
            !r.skip_missing_file_restore,
            !r.delete_new_files,
    {
        Self {
            snapshot_id: None,
            root_id: None,
            file_id: None,
            dont_overwrite_files: false,
            skip_missing_file_restore: false,
            delete_new_files: false,
        }
    }
}

/// Why a file of a snapshot is not restored.
#[derive(Debug)]
pub enum SnapshotWalkerErr {
    RootNameDoesNotMatchCriteria { root_id: String, filter: String },
    FileNameDoesNotMatchGlob { root_id: String, file_id: String },
    InvalidRoot { root_id: String },
    InvalidFileGlob(globset::Error),
    StoreEntryNotFound(String),
}

/// A file to restore: its root, where it goes, and the hash of its contents.
pub struct SnapshotWalkerItem {
    pub root_id: String,
    pub path: String,
    pub hash_str: String,
}

/// The mathematical value of a walker item: root id, destination path, hash.
pub open spec fn item_view(x: SnapshotWalkerItem) -> (Seq<char>, Seq<char>, Seq<char>) {
    (x.root_id@, x.path@, x.hash_str@)
}

/// The item of the file `file_id` of root `root`.
pub open spec fn entry_item(root: RootDefinition, file_id: Seq<char>, entry: SnapshotEntry) -> (
    Seq<char>,
    Seq<char>,
    Seq<char>,
) {
    (root.spec_name(), join_path(root.spec_path(), file_id), entry.spec_hash())
}

/// The items of the first `n` files of a root.
pub open spec fn root_items(r: RootSnapshotEntries, n: int) -> Seq<(Seq<char>, Seq<char>, Seq<char>)>
    decreases n,
{
    if n <= 0 {
        Seq::empty()
    } else {
        root_items(r, n - 1).push(
            entry_item(r.spec_root(), r.spec_entries().key_seq()[n - 1], r.spec_entries().value_seq()[n - 1]),
        )
    }
}

/// The items of all files of the given roots, root by root.
pub open spec fn roots_items(rs: Seq<RootSnapshotEntries>) -> Seq<(Seq<char>, Seq<char>, Seq<char>)>
    decreases rs.len(),
{
    if rs.len() == 0 {
        Seq::empty()
    } else {
        roots_items(rs.drop_last()) + root_items(rs.last(), rs.last().spec_entries().key_seq().len() as int)
    }
}

/// The items of every file of a snapshot.
pub open spec fn snapshot_items(s: Snapshot) -> Seq<(Seq<char>, Seq<char>, Seq<char>)> {
    roots_items(s.spec_roots().value_seq())
}

fn make_item(root: &RootDefinition, file_id: &String, entry: &SnapshotEntry) -> (r: SnapshotWalkerItem)
    ensures
        item_view(r) == entry_item(*root, file_id@, *entry),
{
    let hash_str = String::from_str(entry.data_hash());
    let path = root.make_original_file_path_from_identifier(file_id.as_str());
    SnapshotWalkerItem { root_id: String::from_str(root.name()), path, hash_str }
}

/// Every file of a snapshot: its root, its original location and its stored hash.
pub fn walk_all_files_in_snapshot(snapshot: &Snapshot) -> (r: Vec<SnapshotWalkerItem>)
    requires
        snapshot.wf(),
    ensures
        r@.map_values(|x: SnapshotWalkerItem| item_view(x)) == snapshot_items(*snapshot),
        forall|root_id: Seq<char>, file_id: Seq<char>|
            #[trigger] snapshot.spec_entry(root_id, file_id) is Some ==> exists|idx: int|
                0 <= idx < r@.len() && #[trigger] item_view(r@[idx]) == (
                    snapshot.spec_root_definition(root_id)->Some_0.spec_name(),
                    join_path(snapshot.spec_root_definition(root_id)->Some_0.spec_path(), file_id),
                    snapshot.spec_entry(root_id, file_id)->Some_0.spec_hash(),
                ),
        forall|idx: int|
            #![trigger r@[idx]]
            0 <= idx < r@.len() ==> exists|i: int, j: int|
                0 <= i < snapshot.spec_roots().value_seq().len() && 0 <= j
                    < snapshot.spec_roots().value_seq()[i].spec_entries().key_seq().len() && item_view(r@[idx]) == (
                    snapshot.spec_roots().value_seq()[i].spec_root().spec_name(),
                    join_path(
                        snapshot.spec_roots().value_seq()[i].spec_root().spec_path(),
                        #[trigger] snapshot.spec_roots().value_seq()[i].spec_entries().key_seq()[j],
                    ),
                    snapshot.spec_roots().value_seq()[i].spec_entries().value_seq()[j].spec_hash(),
                ),
{
    let roots = snapshot.get_roots();
    let ghost rs = roots.value_seq();
    let mut out: Vec<SnapshotWalkerItem> = Vec::new();
    let n = roots.len();
    let mut i: usize = 0;
    proof {
        assert(rs.take(0) =~= Seq::<RootSnapshotEntries>::empty());
        assert(out@.map_values(|x: SnapshotWalkerItem| item_view(x)) =~= roots_items(rs.take(0)));
    }
    while i < n
        invariant
            roots.wf(),
            *roots == snapshot.spec_roots(),
            snapshot.wf(),
            rs == roots.value_seq(),
            n == rs.len(),
            i <= n,
            out@.map_values(|x: SnapshotWalkerItem| item_view(x)) == roots_items(rs.take(i as int)),
        decreases n - i,
    {
        let root_entries = roots.value_at(i);
        let entries = root_entries.entries();
        assert(entries.wf());
        let root = root_entries.root_definition();
        let m = entries.len();
        let ghost before = out@.map_values(|x: SnapshotWalkerItem| item_view(x));
        let mut j: usize = 0;
        proof {
            assert(before + root_items(*root_entries, 0) =~= before);
        }
        while j < m
            invariant
                entries.wf(),
                *entries == root_entries.spec_entries(),
                *root == root_entries.spec_root(),
                m == entries.key_seq().len(),
                j <= m,
                out@.map_values(|x: SnapshotWalkerItem| item_view(x)) == before + root_items(
                    *root_entries,
                    j as int,
                ),
            decreases m - j,
        {
            let item = make_item(root, entries.key_at(j), entries.value_at(j));
            let ghost prev = out@;
            out.push(item);
            proof {
                assert(out@.map_values(|x: SnapshotWalkerItem| item_view(x)) =~= prev.map_values(
                    |x: SnapshotWalkerItem| item_view(x),
                ).push(item_view(item)));
                assert(before + root_items(*root_entries, j + 1) =~= (before + root_items(
                    *root_entries,
                    j as int,
                )).push(item_view(item)));
            }
            j = j + 1;
        }
        proof {
            assert(rs.take(i + 1).drop_last() =~= rs.take(i as int));
            assert(rs.take(i + 1).last() == *root_entries);
        }
        i = i + 1;
    }
    proof {
        assert(rs.take(n as int) =~= rs);
        let views = out@.map_values(|x: SnapshotWalkerItem| item_view(x));
        assert forall|root_id: Seq<char>, file_id: Seq<char>|
            #[trigger] snapshot.spec_entry(root_id, file_id) is Some implies exists|idx: int|
                0 <= idx < out@.len() && #[trigger] item_view(out@[idx]) == (
                    snapshot.spec_root_definition(root_id)->Some_0.spec_name(),
                    join_path(snapshot.spec_root_definition(root_id)->Some_0.spec_path(), file_id),
                    snapshot.spec_entry(root_id, file_id)->Some_0.spec_hash(),
                ) by {
            lemma_walk_covers_every_entry(*snapshot, root_id, file_id);
            let idx = choose|idx: int|
                0 <= idx < snapshot_items(*snapshot).len() && #[trigger] snapshot_items(*snapshot)[idx] == (
                    snapshot.spec_root_definition(root_id)->Some_0.spec_name(),
                    join_path(snapshot.spec_root_definition(root_id)->Some_0.spec_path(), file_id),
                    snapshot.spec_entry(root_id, file_id)->Some_0.spec_hash(),
                );
            assert(item_view(out@[idx]) == views[idx]);
        }
        assert forall|idx: int|
            #![trigger out@[idx]]
            0 <= idx < out@.len() implies exists|i: int, j: int|
                0 <= i < snapshot.spec_roots().value_seq().len() && 0 <= j
                    < snapshot.spec_roots().value_seq()[i].spec_entries().key_seq().len() && item_view(out@[idx]) == (
                    snapshot.spec_roots().value_seq()[i].spec_root().spec_name(),
                    join_path(
                        snapshot.spec_roots().value_seq()[i].spec_root().spec_path(),
                        #[trigger] snapshot.spec_roots().value_seq()[i].spec_entries().key_seq()[j],
                    ),
                    snapshot.spec_roots().value_seq()[i].spec_entries().value_seq()[j].spec_hash(),
                ) by {
            assert(item_view(out@[idx]) == views[idx]);
            lemma_walk_yields_only_entries(*snapshot, idx);
        }
    }
    out
}

/// What the filtered walk yields for one file or root, as a mathematical value.
pub enum FilteredItem {
    Restore((Seq<char>, Seq<char>, Seq<char>)),
    RootMismatch(Seq<char>, Seq<char>),
    InvalidGlob,
    OtherError,
}

pub open spec fn filtered_view(r: Result<SnapshotWalkerItem, SnapshotWalkerErr>) -> FilteredItem {
    match r {
        Ok(x) => FilteredItem::Restore(item_view(x)),
        Err(SnapshotWalkerErr::RootNameDoesNotMatchCriteria { root_id, filter }) => FilteredItem::RootMismatch(
            root_id@,
            filter@,
        ),
        Err(SnapshotWalkerErr::InvalidFileGlob(_)) => FilteredItem::InvalidGlob,
        Err(_) => FilteredItem::OtherError,
    }
}

pub open spec fn optional_view(o: Option<String>) -> Option<Seq<char>> {
    match o {
        Some(s) => Some(s@),
        None => None,
    }
}

/// What the filtered walk yields for file `j` of root `r`: nothing when the file
/// glob does not match the file's identifier, an error when the glob is invalid.
pub open spec fn entry_outcomes(r: RootSnapshotEntries, glob: Option<Seq<char>>, j: int) -> Seq<FilteredItem> {
    let file_id = r.spec_entries().key_seq()[j];
    let item = FilteredItem::Restore(entry_item(r.spec_root(), file_id, r.spec_entries().value_seq()[j]));
    match glob {
        None => seq![item],
        Some(g) => if !glob_set_possible(seq![g]) {
            seq![FilteredItem::InvalidGlob]
        } else if crate::globs::glob_matches(g, file_id) {
            seq![item]
        } else {
            Seq::empty()
        },
    }
}

/// What the filtered walk yields for the first `n` files of root `r`.
pub open spec fn filtered_entries(r: RootSnapshotEntries, glob: Option<Seq<char>>, n: int) -> Seq<FilteredItem>
    decreases n,
{
    if n <= 0 {
        Seq::empty()
    } else {
        filtered_entries(r, glob, n - 1) + entry_outcomes(r, glob, n - 1)
    }
}

/// What the filtered walk yields for root `r`: one error when the root filter
/// names another root, else the yield of each of its files.
pub open spec fn filtered_root(r: RootSnapshotEntries, root_filter: Option<Seq<char>>, glob: Option<Seq<char>>) -> Seq<FilteredItem> {
    match root_filter {
        Some(f) => if f != r.spec_root().spec_name() {
            seq![FilteredItem::RootMismatch(r.spec_root().spec_name(), f)]
        } else {
            filtered_entries(r, glob, r.spec_entries().key_seq().len() as int)
        },
        None => filtered_entries(r, glob, r.spec_entries().key_seq().len() as int),
    }
}

/// What the filtered walk yields for the given roots, root by root.
pub open spec fn filtered_roots(rs: Seq<RootSnapshotEntries>, root_filter: Option<Seq<char>>, glob: Option<Seq<char>>) -> Seq<FilteredItem>
    decreases rs.len(),
{
    if rs.len() == 0 {
        Seq::empty()
    } else {
        filtered_roots(rs.drop_last(), root_filter, glob) + filtered_root(rs.last(), root_filter, glob)
    }
}

fn filter_entry(
    out: &mut Vec<Result<SnapshotWalkerItem, SnapshotWalkerErr>>,
    root_entries: &RootSnapshotEntries,
    glob: &Option<String>,
    j: usize,
)
    requires
        root_entries.spec_entries().wf(),
        j < root_entries.spec_entries().key_seq().len(),
    ensures
        final(out)@.map_values(|x: Result<SnapshotWalkerItem, SnapshotWalkerErr>| filtered_view(x))
            == old(out)@.map_values(|x: Result<SnapshotWalkerItem, SnapshotWalkerErr>| filtered_view(x))
            + entry_outcomes(*root_entries, optional_view(*glob), j as int),
{
    let entries = root_entries.entries();
    let file_id = entries.key_at(j);
    let ghost before = out@;
    let ghost outcomes = entry_outcomes(*root_entries, optional_view(*glob), j as int);
    match glob {
        Some(g) => {
            let patterns = vec![g.clone()];
            proof {
                assert(string_views(patterns@) =~= seq![g@]);
            }
            match build_globset(&patterns) {
                Ok(set) => {
                    let matched = glob_set_is_match(&set, file_id.as_str());
                    proof {
                        let p = seq![g@];
                        if crate::globs::glob_matches(g@, file_id@) {
                            assert(crate::globs::glob_matches(p[0], file_id@));
                        }
                        if matched {
                            let i = choose|i: int| 0 <= i < p.len() && #[trigger] crate::globs::glob_matches(p[i], file_id@);
                            assert(i == 0);
                        }
                    }
                    if matched {
                        out.push(Ok(make_item(root_entries.root_definition(), file_id, entries.value_at(j))));
                    }
                },
                Err(e) => {
                    out.push(Err(SnapshotWalkerErr::InvalidFileGlob(e)));
                },
            }
        },
        None => {
            out.push(Ok(make_item(root_entries.root_definition(), file_id, entries.value_at(j))));
        },
    }
    proof {
        let f = |x: Result<SnapshotWalkerItem, SnapshotWalkerErr>| filtered_view(x);
        if out@.len() == before.len() {
            assert(out@ == before);
            assert(out@.map_values(f) =~= before.map_values(f) + outcomes);
        } else {
            assert(out@ == before.push(out@.last()));
            assert(out@.map_values(f) =~= before.map_values(f) + outcomes);
        }
    }
}

/// The files of a snapshot that pass the root and file filters, in order; a root
/// that the root filter excludes yields one error, and so does each file when
/// the file glob is invalid. Whether a file exists on disk is decided
/// afterwards, by `SnapshotWalkerFilter::decide`.
pub fn walk_all_files_in_snapshot_filtered(snapshot: &Snapshot, filter: &SnapshotWalkerFilter) -> (r: Vec<Result<SnapshotWalkerItem, SnapshotWalkerErr>>)
    requires
        snapshot.wf(),
    ensures
        r@.map_values(|x: Result<SnapshotWalkerItem, SnapshotWalkerErr>| filtered_view(x))
            == filtered_roots(snapshot.spec_roots().value_seq(), optional_view(filter.root_id), optional_view(filter.file_id)),
        forall|idx: int|
            #![trigger r@[idx]]
            0 <= idx < r@.len() && filtered_view(r@[idx]) is Restore ==> exists|i: int, j: int|
                0 <= i < snapshot.spec_roots().value_seq().len() && 0 <= j
                    < snapshot.spec_roots().value_seq()[i].spec_entries().key_seq().len() && root_admitted(
                    optional_view(filter.root_id),
                    snapshot.spec_roots().value_seq()[i],
                ) && glob_admits(
                    optional_view(filter.file_id),
                    #[trigger] snapshot.spec_roots().value_seq()[i].spec_entries().key_seq()[j],
                ) && filtered_view(r@[idx]) == FilteredItem::Restore(
                    (
                        snapshot.spec_roots().value_seq()[i].spec_root().spec_name(),
                        join_path(
                            snapshot.spec_roots().value_seq()[i].spec_root().spec_path(),
                            snapshot.spec_roots().value_seq()[i].spec_entries().key_seq()[j],
                        ),
                        snapshot.spec_roots().value_seq()[i].spec_entries().value_seq()[j].spec_hash(),
                    ),
                ),
        forall|i: int, j: int|
            #![trigger snapshot.spec_roots().value_seq()[i].spec_entries().key_seq()[j]]
            0 <= i < snapshot.spec_roots().value_seq().len() && 0 <= j
                < snapshot.spec_roots().value_seq()[i].spec_entries().key_seq().len() && root_admitted(
                optional_view(filter.root_id),
                snapshot.spec_roots().value_seq()[i],
            ) && glob_admits(
                optional_view(filter.file_id),
                snapshot.spec_roots().value_seq()[i].spec_entries().key_seq()[j],
            ) ==> exists|idx: int|
                0 <= idx < r@.len() && #[trigger] filtered_view(r@[idx]) == FilteredItem::Restore(
                    (
                        snapshot.spec_roots().value_seq()[i].spec_root().spec_name(),
                        join_path(
                            snapshot.spec_roots().value_seq()[i].spec_root().spec_path(),
                            snapshot.spec_roots().value_seq()[i].spec_entries().key_seq()[j],
                        ),
                        snapshot.spec_roots().value_seq()[i].spec_entries().value_seq()[j].spec_hash(),
                    ),
                ),
{
    let roots = snapshot.get_roots();
    let ghost rs = roots.value_seq();
    let ghost rf = optional_view(filter.root_id);
    let ghost gl = optional_view(filter.file_id);
    let mut out: Vec<Result<SnapshotWalkerItem, SnapshotWalkerErr>> = Vec::new();
    let n = roots.len();
    let mut i: usize = 0;
    proof {
        assert(rs.take(0) =~= Seq::<RootSnapshotEntries>::empty());
        assert(out@.map_values(|x: Result<SnapshotWalkerItem, SnapshotWalkerErr>| filtered_view(x)) =~= filtered_roots(rs.take(0), rf, gl));
    }
    while i < n
        invariant
            roots.wf(),
            *roots == snapshot.spec_roots(),
            snapshot.wf(),
            rs == roots.value_seq(),
            rf == optional_view(filter.root_id),
            gl == optional_view(filter.file_id),
            n == rs.len(),
            i <= n,
            out@.map_values(|x: Result<SnapshotWalkerItem, SnapshotWalkerErr>| filtered_view(x)) == filtered_roots(rs.take(i as int), rf, gl),
        decreases n - i,
    {
        let root_entries = roots.value_at(i);
        let root = root_entries.root_definition();
        let ghost before = out@.map_values(|x: Result<SnapshotWalkerItem, SnapshotWalkerErr>| filtered_view(x));
        proof {
            assert(rs.take(i + 1).drop_last() =~= rs.take(i as int));
            assert(rs.take(i + 1).last() == *root_entries);
            assert(root_entries.spec_entries().wf());
        }
        let excluded = match &filter.root_id {
            Some(f) => !str_equal(f.as_str(), root.name()),
            None => false,
        };
        if excluded {
            let f = match &filter.root_id {
                Some(f) => f.clone(),
                None => String::new(),
            };
            let ghost prev = out@;
            out.push(Err(SnapshotWalkerErr::RootNameDoesNotMatchCriteria {
                root_id: String::from_str(root.name()),
                filter: f,
            }));
            proof {
                let fv = |x: Result<SnapshotWalkerItem, SnapshotWalkerErr>| filtered_view(x);
                assert(out@.map_values(fv) =~= prev.map_values(fv).push(filtered_view(out@.last())));
                assert(filtered_root(*root_entries, rf, gl) =~= seq![filtered_view(out@.last())]);
                assert(filtered_roots(rs.take(i + 1), rf, gl) =~= before + filtered_root(*root_entries, rf, gl));
            }
        } else {
            let entries = root_entries.entries();
            let m = entries.len();
            let mut j: usize = 0;
            proof {
                assert(before + filtered_entries(*root_entries, gl, 0) =~= before);
            }
            while j < m
                invariant
                    root_entries.spec_entries().wf(),
                    *entries == root_entries.spec_entries(),
                    m == entries.key_seq().len(),
                    gl == optional_view(filter.file_id),
                    j <= m,
                    out@.map_values(|x: Result<SnapshotWalkerItem, SnapshotWalkerErr>| filtered_view(x)) == before + filtered_entries(*root_entries, gl, j as int),
                decreases m - j,
            {
                filter_entry(&mut out, root_entries, &filter.file_id, j);
                proof {
                    assert(before + filtered_entries(*root_entries, gl, j + 1) =~= (before + filtered_entries(*root_entries, gl, j as int)) + entry_outcomes(*root_entries, gl, j as int));
                }
                j = j + 1;
            }
            proof {
                assert(filtered_root(*root_entries, rf, gl) == filtered_entries(*root_entries, gl, m as int));
            }
        }
        i = i + 1;
    }
    proof {
        assert(rs.take(n as int) =~= rs);
        lemma_filtered_roots(rs, rf, gl);
        let fr = filtered_roots(rs, rf, gl);
        let views = out@.map_values(|x: Result<SnapshotWalkerItem, SnapshotWalkerErr>| filtered_view(x));
        assert forall|idx: int|
            #![trigger out@[idx]]
            0 <= idx < out@.len() && filtered_view(out@[idx]) is Restore implies exists|i: int, j: int|
                0 <= i < rs.len() && 0 <= j < rs[i].spec_entries().key_seq().len() && root_admitted(rf, rs[i])
                    && glob_admits(gl, #[trigger] rs[i].spec_entries().key_seq()[j]) && filtered_view(out@[idx])
                    == FilteredItem::Restore(
                    (
                        rs[i].spec_root().spec_name(),
                        join_path(rs[i].spec_root().spec_path(), rs[i].spec_entries().key_seq()[j]),
                        rs[i].spec_entries().value_seq()[j].spec_hash(),
                    ),
                ) by {
            assert(filtered_view(out@[idx]) == views[idx]);
            assert(fr[idx] is Restore);
        }
        assert forall|i: int, j: int|
            #![trigger rs[i].spec_entries().key_seq()[j]]
            0 <= i < rs.len() && 0 <= j < rs[i].spec_entries().key_seq().len() && root_admitted(rf, rs[i])
                && glob_admits(gl, rs[i].spec_entries().key_seq()[j]) implies exists|idx: int|
                0 <= idx < out@.len() && #[trigger] filtered_view(out@[idx]) == FilteredItem::Restore(
                    (
                        rs[i].spec_root().spec_name(),
                        join_path(rs[i].spec_root().spec_path(), rs[i].spec_entries().key_seq()[j]),
                        rs[i].spec_entries().value_seq()[j].spec_hash(),
                    ),
                ) by {
            let idx = choose|idx: int|
                0 <= idx < fr.len() && #[trigger] fr[idx] == FilteredItem::Restore(
                    entry_item(rs[i].spec_root(), rs[i].spec_entries().key_seq()[j], rs[i].spec_entries().value_seq()[j]),
                );
            assert(filtered_view(out@[idx]) == views[idx]);
        }
    }
    out
}

/// What to do with a file that passed the filters, given whether it is on disk now.
#[derive(Clone, Copy, Debug, PartialEq, Eq, Structural)]
pub enum RestoreDecision {
    Restore,
    SkipExisting,
    SkipMissing,
}

impl SnapshotWalkerFilter {
    /// A file on disk is skipped when files are not to be overwritten; a missing
    /// file is skipped when missing files are not to be restored. Deleting new
    /// files is not available, so a file that would be restored under
    /// `delete_new_files` is left out.
    pub fn decide(&self, file_currently_exists: bool) -> (r: RestoreDecision)
        requires
            self.delete_new_files ==> (file_currently_exists && self.dont_overwrite_files) || (
            !file_currently_exists && self.skip_missing_file_restore),
        ensures
            r == if file_currently_exists && self.dont_overwrite_files {
                RestoreDecision::SkipExisting
            } else if !file_currently_exists && self.skip_missing_file_restore {
                RestoreDecision::SkipMissing
            } else {
                RestoreDecision::Restore
            },
    {
        if file_currently_exists && self.dont_overwrite_files {
            RestoreDecision::SkipExisting
        } else if !file_currently_exists && self.skip_missing_file_restore {
            RestoreDecision::SkipMissing
        } else {
            RestoreDecision::Restore
        }
    }
}

} // verus!

verus! {

/// A file stored from `path` of a root is restored to `path`, with the hash it
/// was stored under: the walk item of the delta that storing it produced points
/// back at it. Paths are taken in normal form, and the file is not the root itself.
pub proof fn lemma_stored_file_restores_to_its_path(
    config: crate::config::Config,
    before: Set<Seq<char>>,
    after: Set<Seq<char>>,
    path: Seq<char>,
    parent_root: RootDefinition,
    last_modified: Result<crate::snapshots::shapshot_entry::Timestamp, std::io::Error>,
    contents: Result<Vec<u8>, std::io::Error>,
    stored: crate::store_error::StoreResult<crate::store_cache::file_io::StoredFile>,
)
    requires
        crate::store_cache::file_io::store_file_outcome(config, before, after, path, parent_root, last_modified, contents, stored),
        crate::paths::is_normal_path(path),
        crate::paths::is_normal_path(parent_root.spec_path()),
        stored matches Ok(sf) && sf.delta.file_id@.len() > 0,
    ensures
        stored matches Ok(sf) && entry_item(sf.delta.root, sf.delta.file_id@, sf.delta.entry) == (
            parent_root.spec_name(),
            path,
            crate::digest::content_hash(contents->Ok_0@),
        ),
{
    crate::paths::lemma_join_after_strip(parent_root.spec_path(), path);
}

} // verus!

verus! {

/// The items of the first `n` files of a root are those files' items, in order.
proof fn lemma_root_items(r: RootSnapshotEntries, n: int)
    requires
        0 <= n,
    ensures
        root_items(r, n).len() == n,
        forall|j: int| 0 <= j < n ==> #[trigger] root_items(r, n)[j] == entry_item(
            r.spec_root(),
            r.spec_entries().key_seq()[j],
            r.spec_entries().value_seq()[j],
        ),
    decreases n,
{
    if n > 0 {
        lemma_root_items(r, n - 1);
        assert forall|j: int| 0 <= j < n implies #[trigger] root_items(r, n)[j] == entry_item(
            r.spec_root(),
            r.spec_entries().key_seq()[j],
            r.spec_entries().value_seq()[j],
        ) by {
            if j < n - 1 {
                assert(root_items(r, n)[j] == root_items(r, n - 1)[j]);
            }
        }
    }
}

/// The items of some roots are exactly the items of their files: each file of
/// each root has its item, and each item is that of a file of a root.
proof fn lemma_roots_items(rs: Seq<RootSnapshotEntries>)
    ensures
        forall|i: int, j: int|
            #![trigger rs[i].spec_entries().key_seq()[j]]
            0 <= i < rs.len() && 0 <= j < rs[i].spec_entries().key_seq().len() ==> exists|idx: int|
                0 <= idx < roots_items(rs).len() && #[trigger] roots_items(rs)[idx] == entry_item(
                    rs[i].spec_root(),
                    rs[i].spec_entries().key_seq()[j],
                    rs[i].spec_entries().value_seq()[j],
                ),
        forall|idx: int|
            #![trigger roots_items(rs)[idx]]
            0 <= idx < roots_items(rs).len() ==> exists|i: int, j: int|
                0 <= i < rs.len() && 0 <= j < rs[i].spec_entries().key_seq().len() && roots_items(rs)[idx]
                    == entry_item(
                    rs[i].spec_root(),
                    #[trigger] rs[i].spec_entries().key_seq()[j],
                    rs[i].spec_entries().value_seq()[j],
                ),
    decreases rs.len(),
{
    if rs.len() > 0 {
        let p = rs.drop_last();
        let last = rs.last();
        let m = last.spec_entries().key_seq().len() as int;
        lemma_roots_items(p);
        lemma_root_items(last, m);
        let pre = roots_items(p);
        let all = roots_items(rs);
        assert(all == pre + root_items(last, m));
        assert forall|i: int, j: int|
            #![trigger rs[i].spec_entries().key_seq()[j]]
            0 <= i < rs.len() && 0 <= j < rs[i].spec_entries().key_seq().len() implies exists|idx: int|
                0 <= idx < all.len() && #[trigger] all[idx] == entry_item(
                    rs[i].spec_root(),
                    rs[i].spec_entries().key_seq()[j],
                    rs[i].spec_entries().value_seq()[j],
                ) by {
            if i < rs.len() - 1 {
                assert(p[i] == rs[i]);
                assert(p[i].spec_entries().key_seq()[j] == rs[i].spec_entries().key_seq()[j]);
                let idx = choose|idx: int| 0 <= idx < pre.len() && #[trigger] pre[idx] == entry_item(
                    p[i].spec_root(),
                    p[i].spec_entries().key_seq()[j],
                    p[i].spec_entries().value_seq()[j],
                );
                assert(all[idx] == pre[idx]);
            } else {
                assert(root_items(last, m)[j] == entry_item(
                    last.spec_root(),
                    last.spec_entries().key_seq()[j],
                    last.spec_entries().value_seq()[j],
                ));
                assert(all[pre.len() + j] == root_items(last, m)[j]);
            }
        }
        assert forall|idx: int|
            #![trigger all[idx]]
            0 <= idx < all.len() implies exists|i: int, j: int|
                0 <= i < rs.len() && 0 <= j < rs[i].spec_entries().key_seq().len() && all[idx] == entry_item(
                    rs[i].spec_root(),
                    #[trigger] rs[i].spec_entries().key_seq()[j],
                    rs[i].spec_entries().value_seq()[j],
                ) by {
            if idx < pre.len() {
                assert(all[idx] == pre[idx]);
                let (i, j) = choose|i: int, j: int|
                    0 <= i < p.len() && 0 <= j < p[i].spec_entries().key_seq().len() && pre[idx] == entry_item(
                        p[i].spec_root(),
                        #[trigger] p[i].spec_entries().key_seq()[j],
                        p[i].spec_entries().value_seq()[j],
                    );
                assert(p[i] == rs[i]);
                assert(rs[i].spec_entries().key_seq()[j] == p[i].spec_entries().key_seq()[j]);
            } else {
                let j = idx - pre.len();
                assert(all[idx] == root_items(last, m)[j]);
                assert(rs[rs.len() - 1] == last);
                assert(rs[rs.len() - 1].spec_entries().key_seq()[j] == last.spec_entries().key_seq()[j]);
            }
        }
    }
}

/// Where a recorded entry stands in a well-formed snapshot: the root it is
/// recorded under is at some position of the roots, and the file at some
/// position of that root's files.
proof fn lemma_entry_position(s: Snapshot, root_id: Seq<char>, file_id: Seq<char>) -> (pos: (int, int))
    requires
        s.wf(),
        s.spec_entry(root_id, file_id) is Some,
    ensures
        0 <= pos.0 < s.spec_roots().value_seq().len(),
        0 <= pos.1 < s.spec_roots().value_seq()[pos.0].spec_entries().key_seq().len(),
        s.spec_roots().value_seq()[pos.0].spec_entries().key_seq()[pos.1] == file_id,
        s.spec_roots().value_seq()[pos.0].spec_entries().value_seq()[pos.1] == s.spec_entry(root_id, file_id)->Some_0,
        s.spec_roots().value_seq()[pos.0].spec_root() == s.spec_root_definition(root_id)->Some_0,
{
    let roots = s.spec_roots();
    let i = roots.key_seq().index_of(root_id);
    assert(roots.key_seq().contains(root_id));
    let re = roots.value_seq()[i];
    assert(re.spec_entries().wf());
    let es = re.spec_entries();
    let j = es.key_seq().index_of(file_id);
    assert(es.key_seq().contains(file_id));
    (i, j)
}

/// The walk of a snapshot yields every recorded file: for each entry recorded
/// for a file of a root, the item of that root's name, the file's original path
/// and the entry's hash is among the walk's items.
pub proof fn lemma_walk_covers_every_entry(s: Snapshot, root_id: Seq<char>, file_id: Seq<char>)
    requires
        s.wf(),
        s.spec_entry(root_id, file_id) is Some,
    ensures
        exists|idx: int|
            0 <= idx < snapshot_items(s).len() && #[trigger] snapshot_items(s)[idx] == (
                s.spec_root_definition(root_id)->Some_0.spec_name(),
                join_path(s.spec_root_definition(root_id)->Some_0.spec_path(), file_id),
                s.spec_entry(root_id, file_id)->Some_0.spec_hash(),
            ),
{
    let (i, j) = lemma_entry_position(s, root_id, file_id);
    let rs = s.spec_roots().value_seq();
    lemma_roots_items(rs);
    assert(rs[i].spec_entries().key_seq()[j] == file_id);
    let idx = choose|idx: int|
        0 <= idx < roots_items(rs).len() && #[trigger] roots_items(rs)[idx] == entry_item(
            rs[i].spec_root(),
            rs[i].spec_entries().key_seq()[j],
            rs[i].spec_entries().value_seq()[j],
        );
    assert(snapshot_items(s)[idx] == (
        s.spec_root_definition(root_id)->Some_0.spec_name(),
        join_path(s.spec_root_definition(root_id)->Some_0.spec_path(), file_id),
        s.spec_entry(root_id, file_id)->Some_0.spec_hash(),
    ));
}

/// Each item of the walk of a snapshot is that of a recorded file: some root
/// holds a file whose original path and recorded hash the item carries.
pub proof fn lemma_walk_yields_only_entries(s: Snapshot, idx: int)
    requires
        s.wf(),
        0 <= idx < snapshot_items(s).len(),
    ensures
        exists|i: int, j: int|
            0 <= i < s.spec_roots().value_seq().len() && 0 <= j
                < s.spec_roots().value_seq()[i].spec_entries().key_seq().len() && snapshot_items(s)[idx] == (
                s.spec_roots().value_seq()[i].spec_root().spec_name(),
                join_path(
                    s.spec_roots().value_seq()[i].spec_root().spec_path(),
                    #[trigger] s.spec_roots().value_seq()[i].spec_entries().key_seq()[j],
                ),
                s.spec_roots().value_seq()[i].spec_entries().value_seq()[j].spec_hash(),
            ),
{
    let rs = s.spec_roots().value_seq();
    lemma_roots_items(rs);
    assert(snapshot_items(s)[idx] == roots_items(rs)[idx]);
    let (i, j) = choose|i: int, j: int|
        0 <= i < rs.len() && 0 <= j < rs[i].spec_entries().key_seq().len() && roots_items(rs)[idx]
            == entry_item(
            rs[i].spec_root(),
            #[trigger] rs[i].spec_entries().key_seq()[j],
            rs[i].spec_entries().value_seq()[j],
        );
    assert(snapshot_items(s)[idx] == (
        rs[i].spec_root().spec_name(),
        join_path(rs[i].spec_root().spec_path(), rs[i].spec_entries().key_seq()[j]),
        rs[i].spec_entries().value_seq()[j].spec_hash(),
    ));
}

} // verus!

verus! {

/// Whether the glob filter lets file `file_id` through: there is no glob, or it
/// is a valid glob that matches the file's identifier.
pub open spec fn glob_admits(glob: Option<Seq<char>>, file_id: Seq<char>) -> bool {
    match glob {
        None => true,
        Some(g) => glob_set_possible(seq![g]) && crate::globs::glob_matches(g, file_id),
    }
}

/// Whether the root filter lets root `r` through: there is no root filter, or it
/// names the root.
pub open spec fn root_admitted(root_filter: Option<Seq<char>>, r: RootSnapshotEntries) -> bool {
    root_filter is None || root_filter == Some(r.spec_root().spec_name())
}

/// The files of a root that the filtered walk restores are exactly those the
/// glob lets through.
proof fn lemma_filtered_entries(r: RootSnapshotEntries, glob: Option<Seq<char>>, n: int)
    requires
        0 <= n,
    ensures
        forall|idx: int|
            #![trigger filtered_entries(r, glob, n)[idx]]
            0 <= idx < filtered_entries(r, glob, n).len() && filtered_entries(r, glob, n)[idx] is Restore
                ==> exists|j: int|
                0 <= j < n && glob_admits(glob, #[trigger] r.spec_entries().key_seq()[j])
                    && filtered_entries(r, glob, n)[idx] == FilteredItem::Restore(
                    entry_item(r.spec_root(), r.spec_entries().key_seq()[j], r.spec_entries().value_seq()[j]),
                ),
        forall|j: int|
            #![trigger r.spec_entries().key_seq()[j]]
            0 <= j < n && glob_admits(glob, r.spec_entries().key_seq()[j]) ==> exists|idx: int|
                0 <= idx < filtered_entries(r, glob, n).len() && #[trigger] filtered_entries(r, glob, n)[idx]
                    == FilteredItem::Restore(
                    entry_item(r.spec_root(), r.spec_entries().key_seq()[j], r.spec_entries().value_seq()[j]),
                ),
    decreases n,
{
    if n > 0 {
        lemma_filtered_entries(r, glob, n - 1);
        let pre = filtered_entries(r, glob, n - 1);
        let out = entry_outcomes(r, glob, n - 1);
        let all = filtered_entries(r, glob, n);
        assert(all == pre + out);
        let k = r.spec_entries().key_seq()[n - 1];
        let item = FilteredItem::Restore(
            entry_item(r.spec_root(), k, r.spec_entries().value_seq()[n - 1]),
        );
        assert(glob_admits(glob, k) ==> out == seq![item]);
        assert(!glob_admits(glob, k) ==> forall|t: int| 0 <= t < out.len() ==> !(out[t] is Restore));
        assert forall|idx: int|
            #![trigger all[idx]]
            0 <= idx < all.len() && all[idx] is Restore implies exists|j: int|
                0 <= j < n && glob_admits(glob, #[trigger] r.spec_entries().key_seq()[j]) && all[idx]
                    == FilteredItem::Restore(
                    entry_item(r.spec_root(), r.spec_entries().key_seq()[j], r.spec_entries().value_seq()[j]),
                ) by {
            if idx < pre.len() {
                assert(all[idx] == pre[idx]);
            } else {
                assert(all[idx] == out[idx - pre.len()]);
                assert(glob_admits(glob, r.spec_entries().key_seq()[n - 1]));
            }
        }
        assert forall|j: int|
            #![trigger r.spec_entries().key_seq()[j]]
            0 <= j < n && glob_admits(glob, r.spec_entries().key_seq()[j]) implies exists|idx: int|
                0 <= idx < all.len() && #[trigger] all[idx] == FilteredItem::Restore(
                    entry_item(r.spec_root(), r.spec_entries().key_seq()[j], r.spec_entries().value_seq()[j]),
                ) by {
            if j < n - 1 {
                let idx = choose|idx: int|
                    0 <= idx < pre.len() && #[trigger] pre[idx] == FilteredItem::Restore(
                        entry_item(r.spec_root(), r.spec_entries().key_seq()[j], r.spec_entries().value_seq()[j]),
                    );
                assert(all[idx] == pre[idx]);
            } else {
                assert(all[pre.len() as int] == item);
            }
        }
    }
}

} // verus!

verus! {

/// The filtered walk restores exactly the files that both filters let through:
/// every restored item is that of a file of a root the root filter admits and
/// that the glob admits, and every such file is restored.
proof fn lemma_filtered_roots(rs: Seq<RootSnapshotEntries>, root_filter: Option<Seq<char>>, glob: Option<Seq<char>>)
    ensures
        forall|idx: int|
            #![trigger filtered_roots(rs, root_filter, glob)[idx]]
            0 <= idx < filtered_roots(rs, root_filter, glob).len() && filtered_roots(rs, root_filter, glob)[idx] is Restore
                ==> exists|i: int, j: int|
                0 <= i < rs.len() && 0 <= j < rs[i].spec_entries().key_seq().len() && root_admitted(
                    root_filter,
                    rs[i],
                ) && glob_admits(glob, #[trigger] rs[i].spec_entries().key_seq()[j])
                    && filtered_roots(rs, root_filter, glob)[idx] == FilteredItem::Restore(
                    entry_item(rs[i].spec_root(), rs[i].spec_entries().key_seq()[j], rs[i].spec_entries().value_seq()[j]),
                ),
        forall|i: int, j: int|
            #![trigger rs[i].spec_entries().key_seq()[j]]
            0 <= i < rs.len() && 0 <= j < rs[i].spec_entries().key_seq().len() && root_admitted(root_filter, rs[i])
                && glob_admits(glob, rs[i].spec_entries().key_seq()[j]) ==> exists|idx: int|
                0 <= idx < filtered_roots(rs, root_filter, glob).len() && #[trigger] filtered_roots(
                    rs,
                    root_filter,
                    glob,
                )[idx] == FilteredItem::Restore(
                    entry_item(rs[i].spec_root(), rs[i].spec_entries().key_seq()[j], rs[i].spec_entries().value_seq()[j]),
                ),
    decreases rs.len(),
{
    if rs.len() > 0 {
        let p = rs.drop_last();
        let last = rs.last();
        let m = last.spec_entries().key_seq().len() as int;
        lemma_filtered_roots(p, root_filter, glob);
        lemma_filtered_entries(last, glob, m);
        let pre = filtered_roots(p, root_filter, glob);
        let fl = filtered_root(last, root_filter, glob);
        let all = filtered_roots(rs, root_filter, glob);
        assert(all == pre + fl);
        assert(rs[rs.len() - 1] == last);
        if root_admitted(root_filter, last) {
            assert(fl == filtered_entries(last, glob, m));
        } else {
            assert(fl.len() == 1 && !(fl[0] is Restore));
        }
        assert forall|idx: int|
            #![trigger all[idx]]
            0 <= idx < all.len() && all[idx] is Restore implies exists|i: int, j: int|
                0 <= i < rs.len() && 0 <= j < rs[i].spec_entries().key_seq().len() && root_admitted(
                    root_filter,
                    rs[i],
                ) && glob_admits(glob, #[trigger] rs[i].spec_entries().key_seq()[j]) && all[idx]
                    == FilteredItem::Restore(
                    entry_item(rs[i].spec_root(), rs[i].spec_entries().key_seq()[j], rs[i].spec_entries().value_seq()[j]),
                ) by {
            if idx < pre.len() {
                assert(all[idx] == pre[idx]);
                let (i, j) = choose|i: int, j: int|
                    0 <= i < p.len() && 0 <= j < p[i].spec_entries().key_seq().len() && root_admitted(
                        root_filter,
                        p[i],
                    ) && glob_admits(glob, #[trigger] p[i].spec_entries().key_seq()[j]) && pre[idx]
                        == FilteredItem::Restore(
                        entry_item(p[i].spec_root(), p[i].spec_entries().key_seq()[j], p[i].spec_entries().value_seq()[j]),
                    );
                assert(p[i] == rs[i]);
                assert(rs[i].spec_entries().key_seq()[j] == p[i].spec_entries().key_seq()[j]);
            } else {
                let t = idx - pre.len();
                assert(all[idx] == fl[t]);
                assert(root_admitted(root_filter, last));
                let j = choose|j: int|
                    0 <= j < m && glob_admits(glob, #[trigger] last.spec_entries().key_seq()[j])
                        && filtered_entries(last, glob, m)[t] == FilteredItem::Restore(
                        entry_item(last.spec_root(), last.spec_entries().key_seq()[j], last.spec_entries().value_seq()[j]),
                    );
                assert(rs[rs.len() - 1].spec_entries().key_seq()[j] == last.spec_entries().key_seq()[j]);
            }
        }
        assert forall|i: int, j: int|
            #![trigger rs[i].spec_entries().key_seq()[j]]
            0 <= i < rs.len() && 0 <= j < rs[i].spec_entries().key_seq().len() && root_admitted(root_filter, rs[i])
                && glob_admits(glob, rs[i].spec_entries().key_seq()[j]) implies exists|idx: int|
                0 <= idx < all.len() && #[trigger] all[idx] == FilteredItem::Restore(
                    entry_item(rs[i].spec_root(), rs[i].spec_entries().key_seq()[j], rs[i].spec_entries().value_seq()[j]),
                ) by {
            if i < rs.len() - 1 {
                assert(p[i] == rs[i]);
                assert(p[i].spec_entries().key_seq()[j] == rs[i].spec_entries().key_seq()[j]);
                let idx = choose|idx: int|
                    0 <= idx < pre.len() && #[trigger] pre[idx] == FilteredItem::Restore(
                        entry_item(p[i].spec_root(), p[i].spec_entries().key_seq()[j], p[i].spec_entries().value_seq()[j]),
                    );
                assert(all[idx] == pre[idx]);
            } else {
                assert(last.spec_entries().key_seq()[j] == rs[i].spec_entries().key_seq()[j]);
                let t = choose|t: int|
                    0 <= t < filtered_entries(last, glob, m).len() && #[trigger] filtered_entries(last, glob, m)[t]
                        == FilteredItem::Restore(
                        entry_item(last.spec_root(), last.spec_entries().key_seq()[j], last.spec_entries().value_seq()[j]),
                    );
                assert(all[pre.len() + t] == fl[t]);
            }
        }
    }
}

} // verus!
