//! Where snapshots are kept: one TOML file per snapshot in the store's snapshot
//! folder, named by the time the snapshot was taken.
use vstd::prelude::*;
use vstd::string::*;
use crate::config::{snapshots_path, Config};
use crate::paths::{extension, extension_of, file_stem, file_stem_of, join_path, join_path_of};
use crate::snapshots::shapshot_entry::{timestamp_le, Timestamp};
use crate::snapshots::snapshot::{Snapshot, SnapshotError};
use crate::text::str_equal;

verus! {

/// The format of snapshot names: date, underscore, time with milliseconds.
pub open spec fn snapshot_date_format() -> Seq<char> {
    seq!['%', 'Y', '-', '%', 'm', '-', '%', 'd', '_', '%', 'H', ':', '%', 'M', ':', '%', 'S', '%', '.', '3', 'f']
}

/// The extension of snapshot files.
pub open spec fn snapshot_extension() -> Seq<char> {
    seq!['t', 'o', 'm', 'l']
}

fn snapshot_date_format_str() -> (r: &'static str)
    ensures
        r@ == snapshot_date_format(),
{
    proof {
        reveal_strlit("%Y-%m-%d_%H:%M:%S%.3f");
    }
    "%Y-%m-%d_%H:%M:%S%.3f"
}

fn snapshot_extension_str() -> (r: &'static str)
    ensures
        r@ == snapshot_extension(),
{
    proof {
        reveal_strlit("toml");
    }
    "toml"
}

/// The time `chrono::NaiveDateTime::parse_from_str` reads out of `s` with format
/// `fmt`, as seconds and nanoseconds since the Unix epoch; `None` when it fails.
pub uninterp spec fn parsed_datetime(s: Seq<char>, fmt: Seq<char>) -> Option<Timestamp>;

/// The text `chrono::DateTime::<Utc>::format` gives for `t` with format `fmt`;
/// `None` when `t` is out of chrono's range.
pub uninterp spec fn formatted_datetime(t: Timestamp, fmt: Seq<char>) -> Option<Seq<char>>;

/// Calls `chrono::NaiveDateTime::parse_from_str` and reads the result as a UTC
/// time. Claimed: it succeeds exactly when `parsed_datetime` has a value, and gives
/// that value. The conversion keeps chrono's order of date-times: the later of two
/// is the one with more seconds, or as many seconds and more nanoseconds.
#[verifier::external_body]
fn parse_snapshot_date(s: &str, fmt: &str) -> (r: Result<Timestamp, chrono::ParseError>)
    ensures
        r is Ok <==> parsed_datetime(s@, fmt@) is Some,
        r matches Ok(t) ==> parsed_datetime(s@, fmt@) == Some(t),
{
    match chrono::NaiveDateTime::parse_from_str(s, fmt) {
        Ok(d) => Ok(Timestamp { seconds: d.and_utc().timestamp(), nanoseconds: d.and_utc().timestamp_subsec_nanos() }),
        Err(e) => Err(e),
    }
}

/// Calls `chrono::DateTime::from_timestamp` and formats the result. Claimed: the
/// text is the one `formatted_datetime` names. The format is the snapshot format,
/// which chrono accepts (formatting with a format it rejects panics).
#[verifier::external_body]
fn format_snapshot_date(t: Timestamp, fmt: &str) -> (r: Option<String>)
    requires
        fmt@ == snapshot_date_format(),
    ensures
        match r {
            Some(s) => formatted_datetime(t, fmt@) == Some(s@),
            None => formatted_datetime(t, fmt@) is None,
        },
{
    match chrono::DateTime::from_timestamp(t.seconds, t.nanoseconds) {
        Some(d) => Some(d.format(fmt).to_string()),
        None => None,
    }
}

/// The time a snapshot file's path names: its file stem read with the snapshot format.
pub open spec fn snapshot_time(path: Seq<char>) -> Option<Timestamp> {
    match file_stem(path) {
        Some(stem) => parsed_datetime(stem, snapshot_date_format()),
        None => None,
    }
}

/// Index of the first path that names no snapshot time, or -1.
pub open spec fn first_unreadable(paths: Seq<Seq<char>>) -> int
    decreases paths.len(),
{
    if paths.len() == 0 {
        -1
    } else {
        let k = first_unreadable(paths.drop_last());
        if k >= 0 {
            k
        } else if snapshot_time(paths.last()) is None {
            paths.len() - 1
        } else {
            -1
        }
    }
}

/// The time of a path known to name one.
pub open spec fn time_of(path: Seq<char>) -> Timestamp {
    snapshot_time(path)->Some_0
}

/// Index of the latest snapshot: scanning in order, a path replaces the best so
/// far only when it is strictly later. -1 when there are no paths.
pub open spec fn latest_index(paths: Seq<Seq<char>>) -> int
    decreases paths.len(),
{
    if paths.len() == 0 {
        -1
    } else {
        let k = latest_index(paths.drop_last());
        if k < 0 || !timestamp_le(time_of(paths.last()), time_of(paths[k])) {
            paths.len() - 1
        } else {
            k
        }
    }
}

/// The scan finds the first unreadable path, if there is one.
pub proof fn lemma_first_unreadable(paths: Seq<Seq<char>>)
    ensures
        -1 <= first_unreadable(paths) < paths.len(),
        first_unreadable(paths) >= 0 ==> snapshot_time(paths[first_unreadable(paths)]) is None,
        forall|j: int| 0 <= j < paths.len() && (first_unreadable(paths) < 0 || j < first_unreadable(paths))
            ==> #[trigger] snapshot_time(paths[j]) is Some,
    decreases paths.len(),
{
    if paths.len() > 0 {
        let prefix = paths.drop_last();
        lemma_first_unreadable(prefix);
        assert forall|j: int| 0 <= j < paths.len() && (first_unreadable(paths) < 0 || j < first_unreadable(paths))
            implies #[trigger] snapshot_time(paths[j]) is Some by {
            if j < paths.len() - 1 {
                assert(paths[j] == prefix[j]);
            }
        }
        if first_unreadable(paths) >= 0 && first_unreadable(prefix) >= 0 {
            assert(paths[first_unreadable(paths)] == prefix[first_unreadable(prefix)]);
        }
    }
}

/// The latest snapshot is not earlier than any other, and strictly later than
/// every one listed before it: among equally late snapshots the first is chosen.
pub proof fn lemma_latest_index(paths: Seq<Seq<char>>)
    requires
        paths.len() > 0,
    ensures
        0 <= latest_index(paths) < paths.len(),
        forall|j: int| 0 <= j < paths.len() ==> #[trigger] timestamp_le(time_of(paths[j]), time_of(paths[latest_index(paths)])),
        forall|j: int| 0 <= j < latest_index(paths) ==> !#[trigger] timestamp_le(time_of(paths[latest_index(paths)]), time_of(paths[j])),
    decreases paths.len(),
{
    let prefix = paths.drop_last();
    let n = paths.len() - 1;
    let l = latest_index(paths);
    if prefix.len() == 0 {
        assert(latest_index(prefix) == -1);
    } else {
        lemma_latest_index(prefix);
        let k = latest_index(prefix);
        assert(paths[k] == prefix[k]);
        assert(paths.last() == paths[n]);
        if l == n {
            assert(!timestamp_le(time_of(paths[n]), time_of(paths[k])));
            assert forall|j: int| 0 <= j < paths.len() implies #[trigger] timestamp_le(time_of(paths[j]), time_of(paths[l])) by {
                if j < n {
                    assert(paths[j] == prefix[j]);
                    assert(timestamp_le(time_of(prefix[j]), time_of(prefix[k])));
                }
            }
            assert forall|j: int| 0 <= j < l implies !#[trigger] timestamp_le(time_of(paths[l]), time_of(paths[j])) by {
                assert(paths[j] == prefix[j]);
                assert(timestamp_le(time_of(prefix[j]), time_of(prefix[k])));
            }
        } else {
            assert(l == k);
            assert(timestamp_le(time_of(paths[n]), time_of(paths[k])));
            assert forall|j: int| 0 <= j < paths.len() implies #[trigger] timestamp_le(time_of(paths[j]), time_of(paths[l])) by {
                if j < n {
                    assert(paths[j] == prefix[j]);
                    assert(timestamp_le(time_of(prefix[j]), time_of(prefix[k])));
                }
            }
            assert forall|j: int| 0 <= j < l implies !#[trigger] timestamp_le(time_of(paths[l]), time_of(paths[j])) by {
                assert(paths[j] == prefix[j]);
                assert(!timestamp_le(time_of(prefix[k]), time_of(prefix[j])));
            }
        }
    }
}

/// A path that names no time settles the scan: the first unreadable path of a
/// list is that of any prefix that has one.
pub proof fn lemma_first_unreadable_prefix(paths: Seq<Seq<char>>, m: int)
    requires
        0 <= m <= paths.len(),
        first_unreadable(paths.take(m)) >= 0,
    ensures
        first_unreadable(paths) == first_unreadable(paths.take(m)),
    decreases paths.len(),
{
    if m == paths.len() {
        assert(paths.take(m) =~= paths);
    } else {
        assert(paths.drop_last().take(m) =~= paths.take(m));
        lemma_first_unreadable_prefix(paths.drop_last(), m);
    }
}

/// What looking for the latest snapshot gives: the error of the first path that
/// names no time (no file stem, or a stem that is not a date in the snapshot
/// format); else the error that stopped the listing; else the path of the latest
/// snapshot, `None` when there are none.
pub open spec fn latest_snapshot_outcome(
    paths: Seq<Seq<char>>,
    listing_error: bool,
    r: Result<Option<String>, SnapshotError>,
) -> bool {
    let fu = first_unreadable(paths);
    if fu >= 0 {
        match file_stem(paths[fu]) {
            None => r matches Err(SnapshotError::SnapshotEntryReadError),
            Some(_) => r matches Err(SnapshotError::InvalidSnapshotName(_)),
        }
    } else if listing_error {
        r matches Err(SnapshotError::SnapshotIOError(_))
    } else if paths.len() == 0 {
        r matches Ok(None)
    } else {
        r matches Ok(Some(p)) && p@ == paths[latest_index(paths)]
    }
}

impl Snapshot {
    /// Finds the latest snapshot among the files of the snapshot folder. `paths`
    /// are the files as listed, up to the first failed entry; `listing_error` is the
    /// error that stopped the listing, if any.
    pub fn find_latest_snapshot(paths: &Vec<String>, listing_error: Option<std::io::Error>) -> (r: Result<Option<String>, SnapshotError>)
        ensures
            latest_snapshot_outcome(crate::paths::string_views(paths@), listing_error is Some, r),
    {
        let ghost ps = crate::paths::string_views(paths@);
        let fmt = snapshot_date_format_str();
        let mut best: Option<(Timestamp, usize)> = None;
        let mut i: usize = 0;
        while i < paths.len()
            invariant
                i <= paths@.len(),
                ps == crate::paths::string_views(paths@),
                fmt@ == snapshot_date_format(),
                first_unreadable(ps.take(i as int)) < 0,
                best is None <==> i == 0,
                best matches Some((t, k)) ==> k as int == latest_index(ps.take(i as int)) && k < i && t == time_of(ps[k as int]),
            decreases paths@.len() - i,
        {
            let ghost prefix = ps.take(i + 1);
            proof {
                assert(prefix.drop_last() =~= ps.take(i as int));
                assert(prefix.last() == ps[i as int]);
                assert(ps[i as int] == paths@[i as int]@);
            }
            let stem = match file_stem_of(paths[i].as_str()) {
                Some(s) => s,
                None => {
                    proof {
                        lemma_first_unreadable_prefix(ps, i + 1);
                    }
                    return Err(SnapshotError::SnapshotEntryReadError);
                },
            };
            let t = match parse_snapshot_date(stem.as_str(), fmt) {
                Ok(t) => t,
                Err(e) => {
                    proof {
                        lemma_first_unreadable_prefix(ps, i + 1);
                    }
                    return Err(SnapshotError::InvalidSnapshotName(e));
                },
            };
            best = match best {
                None => {
                    proof {
                        assert(latest_index(prefix.drop_last()) == -1);
                    }
                    Some((t, i))
                },
                Some((bt, bk)) => {
                    proof {
                        assert(prefix[bk as int] == ps[bk as int]);
                    }
                    if t.later_than(&bt) {
                        Some((t, i))
                    } else {
                        Some((bt, bk))
                    }
                },
            };
            i = i + 1;
        }
        proof {
            assert(ps.take(paths@.len() as int) =~= ps);
        }
        match listing_error {
            Some(e) => return Err(SnapshotError::SnapshotIOError(e)),
            None => {},
        }
        match best {
            None => Ok(None),
            Some((_, k)) => Ok(Some(paths[k].clone())),
        }
    }
}

/// The path of the snapshot with id `id`: the whole id, followed by `.toml`, in
/// the snapshot folder.
pub open spec fn snapshot_path(config: Config, id: Seq<char>) -> Seq<char> {
    join_path(snapshots_path(config.spec_store_root()), id) + seq!['.'] + snapshot_extension()
}

/// The id of a snapshot is read back from its file: the stem of the snapshot's
/// path is the id and its extension is `toml`, for an id that is not empty and
/// holds no separator.
pub proof fn lemma_snapshot_id_from_path(config: Config, id: Seq<char>)
    requires
        id.len() > 0,
        crate::paths::no_separator(id),
    ensures
        file_stem(snapshot_path(config, id)) == Some(id),
        extension(snapshot_path(config, id)) == Some(snapshot_extension()),
{
    let ext = snapshot_extension();
    assert(ext[0] != '/' && ext[0] != '.' && ext[1] != '/' && ext[1] != '.' && ext[2] != '/'
        && ext[2] != '.' && ext[3] != '/' && ext[3] != '.');
    crate::paths::lemma_stem_of_extended_file(snapshots_path(config.spec_store_root()), id, ext);
}

impl Snapshot {
    /// The path of the snapshot with id `id`.
    pub fn get_snapshot_path_from_id(config: &Config, id: String) -> (r: String)
        ensures
            r@ == snapshot_path(*config, id@),
    {
        let dir = config.get_snaphots_path();
        let mut joined = join_path_of(dir.as_str(), id.as_str());
        let dot = ".";
        proof {
            reveal_strlit(".");
        }
        joined.append(dot);
        joined.append(snapshot_extension_str());
        proof {
            assert(joined@ =~= join_path(snapshots_path(config.spec_store_root()), id@) + seq!['.']
                + snapshot_extension());
        }
        joined
    }

    /// The path of a new snapshot taken at `now`: its id is the time in the snapshot
    /// format. `None` when the time is out of the range of dates.
    pub fn snapshot_path_for_time(config: &Config, now: Timestamp) -> (r: Option<String>)
        ensures
            match formatted_datetime(now, snapshot_date_format()) {
                Some(id) => r matches Some(p) && p@ == snapshot_path(*config, id),
                None => r is None,
            },
    {
        match format_snapshot_date(now, snapshot_date_format_str()) {
            Some(id) => Some(Snapshot::get_snapshot_path_from_id(config, id)),
            None => None,
        }
    }
}

/// An entry of a directory listing: its path and whether it is a file.
pub struct DirEntryInfo {
    pub path: String,
    pub is_file: bool,
}

/// Whether a listed entry is a snapshot file: a file with the `toml` extension.
pub open spec fn is_snapshot_file(e: DirEntryInfo) -> bool {
    e.is_file && extension(e.path@) == Some(snapshot_extension())
}

/// The ids of the snapshot files among `entries`, in order: their file stems.
pub open spec fn snapshot_ids(entries: Seq<DirEntryInfo>) -> Seq<Seq<char>>
    decreases entries.len(),
{
    if entries.len() == 0 {
        Seq::empty()
    } else {
        let prev = snapshot_ids(entries.drop_last());
        let e = entries.last();
        if is_snapshot_file(e) {
            match file_stem(e.path@) {
                Some(s) => prev.push(s),
                None => prev,
            }
        } else {
            prev
        }
    }
}

impl Snapshot {
    /// The ids of all snapshots, read from the listing of the snapshot folder.
    pub fn load_all_snapshot_ids(entries: &Vec<DirEntryInfo>) -> (r: Vec<String>)
        ensures
            crate::paths::string_views(r@) == snapshot_ids(entries@),
    {
        let ext = snapshot_extension_str();
        let mut out: Vec<String> = Vec::new();
        let mut i: usize = 0;
        while i < entries.len()
            invariant
                i <= entries@.len(),
                ext@ == snapshot_extension(),
                crate::paths::string_views(out@) == snapshot_ids(entries@.take(i as int)),
            decreases entries@.len() - i,
        {
            let e = &entries[i];
            proof {
                assert(entries@.take(i + 1).drop_last() =~= entries@.take(i as int));
                assert(entries@.take(i + 1).last() == entries@[i as int]);
            }
            let is_toml = match extension_of(e.path.as_str()) {
                Some(x) => str_equal(x.as_str(), ext),
                None => false,
            };
            if e.is_file && is_toml {
                match file_stem_of(e.path.as_str()) {
                    Some(s) => {
                        let ghost before = out@;
                        out.push(s);
                        proof {
                            assert(crate::paths::string_views(out@) =~= crate::paths::string_views(before).push(s@));
                        }
                    },
                    None => {},
                }
            }
            i = i + 1;
        }
        proof {
            assert(entries@.take(entries@.len() as int) =~= entries@);
        }
        out
    }
}

} // verus!
