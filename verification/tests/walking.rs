use galvanizer::config::Config;
use galvanizer::pruning::{get_snapshots_to_prune_and_leave_n_newest, get_unused_hashes_to_prune};
use galvanizer::root_definition::RootDefinition;
use galvanizer::root_preferences::RootPreferences;
use galvanizer::root_walker::{classify_entry, prepare_root, WalkResult, WalkedFile, WalkerError};
use galvanizer::schemas::restore::RestoreArgs;
use galvanizer::snapshot_walker::{
    walk_all_files_in_snapshot, walk_all_files_in_snapshot_filtered, RestoreDecision,
    SnapshotWalkerErr, SnapshotWalkerFilter,
};
use galvanizer::snapshots::shapshot_delta::SnapshotDelta;
use galvanizer::snapshots::shapshot_entry::{SnapshotEntry, Timestamp};
use galvanizer::snapshots::snapshot::Snapshot;
use galvanizer::store_cache::hash_db::HashDB;
use galvanizer::store_preferences::StorePreferences;
use galvanizer::text::sort_texts;

fn prefs(inclusions: Option<Vec<&str>>, exclusions: Option<Vec<&str>>) -> RootPreferences {
    RootPreferences::new(
        inclusions.map(|v| v.into_iter().map(|s| s.to_string()).collect()),
        exclusions.map(|v| v.into_iter().map(|s| s.to_string()).collect()),
        None,
        None,
    )
}

fn config_with(root: RootDefinition) -> Config {
    Config::new(
        "1".to_string(),
        StorePreferences::new("/store".to_string(), None),
        None,
        Some(prefs(None, Some(vec!["**/*.tmp"]))),
        vec![root],
    )
}

fn file(path: &str, is_file: bool, t: i64) -> Result<WalkedFile, walkdir::Error> {
    Ok(WalkedFile { path: path.to_string(), is_file, modified: Ok(Timestamp::new(t, 0)) })
}

fn old_snapshot(root: &RootDefinition) -> Snapshot {
    let mut s = Snapshot::empty();
    s.record_delta(SnapshotDelta {
        root: root.clone(),
        file_id: "kept.txt".to_string(),
        entry: SnapshotEntry::new("hash-kept".to_string(), Timestamp::new(100, 0)),
    });
    s
}

#[test]
fn unchanged_file_is_carried_over() {
    let root = RootDefinition::new("r".to_string(), "/data".to_string(), None);
    let config = config_with(root.clone());
    let walk = prepare_root(&config, &root).ok().unwrap();
    let old = old_snapshot(&root);
    match classify_entry(&walk, &old, file("/data/kept.txt", true, 100)) {
        Some(Ok(WalkResult::UnchangedFile(d))) => {
            assert_eq!(d.file_id, "kept.txt");
            assert_eq!(d.entry.data_hash(), "hash-kept");
            assert_eq!(d.root.name(), "r");
        },
        _ => panic!("expected an unchanged file"),
    }
    match classify_entry(&walk, &old, file("/data/kept.txt", true, 101)) {
        Some(Ok(WalkResult::NewFile { path, root })) => {
            assert_eq!(path, "/data/kept.txt");
            assert_eq!(root.name(), "r");
        },
        _ => panic!("expected a changed file"),
    }
    assert!(matches!(
        classify_entry(&walk, &old, file("/data/new.txt", true, 1)),
        Some(Ok(WalkResult::NewFile { .. }))
    ));
}

#[test]
fn skipped_entries() {
    let root = RootDefinition::new("r".to_string(), "/data".to_string(), Some(prefs(Some(vec!["**/*.a"]), None)));
    let config = config_with(root.clone());
    let walk = prepare_root(&config, &root).ok().unwrap();
    let old = Snapshot::empty();
    assert!(classify_entry(&walk, &old, file("/data/dir.a", false, 1)).is_none());
    assert!(classify_entry(&walk, &old, file("/data/file.b", true, 1)).is_none());
    assert!(classify_entry(&walk, &old, file("/data/x.tmp", true, 1)).is_none());
    assert!(classify_entry(&walk, &old, file("/data/file.a", true, 1)).is_some());
}

#[test]
fn walk_errors() {
    let root = RootDefinition::new("r".to_string(), "/data".to_string(), None);
    let config = config_with(root.clone());
    let walk = prepare_root(&config, &root).ok().unwrap();
    let old = Snapshot::empty();
    assert!(matches!(
        classify_entry(&walk, &old, file("/other/file.a", true, 1)),
        Some(Err(WalkerError::PathIdentifierError(_)))
    ));
    let unreadable = Ok(WalkedFile {
        path: "/data/f".to_string(),
        is_file: true,
        modified: Err(std::io::Error::new(std::io::ErrorKind::Other, "no time")),
    });
    assert!(matches!(
        classify_entry(&walk, &old, unreadable),
        Some(Err(WalkerError::ModificationDateReadError(_)))
    ));
    let stranger = RootDefinition::new("x".to_string(), "/x".to_string(), None);
    assert!(matches!(prepare_root(&config, &stranger), Err(WalkerError::RootDoesNotExist(n)) if n == "x"));
    let broken = RootDefinition::new("b".to_string(), "/b".to_string(), Some(prefs(Some(vec!["a["]), None)));
    let config = config_with(broken.clone());
    assert!(matches!(prepare_root(&config, &broken), Err(WalkerError::RootConfigurationError(_))));
}

#[test]
fn snapshot_walk_restores_to_original_paths() {
    let root = RootDefinition::new("r".to_string(), "/data".to_string(), None);
    let old = old_snapshot(&root);
    let items = walk_all_files_in_snapshot(&old);
    assert_eq!(items.len(), 1);
    assert_eq!(items[0].root_id, "r");
    assert_eq!(items[0].path, "/data/kept.txt");
    assert_eq!(items[0].hash_str, "hash-kept");
}

#[test]
fn filtered_snapshot_walk() {
    let root = RootDefinition::new("r".to_string(), "/data".to_string(), None);
    let mut snapshot = old_snapshot(&root);
    snapshot.record_delta(SnapshotDelta {
        root: root.clone(),
        file_id: "file.a".to_string(),
        entry: SnapshotEntry::new("hash-a".to_string(), Timestamp::new(1, 0)),
    });
    let mut filter = SnapshotWalkerFilter::all();
    filter.file_id = Some("*.a".to_string());
    let out = walk_all_files_in_snapshot_filtered(&snapshot, &filter);
    assert_eq!(out.len(), 1);
    assert_eq!(out[0].as_ref().ok().unwrap().path, "/data/file.a");

    let mut filter = SnapshotWalkerFilter::all();
    filter.root_id = Some("other".to_string());
    let out = walk_all_files_in_snapshot_filtered(&snapshot, &filter);
    assert_eq!(out.len(), 1);
    assert!(matches!(&out[0], Err(SnapshotWalkerErr::RootNameDoesNotMatchCriteria { root_id, filter }) if root_id == "r" && filter == "other"));

    let mut filter = SnapshotWalkerFilter::all();
    filter.file_id = Some("a[".to_string());
    let out = walk_all_files_in_snapshot_filtered(&snapshot, &filter);
    assert_eq!(out.len(), 2);
    assert!(matches!(&out[0], Err(SnapshotWalkerErr::InvalidFileGlob(_))));
}

#[test]
fn restore_decisions() {
    let mut filter = SnapshotWalkerFilter::all();
    assert_eq!(filter.decide(true), RestoreDecision::Restore);
    assert_eq!(filter.decide(false), RestoreDecision::Restore);
    filter.dont_overwrite_files = true;
    assert_eq!(filter.decide(true), RestoreDecision::SkipExisting);
    filter.skip_missing_file_restore = true;
    assert_eq!(filter.decide(false), RestoreDecision::SkipMissing);
}

#[test]
fn restore_args_become_a_filter() {
    let args = RestoreArgs {
        snapshot_id: Some("s".to_string()),
        root_id: None,
        file_id: Some("*.a".to_string()),
        dont_overwrite_files: true,
        skip_missing_file_restore: false,
        delete_new_files: false,
    };
    let filter: SnapshotWalkerFilter = args.into();
    assert_eq!(filter.snapshot_id, Some("s".to_string()));
    assert_eq!(filter.file_id, Some("*.a".to_string()));
    assert!(filter.dont_overwrite_files);
    assert!(!filter.skip_missing_file_restore);
}

#[test]
fn keep_the_newest_snapshots() {
    let ids = vec![
        "2024-02-01_00:00:00".to_string(),
        "2023-12-01_00:00:00".to_string(),
        "2024-01-01_00:00:00".to_string(),
    ];
    assert_eq!(
        get_snapshots_to_prune_and_leave_n_newest(&ids, 1),
        vec!["2023-12-01_00:00:00".to_string(), "2024-01-01_00:00:00".to_string()]
    );
    assert!(get_snapshots_to_prune_and_leave_n_newest(&ids, 3).is_empty());
    assert!(get_snapshots_to_prune_and_leave_n_newest(&ids, 10).is_empty());
    assert_eq!(get_snapshots_to_prune_and_leave_n_newest(&ids, 0).len(), 3);
}

#[test]
fn texts_sort_by_character() {
    let v = vec!["b".to_string(), "ab".to_string(), "a".to_string(), "B".to_string(), "a".to_string()];
    assert_eq!(
        sort_texts(&v),
        vec!["B".to_string(), "a".to_string(), "a".to_string(), "ab".to_string(), "b".to_string()]
    );
}

#[test]
fn unused_hashes_are_those_no_snapshot_names() {
    let root = RootDefinition::new("r".to_string(), "/data".to_string(), None);
    let snapshots = vec![old_snapshot(&root)];
    let stored = HashDB::empty().update_hash_set_with_cache_contents(&vec![
        "/store/data_store/ha/hash-kept.bin".to_string(),
        "/store/data_store/ha/hash-gone.bin".to_string(),
    ]);
    let unused = get_unused_hashes_to_prune(stored, &snapshots);
    assert_eq!(unused, vec!["hash-gone".to_string()]);
}
