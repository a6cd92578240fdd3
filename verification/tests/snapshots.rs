use galvanizer::config::Config;
use galvanizer::root_definition::RootDefinition;
use galvanizer::snapshots::shapshot_delta::SnapshotDelta;
use galvanizer::snapshots::shapshot_entry::{SnapshotEntry, Timestamp};
use galvanizer::snapshots::snapshot::{Snapshot, SnapshotError};
use galvanizer::snapshots::snapshot_builder::snapshot_builder_task;
use galvanizer::snapshots::snapshot_io::DirEntryInfo;
use galvanizer::store_preferences::StorePreferences;

fn root(name: &str, path: &str) -> RootDefinition {
    RootDefinition::new(name.to_string(), path.to_string(), None)
}

fn delta(r: &RootDefinition, file: &str, hash: &str, t: i64) -> SnapshotDelta {
    SnapshotDelta {
        root: r.clone(),
        file_id: file.to_string(),
        entry: SnapshotEntry::new(hash.to_string(), Timestamp::new(t, 0)),
    }
}

fn config() -> Config {
    Config::new(
        "1".to_string(),
        StorePreferences::new("/store".to_string(), None),
        None,
        None,
        vec![],
    )
}

#[test]
fn recorded_delta_is_found() {
    let r = root("docs", "/home/docs");
    let mut snapshot = Snapshot::empty();
    snapshot.record_delta(delta(&r, "a.txt", "h1", 1));
    snapshot.record_delta(delta(&r, "a.txt", "h2", 2));
    snapshot.record_delta(delta(&r, "b.txt", "h3", 3));
    let a = snapshot.get_entry_for_file_in_root("docs", "a.txt").unwrap();
    assert_eq!(a.data_hash(), "h2");
    assert_eq!(a.last_modified(), Timestamp::new(2, 0));
    assert_eq!(snapshot.get_entry_for_file_in_root("docs", "b.txt").unwrap().data_hash(), "h3");
    assert!(snapshot.get_entry_for_file_in_root("docs", "c.txt").is_none());
    assert!(snapshot.get_entry_for_file_in_root("other", "a.txt").is_none());
    assert_eq!(snapshot.get_roots().keys(), vec!["docs".to_string()]);
}

#[test]
fn built_snapshot_keeps_last_entry_and_first_root() {
    let first = root("docs", "/home/docs");
    let second = root("docs", "/elsewhere");
    let other = root("pics", "/home/pics");
    let snapshot = snapshot_builder_task(vec![
        delta(&first, "a.txt", "h1", 1),
        delta(&other, "p.png", "h9", 5),
        delta(&second, "a.txt", "h2", 2),
    ]);
    assert_eq!(snapshot.get_entry_for_file_in_root("docs", "a.txt").unwrap().data_hash(), "h2");
    assert_eq!(snapshot.get_entry_for_file_in_root("pics", "p.png").unwrap().data_hash(), "h9");
    let docs = snapshot.get_roots().get("docs").unwrap();
    assert_eq!(docs.root_definition().path(), "/home/docs");
    assert_eq!(snapshot.get_roots().keys(), vec!["docs".to_string(), "pics".to_string()]);
}

#[test]
fn latest_snapshot_is_the_newest_date() {
    let paths = vec![
        "/store/snapshots/2024-01-02_10:00:00.500.toml".to_string(),
        "/store/snapshots/2024-03-01_09:00:00.000.toml".to_string(),
        "/store/snapshots/2023-12-31_23:59:59.999.toml".to_string(),
    ];
    let latest = Snapshot::find_latest_snapshot(&paths, None).unwrap();
    assert_eq!(latest, Some("/store/snapshots/2024-03-01_09:00:00.000.toml".to_string()));
}

#[test]
fn latest_snapshot_first_among_equals() {
    let paths = vec![
        "/a/2024-01-02_10:00:00.500.toml".to_string(),
        "/b/2024-01-02_10:00:00.500.toml".to_string(),
    ];
    assert_eq!(Snapshot::find_latest_snapshot(&paths, None).unwrap(), Some(paths[0].clone()));
}

#[test]
fn no_snapshots_no_latest() {
    assert_eq!(Snapshot::find_latest_snapshot(&vec![], None).unwrap(), None);
}

#[test]
fn badly_named_snapshot_is_an_error() {
    let paths = vec![
        "/store/snapshots/2024-01-02_10:00:00.500.toml".to_string(),
        "/store/snapshots/notes.toml".to_string(),
    ];
    let err = Snapshot::find_latest_snapshot(&paths, None).unwrap_err();
    assert!(matches!(err, SnapshotError::InvalidSnapshotName(_)));
    let err = Snapshot::find_latest_snapshot(&vec!["/".to_string()], None).unwrap_err();
    assert!(matches!(err, SnapshotError::SnapshotEntryReadError));
    let err = Snapshot::find_latest_snapshot(
        &vec![],
        Some(std::io::Error::new(std::io::ErrorKind::Other, "listing failed")),
    )
    .unwrap_err();
    assert!(matches!(err, SnapshotError::SnapshotIOError(_)));
}

#[test]
fn snapshot_path_keeps_the_whole_id() {
    let config = config();
    assert_eq!(
        Snapshot::get_snapshot_path_from_id(&config, "2024-01-01_12:00:00.123".to_string()),
        "/store/snapshots/2024-01-01_12:00:00.123.toml"
    );
    assert_eq!(
        Snapshot::get_snapshot_path_from_id(&config, "plain".to_string()),
        "/store/snapshots/plain.toml"
    );
}

#[test]
fn snapshot_named_by_time() {
    let config = config();
    let path = Snapshot::snapshot_path_for_time(&config, Timestamp::new(0, 0)).unwrap();
    assert_eq!(path, "/store/snapshots/1970-01-01_00:00:00.000.toml");
    let listed = vec![DirEntryInfo { path: path.clone(), is_file: true }];
    assert_eq!(Snapshot::load_all_snapshot_ids(&listed), vec!["1970-01-01_00:00:00.000".to_string()]);
    assert_eq!(Snapshot::find_latest_snapshot(&vec![path.clone()], None).unwrap(), Some(path));
}

#[test]
fn snapshot_ids_are_toml_file_stems() {
    let entries = vec![
        DirEntryInfo { path: "/s/snapshots/2024-01-01_00:00:00.toml".to_string(), is_file: true },
        DirEntryInfo { path: "/s/snapshots/readme.txt".to_string(), is_file: true },
        DirEntryInfo { path: "/s/snapshots/dir.toml".to_string(), is_file: false },
        DirEntryInfo { path: "/s/snapshots/b.toml".to_string(), is_file: true },
    ];
    assert_eq!(
        Snapshot::load_all_snapshot_ids(&entries),
        vec!["2024-01-01_00:00:00".to_string(), "b".to_string()]
    );
}
