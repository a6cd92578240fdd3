use galvanizer::config::Config;
use galvanizer::digest::evaluate_file_sha512_hash;
use galvanizer::paths::file_stem_of;
use galvanizer::root_definition::{RootDefinition, OUTSIDE_ROOT_MESSAGE};
use galvanizer::snapshots::shapshot_entry::Timestamp;
use galvanizer::store::StoreBuilder;
use galvanizer::store_cache::file_io::{
    compress_and_store_file, store_file, uncompress_and_restore, COMPRESSED_SOURCE_MESSAGE,
};
use galvanizer::store_cache::hash_db::HashDB;
use galvanizer::store_error::{CacheHandlerError, StoreError};
use galvanizer::store_preferences::StorePreferences;

fn io_error() -> std::io::Error {
    std::io::Error::new(std::io::ErrorKind::Other, "unreadable")
}

fn mock_root() -> RootDefinition {
    RootDefinition::new("example_root".to_string(), "/resources/example_files".to_string(), None)
}

fn mock_config() -> Config {
    Config::new(
        "1.2.3".to_string(),
        StorePreferences::new("/resources/example_store".to_string(), None),
        None,
        None,
        vec![mock_root()],
    )
}

#[test]
fn test_empty_file_hash() {
    let hash = evaluate_file_sha512_hash(&[]);
    assert_eq!(
        hash,
        "z4PhNX7vuL3xVChQ1m2AB9Yg5AULVxXcg_SpIdNs6c5H0NE8XYXysP-DGNKHfuwvY7kxvUdBeoGlODJ6-SfaPg=="
    );
}

#[test]
fn check_if_hashes_match() {
    let file_a = b"This is file a.\n".to_vec();
    let file_a_copy = b"This is file a.\n".to_vec();
    assert_eq!(evaluate_file_sha512_hash(&file_a), evaluate_file_sha512_hash(&file_a_copy));
}

#[test]
fn different_contents_hash_differently() {
    let a = evaluate_file_sha512_hash(b"a");
    let b = evaluate_file_sha512_hash(b"b");
    assert_ne!(a, b);
    assert_eq!(a.len(), 88);
    assert!(!a.contains('/') && !a.contains('.'));
}

#[test]
fn test_store() {
    let mut store = StoreBuilder::new(mock_config()).init_and_build(&vec![]);
    let file_path = "/resources/example_files/subfolder/some_file.txt";
    let root = mock_root();
    let contents = b"some file contents\n".to_vec();
    let first = store
        .store_file(file_path, &root, Ok(Timestamp::new(10, 0)), Ok(contents.clone()))
        .unwrap();
    let second = store
        .store_file(file_path, &root, Ok(Timestamp::new(10, 0)), Ok(contents.clone()))
        .unwrap();
    let third = store
        .store_file(file_path, &root, Ok(Timestamp::new(10, 0)), Ok(contents.clone()))
        .unwrap();
    assert!(first.write.is_some());
    assert!(second.write.is_none());
    assert!(third.write.is_none());
    assert_eq!(first.delta.file_id, "subfolder/some_file.txt");
    assert_eq!(first.delta.root.name(), "example_root");
    assert_eq!(first.delta.entry.data_hash(), evaluate_file_sha512_hash(&contents));
    assert_eq!(first.delta.entry.last_modified(), Timestamp::new(10, 0));
}

#[test]
fn stored_contents_are_restored() {
    let config = mock_config();
    let mut db = HashDB::empty();
    let contents = b"restore me, please".to_vec();
    let stored = store_file(
        &config,
        &mut db,
        "/resources/example_files/a.txt",
        &mock_root(),
        Ok(Timestamp::new(1, 2)),
        Ok(contents.clone()),
    )
    .unwrap();
    let write = stored.write.unwrap();
    let hash = evaluate_file_sha512_hash(&contents);
    assert_eq!(write.destination, config.get_store_cache_path_for_hash(&hash));
    assert_ne!(write.data, contents);
    let restored = uncompress_and_restore(Ok(write.data)).unwrap();
    assert_eq!(restored, contents);
}

#[test]
fn cache_file_is_named_by_its_hash() {
    let config = mock_config();
    let hash = evaluate_file_sha512_hash(b"named");
    let location = config.get_store_cache_path_for_hash(&hash);
    assert_eq!(file_stem_of(&location), Some(hash.clone()));
    let reopened = HashDB::empty().update_hash_set_with_cache_contents(&vec![location.clone()]);
    assert!(reopened.contains(&hash));
    let mut db = HashDB::empty().update_hash_set_with_cache_contents(&vec![
        "/s/data_store/ab/other.bin".to_string(),
    ]);
    assert!(db.contains("other"));
    assert!(!db.insert("other".to_string()));
    let store = StoreBuilder::new(config).init_and_build(&vec![location]);
    assert_eq!(store.config().store().path(), "/resources/example_store");
}

#[test]
fn store_file_errors_in_order() {
    let config = mock_config();
    let mut db = HashDB::empty();
    let root = mock_root();
    let r = store_file(&config, &mut db, "/elsewhere/a.txt", &root, Err(io_error()), Err(io_error()));
    assert!(matches!(r, Err(StoreError::FileMetadataError(_))));
    let r = store_file(&config, &mut db, "/elsewhere/a.txt", &root, Ok(Timestamp::new(0, 0)), Err(io_error()));
    assert!(matches!(r, Err(StoreError::PathIdentifierError(m)) if m == OUTSIDE_ROOT_MESSAGE));
    let r = store_file(
        &config,
        &mut db,
        "/resources/example_files/a.txt",
        &root,
        Ok(Timestamp::new(0, 0)),
        Err(io_error()),
    );
    assert!(matches!(r, Err(StoreError::ErrorDuringHashEval(_))));
    assert!(db.into_hashset().is_empty());
}

#[test]
fn restore_errors() {
    let r = uncompress_and_restore(Err(io_error()));
    assert!(matches!(r, Err(CacheHandlerError::FailedToOpenFile(_, m)) if m == COMPRESSED_SOURCE_MESSAGE));
    let r = uncompress_and_restore(Ok(b"not a snappy stream".to_vec()));
    assert!(matches!(r, Err(CacheHandlerError::ErrorDuringCompression(_))));
}

#[test]
fn compressed_write_goes_to_hash_location() {
    let config = mock_config();
    let w = compress_and_store_file(&config, b"abc", "XYZhash").unwrap();
    assert_eq!(w.destination, "/resources/example_store/data_store/XY/XYZhash.bin");
    assert_eq!(uncompress_and_restore(Ok(w.data)).unwrap(), b"abc".to_vec());
}

#[test]
fn hash_db_lists_each_hash_once() {
    let mut db = HashDB::empty();
    assert!(db.insert("h1".to_string()));
    assert!(db.insert("h2".to_string()));
    assert!(!db.insert("h1".to_string()));
    let mut all = db.into_hashset();
    all.sort();
    assert_eq!(all, vec!["h1".to_string(), "h2".to_string()]);
}

#[test]
fn reopened_store_does_not_store_again() {
    let config = mock_config();
    let contents = b"already stored".to_vec();
    let location = config.get_store_cache_path_for_hash(&evaluate_file_sha512_hash(&contents));
    let mut store = StoreBuilder::new(config).init_and_build(&vec![location]);
    let stored = store
        .store_file(
            "/resources/example_files/again.txt",
            &mock_root(),
            Ok(Timestamp::new(5, 0)),
            Ok(contents),
        )
        .unwrap();
    assert!(stored.write.is_none());
    assert_eq!(stored.delta.file_id, "again.txt");
}

#[test]
fn discarded_hash_is_written_again() {
    let mut store = StoreBuilder::new(mock_config()).init_and_build(&vec![]);
    let contents = b"write me twice".to_vec();
    let first = store
        .store_file("/resources/example_files/a.txt", &mock_root(), Ok(Timestamp::new(1, 0)), Ok(contents.clone()))
        .unwrap();
    assert!(first.write.is_some());
    store.discard_hash(first.delta.entry.data_hash());
    let second = store
        .store_file("/resources/example_files/b.txt", &mock_root(), Ok(Timestamp::new(1, 0)), Ok(contents))
        .unwrap();
    assert!(second.write.is_some());
    let mut db = HashDB::empty();
    db.insert("h".to_string());
    assert!(db.remove("h"));
    assert!(!db.remove("h"));
    assert!(!db.contains("h"));
}
