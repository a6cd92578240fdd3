use galvanizer::compression::CompressionOptions;
use galvanizer::config::Config;
use galvanizer::root_definition::{RootDefinition, OUTSIDE_ROOT_MESSAGE};
use galvanizer::root_preferences::RootPreferences;
use galvanizer::store_preferences::StorePreferences;

fn mock_config() -> Config {
    let version = "1.2.3".to_string();
    let store = StorePreferences::new("resources/example_store".to_string(), None);
    let compression_settings = Some(CompressionOptions::Snap);
    let root = RootDefinition::new(
        "example_root".to_string(),
        "resources/example_files".to_string(),
        None,
    );
    Config::new(version, store, compression_settings, None, vec![root.clone()])
}

#[test]
fn test_config_init() {
    let config = mock_config();

    assert!(config
        .get_store_cache_path_for_hash("0123456789ABCDEF")
        .ends_with("/data_store/01/0123456789ABCDEF.bin"));

    assert_eq!(config.store().subfolder_prefix_length(), 2);

    assert_eq!(config.backup_roots().len(), 1);

    assert_eq!(config.find_root_by_id("example_root").unwrap().name(), "example_root");

    assert_eq!(
        config.get_combined_preferences_for_root("example_root").unwrap().exclusions(),
        None
    );
}

#[test]
fn store_folders_are_under_the_store_root() {
    let config = mock_config();
    assert_eq!(config.get_root(), "resources/example_store");
    assert_eq!(config.get_store_cache_path(), "resources/example_store/data_store");
    assert_eq!(config.get_snaphots_path(), "resources/example_store/snapshots");
    assert_eq!(
        config.get_store_cache_path_for_hash("0123456789ABCDEF"),
        "resources/example_store/data_store/01/0123456789ABCDEF.bin"
    );
}

#[test]
fn cache_path_uses_configured_prefix_length() {
    let store = StorePreferences::new("/store/".to_string(), Some(4));
    let config = Config::new("1".to_string(), store, None, None, vec![]);
    assert_eq!(config.get_store_cache_path_for_hash("abcdefgh"), "/store/data_store/abcd/abcdefgh.bin");
    let store = StorePreferences::new("/store".to_string(), Some(20));
    let config = Config::new("1".to_string(), store, None, None, vec![]);
    assert_eq!(config.get_store_cache_path_for_hash("abc"), "/store/data_store/abc/abc.bin");
}

#[test]
fn missing_root_has_no_preferences() {
    let config = mock_config();
    assert!(config.find_root_by_id("other").is_none());
    assert!(config.get_combined_preferences_for_root("other").is_none());
}

#[test]
fn first_root_of_a_name_is_found() {
    let first = RootDefinition::new("r".to_string(), "/first".to_string(), None);
    let second = RootDefinition::new("r".to_string(), "/second".to_string(), None);
    let config = Config::new(
        "1".to_string(),
        StorePreferences::new("/s".to_string(), None),
        None,
        None,
        vec![first, second],
    );
    assert_eq!(config.find_root_by_id("r").unwrap().path(), "/first");
}

#[test]
fn root_preferences_take_priority_over_defaults() {
    let root_prefs = RootPreferences::new(Some(vec!["*.a".to_string()]), None, None, None);
    let defaults = RootPreferences::new(
        Some(vec!["*.b".to_string()]),
        Some(vec!["*.tmp".to_string()]),
        Some(vec!["10MB".to_string()]),
        Some(true),
    );
    let root = RootDefinition::new("r".to_string(), "/data".to_string(), Some(root_prefs));
    let config = Config::new(
        "1".to_string(),
        StorePreferences::new("/s".to_string(), None),
        None,
        Some(defaults),
        vec![root],
    );
    let combined = config.get_combined_preferences_for_root("r").unwrap();
    assert_eq!(combined.inclusions(), Some(&vec!["*.a".to_string()]));
    assert_eq!(combined.exclusions(), Some(&vec!["*.tmp".to_string()]));
    assert_eq!(combined.max_file_size(), Some(&vec!["10MB".to_string()]));
    assert!(combined.substitute_big_files_with_path());
}

#[test]
fn fill_with_priority_falls_back_field_by_field() {
    let primary = RootPreferences::new(None, Some(vec!["x".to_string()]), None, None);
    let supplementary = RootPreferences::new(Some(vec!["y".to_string()]), Some(vec!["z".to_string()]), None, Some(false));
    let filled = RootPreferences::fill_with_priority(Some(primary), Some(supplementary));
    assert_eq!(filled.inclusions(), Some(&vec!["y".to_string()]));
    assert_eq!(filled.exclusions(), Some(&vec!["x".to_string()]));
    assert_eq!(filled.max_file_size(), None);
    assert_eq!(filled.substitute_big_files_with_path_setting(), Some(false));
    let none = RootPreferences::fill_with_priority(None, None);
    assert_eq!(none.inclusions(), None);
    assert!(!none.substitute_big_files_with_path());
}

#[test]
fn invalid_glob_is_a_pattern_error() {
    let prefs = RootPreferences::new(Some(vec!["a[".to_string()]), None, None, None);
    assert!(prefs.inclusions_globset().is_err());
    assert!(prefs.exclusions_globset().is_ok());
    let everything = RootPreferences::new(None, None, None, None).inclusions_globset().unwrap();
    assert!(everything.is_match("some/file.txt"));
}

#[test]
fn path_identifier_round_trip() {
    let root = RootDefinition::new("r".to_string(), "/data/root".to_string(), None);
    let id = root.make_path_identifier("/data/root/a/b.txt").unwrap();
    assert_eq!(id, "a/b.txt");
    assert_eq!(root.make_original_file_path_from_identifier(&id), "/data/root/a/b.txt");
}

#[test]
fn path_outside_root_has_no_identifier() {
    let root = RootDefinition::new("r".to_string(), "/data/root".to_string(), None);
    assert_eq!(root.make_path_identifier("/data/rooted/a.txt"), Err(OUTSIDE_ROOT_MESSAGE));
    assert_eq!(root.make_path_identifier("/other/a.txt"), Err(OUTSIDE_ROOT_MESSAGE));
}
