use galvanizer::paths::{extension_of, file_stem_of, join_path_of, strip_path_prefix_of, with_extension_of};
use galvanizer::root_definition::RootDefinition;

#[test]
fn join_puts_one_separator() {
    assert_eq!(join_path_of("/data", "a/b"), "/data/a/b");
    assert_eq!(join_path_of("/data/", "a"), "/data/a");
    assert_eq!(join_path_of("", "a"), "a");
    assert_eq!(join_path_of("/data", "/abs"), "/abs");
}

#[test]
fn strip_works_by_components() {
    assert_eq!(strip_path_prefix_of("/data/root/a.txt", "/data/root/"), Some("a.txt".to_string()));
    assert_eq!(strip_path_prefix_of("/data/root", "/data/root"), Some("".to_string()));
    assert_eq!(strip_path_prefix_of("data/a", "/data"), None);
    assert_eq!(strip_path_prefix_of("/data//a", "/data"), Some("a".to_string()));
}

#[test]
fn stems_and_extensions() {
    assert_eq!(file_stem_of("/a/b.tar.gz"), Some("b.tar".to_string()));
    assert_eq!(extension_of("/a/b.tar.gz"), Some("gz".to_string()));
    assert_eq!(file_stem_of("/a/.hidden"), Some(".hidden".to_string()));
    assert_eq!(extension_of("/a/.hidden"), None);
    assert_eq!(file_stem_of("/a/dir/"), Some("dir".to_string()));
    assert_eq!(file_stem_of("/a/.."), None);
    assert_eq!(file_stem_of("/"), None);
    assert_eq!(file_stem_of("/a/b/."), Some("b".to_string()));
    assert_eq!(file_stem_of("/a/b/./"), Some("b".to_string()));
    assert_eq!(file_stem_of("a/."), Some("a".to_string()));
    assert_eq!(file_stem_of("/."), None);
    assert_eq!(file_stem_of("."), None);
    assert_eq!(file_stem_of("./"), None);
    assert_eq!(file_stem_of("/a/b."), Some("b".to_string()));
}

#[test]
fn extension_is_replaced_or_added() {
    assert_eq!(with_extension_of("/a/b.txt", "bin"), "/a/b.bin");
    assert_eq!(with_extension_of("/a/b", "bin"), "/a/b.bin");
    assert_eq!(with_extension_of("/a/b.txt", ""), "/a/b");
    assert_eq!(with_extension_of("/", "bin"), "/");
    assert_eq!(with_extension_of("/a/b.txt/.", "bin"), "/a/b.bin");
}

#[test]
fn identifier_of_root_with_trailing_separator() {
    let root = RootDefinition::new("r".to_string(), "/data/root/".to_string(), None);
    let id = root.make_path_identifier("/data/root/sub/f.txt").unwrap();
    assert_eq!(id, "sub/f.txt");
    assert_eq!(root.make_original_file_path_from_identifier(&id), "/data/root/sub/f.txt");
}

#[test]
fn current_directory_segments_are_skipped() {
    let root = RootDefinition::new("r".to_string(), "/data/.".to_string(), None);
    assert_eq!(root.make_path_identifier("/data/a"), Ok("a".to_string()));
    assert_eq!(strip_path_prefix_of("/data/./sub/./f", "/data"), Some("sub/f".to_string()));
    assert_eq!(strip_path_prefix_of("./a", "."), Some("a".to_string()));
    assert_eq!(strip_path_prefix_of("a/./b", "a"), Some("b".to_string()));
    assert_eq!(strip_path_prefix_of("./a", "a"), None);
    assert_eq!(strip_path_prefix_of("data/..", "data"), Some("..".to_string()));
}
