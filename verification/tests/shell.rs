//! What the desktop shell asks.

use rzip_lib::shell::child_key;
use rzip_lib::{
    build_tree_node, determine_icon, get_file_tree, parse_path, validate_path, DirEntry, FsPath,
    TreeDataNode, ValidationSettings,
};

fn p(text: &str) -> FsPath {
    parse_path(text.as_bytes())
}

fn file(name: &str) -> DirEntry {
    DirEntry::File(name.as_bytes().to_vec())
}

fn dir(name: &str, entries: Vec<DirEntry>) -> DirEntry {
    DirEntry::Dir(name.as_bytes().to_vec(), entries)
}

fn node(title: &str, key: &str, folder: bool, children: Option<Vec<TreeDataNode>>) -> TreeDataNode {
    let icon = if folder { "FolderOutlined" } else { "FileOutlined" };
    TreeDataNode {
        title: title.as_bytes().to_vec(),
        key: key.to_string(),
        icon: Some(icon.to_string()),
        children,
    }
}

#[test]
fn test_validate_path() {
    // Test non-existent temporary directory (not allowed)
    let settings =
        ValidationSettings { allow_files: false, allow_directories: true, allow_nonexistent: false };
    // Should not be valid
    assert!(!validate_path(false, false, false, settings));

    // Test non-existent temporary directory (allowed)
    let settings =
        ValidationSettings { allow_files: false, allow_directories: true, allow_nonexistent: true };
    // Should be valid
    assert!(validate_path(false, false, false, settings));

    // Test directory exists but not allowed
    let settings = ValidationSettings {
        allow_files: false,
        allow_directories: false,
        allow_nonexistent: false,
    };
    // Should not be valid
    assert!(!validate_path(true, false, true, settings));

    // Test file not allowed
    let settings = ValidationSettings {
        allow_files: false,
        allow_directories: false,
        allow_nonexistent: false,
    };
    // Should not be valid
    assert!(!validate_path(true, true, false, settings));

    // Test file allowed
    let settings =
        ValidationSettings { allow_files: true, allow_directories: false, allow_nonexistent: false };
    // Should be valid
    assert!(validate_path(true, true, false, settings));
}

#[test]
fn every_case_of_validation() {
    for bits in 0..64u32 {
        let exists = bits & 1 != 0;
        let is_file = bits & 2 != 0;
        let is_dir = bits & 4 != 0;
        let settings = ValidationSettings {
            allow_files: bits & 8 != 0,
            allow_directories: bits & 16 != 0,
            allow_nonexistent: bits & 32 != 0,
        };
        let expected = (settings.allow_nonexistent || exists)
            && (settings.allow_files || !is_file)
            && (settings.allow_directories || !is_dir);
        assert_eq!(validate_path(exists, is_file, is_dir, settings), expected, "{}", bits);
    }
}

#[test]
fn icons_tell_directories_from_files() {
    assert_eq!(determine_icon(true), "FolderOutlined");
    assert_eq!(determine_icon(false), "FileOutlined");
}

#[test]
fn keys_count_in_decimal() {
    assert_eq!(child_key("0", 0), "0-0");
    assert_eq!(child_key("0", 7), "0-7");
    assert_eq!(child_key("0", 10), "0-10");
    assert_eq!(child_key("0-3", 128), "0-3-128");
    assert_eq!(child_key("", 9041), "-9041");
    assert_eq!(child_key("k", 1000000), "k-1000000");
    assert_eq!(child_key("0", usize::MAX), format!("0-{}", usize::MAX));
}

#[test]
fn a_file_is_a_single_node() {
    assert_eq!(
        get_file_tree(&p("/data/notes.txt"), false, &Vec::new()),
        vec![node("notes.txt", "0", false, None)]
    );
    assert_eq!(
        build_tree_node(&b"a.zip".to_vec(), false, &vec![file("ignored")], "0-4".to_string()),
        node("a.zip", "0-4", false, None)
    );
}

#[test]
fn a_directory_shows_its_entries_in_order() {
    let listing = vec![
        file("a.zip"),
        dir("sub", vec![file("x"), dir("empty", Vec::new()), file("y")]),
        file("b.txt"),
    ];
    let expected = node(
        "data",
        "0",
        true,
        Some(vec![
            node("a.zip", "0-0", false, None),
            node(
                "sub",
                "0-1",
                true,
                Some(vec![
                    node("x", "0-1-0", false, None),
                    node("empty", "0-1-1", true, None),
                    node("y", "0-1-2", false, None),
                ]),
            ),
            node("b.txt", "0-2", false, None),
        ]),
    );
    assert_eq!(get_file_tree(&p("/data"), true, &listing), vec![expected]);
}

#[test]
fn entries_that_could_not_be_read_are_left_out() {
    let listing = vec![
        DirEntry::Failed("gone".to_string()),
        file("a"),
        DirEntry::Failed("gone".to_string()),
        dir("locked", vec![DirEntry::Failed("permission denied".to_string())]),
        file("b"),
    ];
    let expected = node(
        "data",
        "0",
        true,
        Some(vec![
            node("a", "0-0", false, None),
            node("locked", "0-1", true, None),
            node("b", "0-2", false, None),
        ]),
    );
    assert_eq!(get_file_tree(&p("data"), true, &listing), vec![expected]);
}

#[test]
fn a_path_without_a_file_name_is_titled_by_its_text() {
    assert_eq!(get_file_tree(&p("/"), true, &Vec::new()), vec![node("/", "0", true, None)]);
    assert_eq!(get_file_tree(&p("a/.."), true, &Vec::new()), vec![node("a/..", "0", true, None)]);
    assert_eq!(get_file_tree(&p(""), false, &Vec::new()), vec![node("", "0", false, None)]);
}

#[test]
fn many_entries_get_many_keys() {
    let listing: Vec<DirEntry> = (0..12).map(|i| file(&format!("f{}", i))).collect();
    let tree = get_file_tree(&p("d"), true, &listing);
    let children = tree[0].children.as_ref().unwrap();
    assert_eq!(children.len(), 12);
    assert_eq!(children[9].key, "0-9");
    assert_eq!(children[10].key, "0-10");
    assert_eq!(children[11].key, "0-11");
    assert_eq!(children[11].title, b"f11".to_vec());
}
