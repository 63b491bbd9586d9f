//! Finding the archives under a directory.

use rzip_lib::{get_archives_in_dir, parse_path, DirEntry, FsPath, RZipError};

fn p(text: &str) -> FsPath {
    parse_path(text.as_bytes())
}

fn file(name: &str) -> DirEntry {
    DirEntry::File(name.as_bytes().to_vec())
}

fn dir(name: &str, entries: Vec<DirEntry>) -> DirEntry {
    DirEntry::Dir(name.as_bytes().to_vec(), entries)
}

fn failed(message: &str) -> DirEntry {
    DirEntry::Failed(message.to_string())
}

#[test]
fn an_empty_directory_holds_no_archives() {
    assert_eq!(get_archives_in_dir(&p("/data"), &Vec::new()), Ok(Vec::new()));
}

#[test]
fn archives_are_found_and_other_files_are_not() {
    let listing = vec![file("a.zip"), file("notes.txt"), file("b.tar.gz"), file("c"), file("d.7z")];
    assert_eq!(
        get_archives_in_dir(&p("/data"), &listing),
        Ok(vec![p("/data/a.zip"), p("/data/b.tar.gz"), p("/data/d.7z")])
    );
}

#[test]
fn subdirectories_are_entered_where_they_stand() {
    let listing = vec![
        file("first.zip"),
        dir("sub", vec![file("inner.rar"), dir("deeper", vec![file("deep.xz")]), file("x.txt")]),
        file("last.tar"),
    ];
    assert_eq!(
        get_archives_in_dir(&p("/data"), &listing),
        Ok(vec![
            p("/data/first.zip"),
            p("/data/sub/inner.rar"),
            p("/data/sub/deeper/deep.xz"),
            p("/data/last.tar"),
        ])
    );
}

#[test]
fn the_order_of_the_listing_is_kept() {
    let listing = vec![file("z.zip"), file("a.zip"), file("m.zip")];
    assert_eq!(
        get_archives_in_dir(&p("d"), &listing),
        Ok(vec![p("d/z.zip"), p("d/a.zip"), p("d/m.zip")])
    );
}

#[test]
fn a_directory_named_like_an_archive_is_entered_and_not_reported() {
    let listing = vec![dir("packed_tar_gz.tar", vec![file("doc_tar_gz.txt")]), dir("x.zip", vec![file("y.zip")])];
    assert_eq!(get_archives_in_dir(&p("/data"), &listing), Ok(vec![p("/data/x.zip/y.zip")]));
}

#[test]
fn a_failure_anywhere_fails_the_whole_scan() {
    let listing = vec![file("a.zip"), dir("sub", vec![file("b.zip"), failed("permission denied")]), file("c.zip")];
    assert_eq!(
        get_archives_in_dir(&p("/data"), &listing),
        Err(RZipError::Io("permission denied".to_string()))
    );
    assert_eq!(
        get_archives_in_dir(&p("/data"), &vec![failed("no such directory")]),
        Err(RZipError::Io("no such directory".to_string()))
    );
}

#[test]
fn the_first_failure_of_the_walk_is_the_one_reported() {
    let listing = vec![
        dir("one", vec![dir("two", vec![failed("inner")])]),
        failed("outer"),
    ];
    assert_eq!(get_archives_in_dir(&p("/data"), &listing), Err(RZipError::Io("inner".to_string())));
    let listing = vec![failed("outer"), dir("one", vec![failed("inner")])];
    assert_eq!(get_archives_in_dir(&p("/data"), &listing), Err(RZipError::Io("outer".to_string())));
}

#[test]
fn everything_found_lies_under_the_directory() {
    let listing = vec![
        file("a.zip"),
        dir("s", vec![file("b.gz"), dir("t", vec![file("c.7z")])]),
    ];
    for root in ["/data", "rel/dir", "", ".", "/"] {
        let found = get_archives_in_dir(&p(root), &listing).unwrap();
        assert_eq!(found.len(), 3);
        for path in found {
            assert!(path.starts_with(&p(root)), "{:?}", root);
            assert!(rzip_lib::is_archive_filetype(&path, false));
        }
    }
}

#[test]
fn scanning_the_empty_path_gives_relative_paths() {
    let listing = vec![file("a.zip"), dir("s", vec![file("b.zip")])];
    assert_eq!(get_archives_in_dir(&p(""), &listing), Ok(vec![p("a.zip"), p("s/b.zip")]));
}
