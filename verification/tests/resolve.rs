//! Where an archive's contents go.

use rzip_lib::resolve::{archive_stem, construct_output_path};
use rzip_lib::{
    get_out_path_for_archive, get_relative_path, parse_path, FsPath, PathError, RZipError,
    RZipExtractConfig,
};

fn p(text: &str) -> FsPath {
    parse_path(text.as_bytes())
}

fn config(target: &str, out_dir: Option<&str>) -> RZipExtractConfig {
    RZipExtractConfig {
        target_path: p(target),
        out_dir: out_dir.map(p),
        delete_after_extracting: false,
    }
}

#[test]
fn without_an_output_root_an_archive_unpacks_beside_itself() {
    let c = config("/data", None);
    assert_eq!(get_out_path_for_archive(&p("/data/a.zip"), &c), Ok(p("/data/a")));
    assert_eq!(get_out_path_for_archive(&p("/data/x/y/b.7z"), &c), Ok(p("/data/x/y/b")));
    assert_eq!(get_out_path_for_archive(&p("a.zip"), &c), Ok(p("a")));
    assert_eq!(get_out_path_for_archive(&p("/a.zip"), &c), Ok(p("/a")));
    assert_eq!(get_out_path_for_archive(&p("./a.zip"), &c), Ok(p("./a")));
    assert_eq!(
        get_out_path_for_archive(&p("/elsewhere/deep/inside/c.tar.gz"), &c),
        Ok(p("/elsewhere/deep/inside/c.tar"))
    );
}

#[test]
fn the_target_itself_goes_straight_under_the_output_root() {
    for target in ["/data/a.zip", "a.zip", "/very/deep/down/in/the/tree/a.zip", "./x/a.zip"] {
        let c = config(target, Some("/d"));
        assert_eq!(get_out_path_for_archive(&p(target), &c), Ok(p("/d/a")), "{}", target);
    }
    let c = config("/data//a.zip", Some("/d"));
    assert_eq!(get_out_path_for_archive(&p("/data/a.zip"), &c), Ok(p("/d/a")));
}

#[test]
fn archives_under_the_target_keep_their_place_under_the_output_root() {
    let c = config("/data", Some("/d"));
    assert_eq!(get_out_path_for_archive(&p("/data/a.zip"), &c), Ok(p("/d/a")));
    assert_eq!(get_out_path_for_archive(&p("/data/x/a.zip"), &c), Ok(p("/d/x/a")));
    assert_eq!(get_out_path_for_archive(&p("/data/x/y/a.tar.gz"), &c), Ok(p("/d/x/y/a.tar")));
}

#[test]
fn archives_under_the_output_root_keep_their_place_there() {
    let c = config("/data", Some("/d"));
    assert_eq!(get_out_path_for_archive(&p("/d/a/b.zip"), &c), Ok(p("/d/a/b")));
    assert_eq!(get_out_path_for_archive(&p("/d/a/b/c.zip"), &c), Ok(p("/d/a/b/c")));
    assert_eq!(get_out_path_for_archive(&p("/d/top.zip"), &c), Ok(p("/d/top")));
}

#[test]
fn the_target_is_tried_before_the_output_root() {
    // The output root lies under the target: the place under the target counts.
    let c = config("/data", Some("/data/out"));
    assert_eq!(get_out_path_for_archive(&p("/data/out/a/b.zip"), &c), Ok(p("/data/out/out/a/b")));
}

#[test]
fn same_names_at_different_depths_do_not_meet() {
    let c = config("/data", Some("/d"));
    let upper = get_out_path_for_archive(&p("/data/a.zip"), &c).unwrap();
    let lower = get_out_path_for_archive(&p("/data/sub/a.zip"), &c).unwrap();
    assert_eq!(upper, p("/d/a"));
    assert_eq!(lower, p("/d/sub/a"));
    assert_ne!(upper, lower);
}

#[test]
fn a_path_without_a_file_name_has_no_stem() {
    for out_dir in [None, Some("/d")] {
        let c = config("/data", out_dir);
        for text in ["", "/", "..", "/data/..", "."] {
            assert_eq!(
                get_out_path_for_archive(&p(text), &c),
                Err(RZipError::Path(PathError::NoStem, p(text))),
                "{:?}",
                text
            );
        }
    }
}

#[test]
fn a_path_under_neither_root_is_refused() {
    let c = config("/data", Some("/d"));
    for text in ["/elsewhere/a.zip", "a.zip", "/dat/a.zip", "/data2/a.zip", "data/a.zip"] {
        assert_eq!(
            get_out_path_for_archive(&p(text), &c),
            Err(RZipError::Path(PathError::NotUnderRoot, p(text))),
            "{:?}",
            text
        );
    }
}

#[test]
fn an_archive_that_is_the_output_root_goes_under_it() {
    let c = config("/data", Some("/d/x.zip"));
    assert_eq!(get_out_path_for_archive(&p("/d/x.zip"), &c), Ok(p("/d/x.zip/x")));
}

#[test]
fn odd_stems_are_read_as_paths() {
    let c = config("/data", None);
    // The stem of `..zip` is `.`, which names the directory itself.
    assert_eq!(get_out_path_for_archive(&p("/data/..zip"), &c), Ok(p("/data")));
    // The stem of `...zip` is `..`, the parent directory.
    assert_eq!(get_out_path_for_archive(&p("/data/...zip"), &c), Ok(p("/data/..")));
    // A name without an extension is its own stem.
    assert_eq!(get_out_path_for_archive(&p("/data/plain"), &c), Ok(p("/data/plain")));
    // A leading dot with another dot after it leaves a stem.
    assert_eq!(get_out_path_for_archive(&p("/data/.tar.gz"), &c), Ok(p("/data/.tar")));
}

#[test]
fn a_name_that_is_only_an_extension_has_no_stem() {
    for out_dir in [None, Some("/d")] {
        let c = config("/data", out_dir);
        for text in ["/data/.zip", ".zip", "/data/sub/.hidden", "/data/.x"] {
            assert_eq!(
                get_out_path_for_archive(&p(text), &c),
                Err(RZipError::Path(PathError::NoStem, p(text))),
                "{:?}",
                text
            );
        }
    }
    assert_eq!(archive_stem(&p("/data/.zip")), None);
    assert_eq!(archive_stem(&p("/data/a.zip")), Some(b"a".to_vec()));
    assert_eq!(archive_stem(&p("/data/a")), Some(b"a".to_vec()));
    assert_eq!(archive_stem(&p("/data/a.tar.gz")), Some(b"a.tar".to_vec()));
    assert_eq!(archive_stem(&p("/data/..")), None);
    assert_eq!(archive_stem(&p("/")), None);
}

#[test]
fn relative_paths_are_taken_from_the_target_first() {
    let c = config("/data", Some("/d"));
    assert_eq!(get_relative_path(&p("/data/x/a.zip"), &c, &p("/d")), Ok(p("x/a.zip")));
    assert_eq!(get_relative_path(&p("/d/x/a.zip"), &c, &p("/d")), Ok(p("x/a.zip")));
    assert_eq!(get_relative_path(&p("/data"), &c, &p("/d")), Ok(p("")));
    assert_eq!(
        get_relative_path(&p("/other/a.zip"), &c, &p("/d")),
        Err(RZipError::Path(PathError::NotUnderRoot, p("/other/a.zip")))
    );
}

#[test]
fn output_paths_are_put_together() {
    assert_eq!(construct_output_path(&p("x/y/a.zip"), &p("/d"), b"a"), p("/d/x/y/a"));
    assert_eq!(construct_output_path(&p("a.zip"), &p("/d"), b"a"), p("/d/a"));
    assert_eq!(construct_output_path(&p(""), &p("/d"), b"a"), p("/d/a"));
    assert_eq!(construct_output_path(&p("x/a.zip"), &p(""), b"a"), p("x/a"));
}

#[test]
fn well_formed_paths_give_well_formed_output_directories() {
    let configs = [config("/data", None), config("/data", Some("/d")), config("", Some("out"))];
    for c in configs.iter() {
        for text in ["/data/a.zip", "/d/x/b.tar.gz", "/data/..zip", "/data/x/...7z", "rel/c.rar"] {
            if let Ok(out) = get_out_path_for_archive(&p(text), c) {
                assert!(out.is_well_formed(), "{:?}", text);
            }
        }
    }
}

#[test]
fn settings_are_copied_whole() {
    let c = RZipExtractConfig {
        target_path: p("/data"),
        out_dir: Some(p("/d")),
        delete_after_extracting: true,
    };
    assert_eq!(c.clone(), c);
}
