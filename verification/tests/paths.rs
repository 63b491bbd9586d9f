//! Paths: reading them from text, taking them apart, putting them
//! together.

use std::path::Path;

use rzip_lib::name::{
    bytes_eq, is_valid_name, last_dot_index, name_extension, name_stem, split_index,
};
use rzip_lib::{parse_path, render_path, Component, FsPath};

fn p(text: &str) -> FsPath {
    parse_path(text.as_bytes())
}

fn name(text: &str) -> Component {
    Component::Normal(text.as_bytes().to_vec())
}

/// The components that the standard library sees in a text.
fn by_std(text: &str) -> FsPath {
    let mut components = Vec::new();
    for part in Path::new(text).components() {
        components.push(match part {
            std::path::Component::RootDir => Component::RootDir,
            std::path::Component::CurDir => Component::CurDir,
            std::path::Component::ParentDir => Component::ParentDir,
            std::path::Component::Normal(n) => name(n.to_str().unwrap()),
            std::path::Component::Prefix(_) => unreachable!(),
        });
    }
    FsPath { components }
}

const SAMPLES: [&str; 30] = [
    "",
    "/",
    "//",
    ".",
    "..",
    "./",
    "./.",
    "a",
    "a/",
    "a//b",
    "a/./b",
    "a/b/.",
    "a/../b",
    "./a",
    ".//a",
    "../a",
    "/a/b/c.zip",
    "/./a",
    "/../a",
    "//a//b//",
    ".hidden",
    "a.tar.gz",
    "dir.zip/inner.tar",
    "/tmp/work/nested.zip",
    "an/out/dir",
    "a/.b/..c/d.",
    "...",
    "a/.../b",
    "/.",
    "x/..",
];

#[test]
fn parsing_agrees_with_the_standard_library() {
    for text in SAMPLES {
        assert_eq!(p(text), by_std(text), "parsing {:?}", text);
    }
}

#[test]
fn parsing_gives_the_expected_components() {
    assert_eq!(p(""), FsPath { components: vec![] });
    assert_eq!(p("/"), FsPath { components: vec![Component::RootDir] });
    assert_eq!(p("."), FsPath { components: vec![Component::CurDir] });
    assert_eq!(p("./a"), FsPath { components: vec![Component::CurDir, name("a")] });
    assert_eq!(p("a/./b"), FsPath { components: vec![name("a"), name("b")] });
    assert_eq!(
        p("/a/../b.zip"),
        FsPath {
            components: vec![Component::RootDir, name("a"), Component::ParentDir, name("b.zip")]
        }
    );
    assert_eq!(p("a//b/"), FsPath { components: vec![name("a"), name("b")] });
}

#[test]
fn parsed_paths_are_well_formed() {
    for text in SAMPLES {
        assert!(p(text).is_well_formed(), "parsing {:?}", text);
    }
    assert!(!FsPath { components: vec![name("a"), Component::RootDir] }.is_well_formed());
    assert!(!FsPath { components: vec![name("a"), Component::CurDir] }.is_well_formed());
    assert!(!FsPath { components: vec![name("a/b")] }.is_well_formed());
    assert!(!FsPath { components: vec![name("")] }.is_well_formed());
    assert!(!FsPath { components: vec![name(".")] }.is_well_formed());
    assert!(!FsPath { components: vec![name("..")] }.is_well_formed());
    assert!(FsPath { components: vec![Component::ParentDir, Component::ParentDir] }
        .is_well_formed());
}

#[test]
fn rendering_gives_the_expected_text() {
    assert_eq!(render_path(&p("")), b"".to_vec());
    assert_eq!(render_path(&p("/")), b"/".to_vec());
    assert_eq!(render_path(&p(".")), b".".to_vec());
    assert_eq!(render_path(&p("./a//b/")), b"./a/b".to_vec());
    assert_eq!(render_path(&p("//a/./b/../c.zip")), b"/a/b/../c.zip".to_vec());
}

#[test]
fn rendering_then_parsing_gives_the_path_again() {
    for text in SAMPLES {
        let path = p(text);
        assert_eq!(parse_path(&render_path(&path)), path, "from {:?}", text);
    }
}

#[test]
fn last_dot_is_found() {
    assert_eq!(last_dot_index(b"a.tar.gz"), Some(5));
    assert_eq!(last_dot_index(b".profile"), Some(0));
    assert_eq!(last_dot_index(b"name"), None);
    assert_eq!(last_dot_index(b""), None);
    assert_eq!(last_dot_index(b"a."), Some(1));
}

#[test]
fn names_split_at_the_last_dot() {
    assert_eq!(split_index(b"a.tar.gz"), Some(5));
    assert_eq!(split_index(b".profile"), None);
    assert_eq!(split_index(b".."), None);
    assert_eq!(split_index(b"name"), None);

    assert_eq!(name_stem(b"packed_zip.zip"), b"packed_zip".to_vec());
    assert_eq!(name_extension(b"packed_zip.zip"), Some(b"zip".to_vec()));
    assert_eq!(name_stem(b"packed_tar_gz.tar.gz"), b"packed_tar_gz.tar".to_vec());
    assert_eq!(name_extension(b"packed_tar_gz.tar.gz"), Some(b"gz".to_vec()));
    assert_eq!(name_stem(b".profile"), b".profile".to_vec());
    assert_eq!(name_extension(b".profile"), None);
    assert_eq!(name_stem(b"name"), b"name".to_vec());
    assert_eq!(name_extension(b"name"), None);
    assert_eq!(name_stem(b"a."), b"a".to_vec());
    assert_eq!(name_extension(b"a."), Some(b"".to_vec()));
    assert_eq!(name_stem(b".."), b"..".to_vec());
    assert_eq!(name_extension(b".."), None);
    assert_eq!(name_stem(b"..zip"), b".".to_vec());
    assert_eq!(name_extension(b"..zip"), Some(b"zip".to_vec()));
}

#[test]
fn stems_and_extensions_agree_with_the_standard_library() {
    for text in SAMPLES {
        let path = p(text);
        let std_path = Path::new(text);
        assert_eq!(
            path.file_name().cloned(),
            std_path.file_name().map(|n| n.to_str().unwrap().as_bytes().to_vec()),
            "file name of {:?}",
            text
        );
        assert_eq!(
            path.file_stem(),
            std_path.file_stem().map(|n| n.to_str().unwrap().as_bytes().to_vec()),
            "stem of {:?}",
            text
        );
        assert_eq!(
            path.extension(),
            std_path.extension().map(|n| n.to_str().unwrap().as_bytes().to_vec()),
            "extension of {:?}",
            text
        );
    }
}

#[test]
fn parents_agree_with_the_standard_library() {
    for text in SAMPLES {
        let expected = Path::new(text).parent().map(|parent| by_std(parent.to_str().unwrap()));
        assert_eq!(p(text).parent(), expected, "parent of {:?}", text);
    }
    assert_eq!(p("").parent(), None);
    assert_eq!(p("/").parent(), None);
    assert_eq!(p("a").parent(), Some(p("")));
    assert_eq!(p("/a").parent(), Some(p("/")));
    assert_eq!(p("/tmp/work/nested.zip").parent(), Some(p("/tmp/work")));
}

#[test]
fn joins_agree_with_the_standard_library() {
    for left in SAMPLES {
        for right in SAMPLES {
            let joined = Path::new(left).join(right);
            let expected = by_std(joined.to_str().unwrap());
            assert_eq!(p(left).join(&p(right)), expected, "{:?} joined with {:?}", left, right);
        }
    }
    assert_eq!(p("/tmp").join(&p("a/b")), p("/tmp/a/b"));
    assert_eq!(p("/tmp").join(&p("/etc")), p("/etc"));
    assert_eq!(p("").join(&p("a")), p("a"));
    assert_eq!(p("a").join(&p("")), p("a"));
    assert_eq!(p("a").join(&p("./b")), p("a/b"));
}

#[test]
fn prefixes_agree_with_the_standard_library() {
    for left in SAMPLES {
        for right in SAMPLES {
            assert_eq!(
                p(left).starts_with(&p(right)),
                Path::new(left).starts_with(right),
                "{:?} under {:?}",
                left,
                right
            );
            let expected =
                Path::new(left).strip_prefix(right).ok().map(|rest| by_std(rest.to_str().unwrap()));
            assert_eq!(
                p(left).strip_prefix(&p(right)),
                expected,
                "{:?} without {:?}",
                left,
                right
            );
        }
    }
    assert!(p("/a/b/c.zip").starts_with(&p("/a")));
    assert!(p("/a/b").starts_with(&p("/a/b")));
    assert!(!p("/a/bc").starts_with(&p("/a/b")));
    assert!(!p("a/b").starts_with(&p("/a")));
    assert_eq!(p("/a/b/c.zip").strip_prefix(&p("/a")), Some(p("b/c.zip")));
    assert_eq!(p("/a/b").strip_prefix(&p("/a/b")), Some(p("")));
    assert_eq!(p("/a/b").strip_prefix(&p("/x")), None);
}

#[test]
fn equality_goes_by_components() {
    for left in SAMPLES {
        for right in SAMPLES {
            assert_eq!(
                p(left).same_as(&p(right)),
                Path::new(left) == Path::new(right),
                "{:?} and {:?}",
                left,
                right
            );
        }
    }
    assert!(p("a//b/").same_as(&p("a/b")));
    assert!(!p("./a").same_as(&p("a")));
    assert_eq!(p("a/b").clone(), p("a/b"));
}

#[test]
fn single_names_read_as_paths() {
    assert_eq!(FsPath::from_name(b"doc"), p("doc"));
    assert_eq!(FsPath::from_name(b"."), p("."));
    assert_eq!(FsPath::from_name(b".."), p(".."));
    assert_eq!(FsPath::new(), p(""));
    assert!(p("/a").is_absolute());
    assert!(!p("a").is_absolute());
    assert!(!p("").is_absolute());
}

#[test]
fn names_are_checked() {
    assert!(is_valid_name(b"doc.txt"));
    assert!(is_valid_name(b"..."));
    assert!(!is_valid_name(b""));
    assert!(!is_valid_name(b"."));
    assert!(!is_valid_name(b".."));
    assert!(!is_valid_name(b"a/b"));
    assert!(bytes_eq(b"zip", b"zip"));
    assert!(!bytes_eq(b"zip", b"Zip"));
    assert!(!bytes_eq(b"zip", b"zi"));
}
