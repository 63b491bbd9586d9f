//! Whole runs, against a file system kept in memory.

use std::collections::{BTreeMap, BTreeSet};

use rzip_lib::error::{PathError, RZipError, RZipProcessingError};
use rzip_lib::extract::{
    recursive_file_extract, ExtractAction, ExtractEvent, ExtractStatus, Extraction,
    MAX_NESTING_DEPTH,
};
use rzip_lib::path::FsPath;
use rzip_lib::resolve::{get_out_path_for_archive, RZipExtractConfig};
use rzip_lib::scan::{get_archives_in_dir, DirEntry};
use rzip_lib::text::{parse_path, render_path};
use rzip_lib::unpack::UnpackStage;

fn p(text: &str) -> FsPath {
    parse_path(text.as_bytes())
}

fn text(path: &FsPath) -> String {
    String::from_utf8(render_path(path)).unwrap()
}

/// A file system in memory. A file is a path with a tag; the tag of an
/// archive names its contents.
struct Disk {
    files: BTreeMap<String, String>,
    dirs: BTreeSet<String>,
    contents: BTreeMap<String, Vec<(String, String)>>,
    broken: Vec<UnpackStage>,
    unreadable: BTreeSet<String>,
    ran: Vec<(UnpackStage, String, String)>,
}

impl Disk {
    fn new() -> Disk {
        Disk {
            files: BTreeMap::new(),
            dirs: BTreeSet::new(),
            contents: BTreeMap::new(),
            broken: Vec::new(),
            unreadable: BTreeSet::new(),
            ran: Vec::new(),
        }
    }

    /// Says what an archive with this tag holds.
    fn archive(&mut self, tag: &str, entries: &[(&str, &str)]) {
        let entries = entries.iter().map(|(n, t)| (n.to_string(), t.to_string())).collect();
        self.contents.insert(tag.to_string(), entries);
    }

    fn mkdirs(&mut self, dir: &str) {
        let mut at = String::new();
        for part in dir.split('/') {
            if part.is_empty() {
                continue;
            }
            at.push('/');
            at.push_str(part);
            self.dirs.insert(at.clone());
        }
    }

    fn put(&mut self, path: &str, tag: &str) {
        if let Some(cut) = path.rfind('/') {
            self.mkdirs(&path[..cut]);
        }
        self.files.insert(path.to_string(), tag.to_string());
    }

    fn has(&self, path: &str) -> bool {
        self.files.contains_key(path) || self.dirs.contains(path)
    }

    fn failure(stage: UnpackStage, message: &str) -> RZipProcessingError {
        match stage {
            UnpackStage::CompressTools => RZipProcessingError::CompressTools(message.to_string()),
            UnpackStage::SevenZ => RZipProcessingError::SevenZ(message.to_string()),
            UnpackStage::Flate2 | UnpackStage::Tar => RZipProcessingError::Io(message.to_string()),
        }
    }

    fn run_stage(
        &mut self,
        stage: UnpackStage,
        archive: &str,
        out_dir: &str,
    ) -> Result<(), RZipProcessingError> {
        self.ran.push((stage, archive.to_string(), out_dir.to_string()));
        if self.broken.contains(&stage) {
            return Err(Disk::failure(stage, "stage is broken"));
        }
        let tag = match self.files.get(archive) {
            Some(tag) => tag.clone(),
            None => return Err(RZipProcessingError::Io("no such file".to_string())),
        };
        let entries = match self.contents.get(&tag) {
            Some(entries) => entries.clone(),
            None => return Err(Disk::failure(stage, "not an archive")),
        };
        self.mkdirs(out_dir);
        for (name, tag) in entries {
            self.put(&format!("{}/{}", out_dir, name), &tag);
        }
        Ok(())
    }

    fn listing(&self, dir: &str) -> Vec<DirEntry> {
        if self.unreadable.contains(dir) {
            return vec![DirEntry::Failed(format!("cannot read {}", dir))];
        }
        let mut names: BTreeSet<(String, bool)> = BTreeSet::new();
        let prefix = format!("{}/", dir);
        for path in self.files.keys() {
            if let Some(rest) = path.strip_prefix(&prefix) {
                if !rest.contains('/') {
                    names.insert((rest.to_string(), false));
                }
            }
        }
        for path in self.dirs.iter() {
            if let Some(rest) = path.strip_prefix(&prefix) {
                if !rest.contains('/') {
                    names.insert((rest.to_string(), true));
                }
            }
        }
        let mut entries = Vec::new();
        for (name, is_dir) in names {
            if is_dir {
                let sub = self.listing(&format!("{}{}", prefix, name));
                entries.push(DirEntry::Dir(name.into_bytes(), sub));
            } else {
                entries.push(DirEntry::File(name.into_bytes()));
            }
        }
        entries
    }

    /// Does what the engine asks until the run has ended.
    fn drive(&mut self, mut run: Extraction) -> Result<(), RZipError> {
        loop {
            match run.next_action() {
                ExtractAction::RunStage { stage, archive, out_dir } => {
                    let result = self.run_stage(stage, &text(&archive), &text(&out_dir));
                    run.step(ExtractEvent::StageFinished(result));
                }
                ExtractAction::Scan { dir } => {
                    let listing = self.listing(&text(&dir));
                    run.step(ExtractEvent::Scanned(listing));
                }
                ExtractAction::Done => return Ok(()),
                ExtractAction::Failed { error, .. } => return Err(error),
            }
        }
    }

    fn extract(
        &mut self,
        archive: &FsPath,
        out_path: &FsPath,
        config: &RZipExtractConfig,
    ) -> Result<(), RZipError> {
        let run = recursive_file_extract(archive, out_path, config);
        self.drive(run)
    }
}

const TEMP: &str = "/tmp/work";

fn temp(name: &str) -> String {
    format!("{}/{}", TEMP, name)
}

/// A disk that holds one archive `name` with the single file `doc`.
fn disk_with_single(name: &str, doc: &str) -> Disk {
    let mut disk = Disk::new();
    disk.archive("single", &[(doc, "")]);
    disk.put(&temp(name), "single");
    disk
}

fn in_place(target: &str) -> RZipExtractConfig {
    RZipExtractConfig { target_path: p(target), out_dir: None, delete_after_extracting: false }
}

#[test]
fn test_extract_7z() {
    let mut disk = disk_with_single("packed_7z.7z", "doc_7z.txt");
    let config = in_place(&temp("packed_7z.7z"));

    let out_path = get_out_path_for_archive(&config.target_path, &config).unwrap();
    disk.extract(&config.target_path, &out_path, &config).unwrap();

    assert!(disk.has(&temp("packed_7z.7z")));
    assert!(disk.has(&temp("packed_7z")));
    assert!(disk.has(&temp("packed_7z/doc_7z.txt")));
}

#[test]
fn test_extract_tar() {
    let mut disk = disk_with_single("packed_tar.tar", "doc_tar.txt");
    let config = in_place(&temp("packed_tar.tar"));

    let out_path = get_out_path_for_archive(&config.target_path, &config).unwrap();
    disk.extract(&config.target_path, &out_path, &config).unwrap();

    assert!(disk.has(&temp("packed_tar.tar")));
    assert!(disk.has(&temp("packed_tar")));
    assert!(disk.has(&temp("packed_tar/doc_tar.txt")));
}

#[test]
fn test_extract_tar_gz() {
    let mut disk = disk_with_single("packed_tar_gz.tar.gz", "doc_tar_gz.txt");
    let config = in_place(&temp("packed_tar_gz.tar.gz"));

    let out_path = get_out_path_for_archive(&config.target_path, &config).unwrap();
    disk.extract(&config.target_path, &out_path, &config).unwrap();

    assert!(disk.has(&temp("packed_tar_gz.tar.gz")));
    assert!(disk.has(&temp("packed_tar_gz.tar")));
    assert!(disk.has(&temp("packed_tar_gz.tar/doc_tar_gz.txt")));
}

#[test]
fn test_extract_tar_xz() {
    let mut disk = disk_with_single("packed_tar_xz.tar.xz", "doc_tar_xz.txt");
    let config = in_place(&temp("packed_tar_xz.tar.xz"));

    let out_path = get_out_path_for_archive(&config.target_path, &config).unwrap();
    disk.extract(&config.target_path, &out_path, &config).unwrap();

    assert!(disk.has(&temp("packed_tar_xz.tar.xz")));
    assert!(disk.has(&temp("packed_tar_xz.tar")));
    assert!(disk.has(&temp("packed_tar_xz.tar/doc_tar_xz.txt")));
}

#[test]
fn test_extract_zip() {
    let mut disk = disk_with_single("packed_zip.zip", "doc_zip.txt");
    let config = in_place(&temp("packed_zip.zip"));

    let out_path = get_out_path_for_archive(&config.target_path, &config).unwrap();
    disk.extract(&config.target_path, &out_path, &config).unwrap();

    assert!(disk.has(&temp("packed_zip.zip")));
    assert!(disk.has(&temp("packed_zip")));
    assert!(disk.has(&temp("packed_zip/doc_zip.txt")));
}

#[test]
fn test_extract_rar() {
    let mut disk = disk_with_single("packed_rar.rar", "doc_rar.txt");
    let config = in_place(&temp("packed_rar.rar"));

    let out_path = get_out_path_for_archive(&config.target_path, &config).unwrap();
    disk.extract(&config.target_path, &out_path, &config).unwrap();

    assert!(disk.has(&temp("packed_rar.rar")));
    assert!(disk.has(&temp("packed_rar")));
    assert!(disk.has(&temp("packed_rar/doc_rar.txt")));
}

/// A disk that holds `nested.zip`:
///
/// ```text
/// nested.zip
/// ├── doc_set1.zip   (doc1.txt, doc2.txt, doc3.txt)
/// ├── doc_set2.zip   (doc4.txt, doc5.txt, doc6.txt)
/// ├── doc_set3.zip   (doc7.txt, doc8.txt, doc9.txt)
/// ├── doc1.txt
/// ├── doc2.txt
/// └── doc3.txt
/// ```
fn disk_with_nested() -> Disk {
    let mut disk = Disk::new();
    disk.archive("set1", &[("doc1.txt", ""), ("doc2.txt", ""), ("doc3.txt", "")]);
    disk.archive("set2", &[("doc4.txt", ""), ("doc5.txt", ""), ("doc6.txt", "")]);
    disk.archive("set3", &[("doc7.txt", ""), ("doc8.txt", ""), ("doc9.txt", "")]);
    disk.archive(
        "nested",
        &[
            ("doc_set1.zip", "set1"),
            ("doc_set2.zip", "set2"),
            ("doc_set3.zip", "set3"),
            ("doc1.txt", ""),
            ("doc2.txt", ""),
            ("doc3.txt", ""),
        ],
    );
    disk.put(&temp("nested.zip"), "nested");
    disk
}

fn assert_nested_unpacked(disk: &Disk, nested: &str) {
    assert!(disk.has(nested));
    assert!(disk.has(&format!("{}/{}", nested, "doc_set1.zip")));
    assert!(disk.has(&format!("{}/{}", nested, "doc_set1")));
    assert!(disk.has(&format!("{}/{}", nested, "doc_set1/doc1.txt")));
    assert!(disk.has(&format!("{}/{}", nested, "doc_set1/doc2.txt")));
    assert!(disk.has(&format!("{}/{}", nested, "doc_set1/doc3.txt")));
    assert!(disk.has(&format!("{}/{}", nested, "doc_set2.zip")));
    assert!(disk.has(&format!("{}/{}", nested, "doc_set2")));
    assert!(disk.has(&format!("{}/{}", nested, "doc_set2/doc4.txt")));
    assert!(disk.has(&format!("{}/{}", nested, "doc_set2/doc5.txt")));
    assert!(disk.has(&format!("{}/{}", nested, "doc_set2/doc6.txt")));
    assert!(disk.has(&format!("{}/{}", nested, "doc_set3.zip")));
    assert!(disk.has(&format!("{}/{}", nested, "doc_set3")));
    assert!(disk.has(&format!("{}/{}", nested, "doc_set3/doc7.txt")));
    assert!(disk.has(&format!("{}/{}", nested, "doc_set3/doc8.txt")));
    assert!(disk.has(&format!("{}/{}", nested, "doc_set3/doc9.txt")));
    assert!(disk.has(&format!("{}/{}", nested, "doc1.txt")));
    assert!(disk.has(&format!("{}/{}", nested, "doc2.txt")));
    assert!(disk.has(&format!("{}/{}", nested, "doc3.txt")));
}

#[test]
fn test_nested_no_out_dir() {
    let mut disk = disk_with_nested();
    let target_path = p(&temp("nested.zip"));
    let config = RZipExtractConfig {
        target_path: target_path.clone(),
        out_dir: None,
        delete_after_extracting: false,
    };

    let out_path = get_out_path_for_archive(&target_path, &config).unwrap();
    disk.extract(&target_path, &out_path, &config).unwrap();

    assert_nested_unpacked(&disk, &temp("nested"));
}

#[test]
fn test_nested_with_out_dir() {
    let mut disk = disk_with_nested();
    let target_path = p(&temp("nested.zip"));
    let out_dir_buf = p(&temp("an/out/dir"));
    let config = RZipExtractConfig {
        target_path: target_path.clone(),
        out_dir: Some(out_dir_buf.clone()),
        delete_after_extracting: false,
    };

    let out_path = get_out_path_for_archive(&target_path, &config).unwrap();
    disk.extract(&target_path, &out_path, &config).unwrap();

    assert_nested_unpacked(&disk, &temp("an/out/dir/nested"));
}

/// A disk that holds the directory `dir` with three archives:
///
/// ```text
/// ├── doc_set1.zip   (doc1.txt, doc2.txt, doc3.txt)
/// ├── doc_set2.zip   (doc4.txt, doc5.txt, doc6.txt)
/// └── doc_set3.zip   (doc7.txt, doc8.txt, doc9.txt)
/// ```
fn disk_with_series() -> Disk {
    let mut disk = Disk::new();
    disk.archive("set1", &[("doc1.txt", ""), ("doc2.txt", ""), ("doc3.txt", "")]);
    disk.archive("set2", &[("doc4.txt", ""), ("doc5.txt", ""), ("doc6.txt", "")]);
    disk.archive("set3", &[("doc7.txt", ""), ("doc8.txt", ""), ("doc9.txt", "")]);
    disk.put(&temp("doc_set1.zip"), "set1");
    disk.put(&temp("doc_set2.zip"), "set2");
    disk.put(&temp("doc_set3.zip"), "set3");
    disk
}

#[test]
fn test_series_no_out_dir() {
    let mut disk = disk_with_series();
    let temp_dir = p(TEMP);
    let config = RZipExtractConfig {
        target_path: temp_dir.clone(),
        out_dir: None,
        delete_after_extracting: false,
    };

    let archives = get_archives_in_dir(&temp_dir, &disk.listing(TEMP)).unwrap();
    assert_eq!(archives.len(), 3);

    for archive in archives {
        let out_path = get_out_path_for_archive(&archive, &config).unwrap();
        disk.extract(&archive, &out_path, &config).unwrap()
    }

    assert!(disk.has(&temp("doc_set1.zip")));
    assert!(disk.has(&temp("doc_set1")));
    assert!(disk.has(&temp("doc_set1/doc1.txt")));
    assert!(disk.has(&temp("doc_set1/doc2.txt")));
    assert!(disk.has(&temp("doc_set1/doc3.txt")));
    assert!(disk.has(&temp("doc_set2.zip")));
    assert!(disk.has(&temp("doc_set2")));
    assert!(disk.has(&temp("doc_set2/doc4.txt")));
    assert!(disk.has(&temp("doc_set2/doc5.txt")));
    assert!(disk.has(&temp("doc_set2/doc6.txt")));
    assert!(disk.has(&temp("doc_set3.zip")));
    assert!(disk.has(&temp("doc_set3")));
    assert!(disk.has(&temp("doc_set3/doc7.txt")));
    assert!(disk.has(&temp("doc_set3/doc8.txt")));
    assert!(disk.has(&temp("doc_set3/doc9.txt")));
}

#[test]
fn test_series_with_out_dir() {
    let mut disk = disk_with_series();
    let temp_dir = p(TEMP);
    let out_dir_path = p(&temp("out/dir/path/here"));
    let config = RZipExtractConfig {
        target_path: temp_dir.clone(),
        out_dir: Some(out_dir_path.clone()),
        delete_after_extracting: false,
    };

    let archives = get_archives_in_dir(&temp_dir, &disk.listing(TEMP)).unwrap();

    for archive in archives {
        let out_path = get_out_path_for_archive(&archive, &config).unwrap();
        disk.extract(&archive, &out_path, &config).unwrap()
    }

    assert!(disk.has(&temp("out/dir/path/here/doc_set1")));
    assert!(disk.has(&temp("out/dir/path/here/doc_set1/doc1.txt")));
    assert!(disk.has(&temp("out/dir/path/here/doc_set1/doc2.txt")));
    assert!(disk.has(&temp("out/dir/path/here/doc_set1/doc3.txt")));
    assert!(disk.has(&temp("out/dir/path/here/doc_set2")));
    assert!(disk.has(&temp("out/dir/path/here/doc_set2/doc4.txt")));
    assert!(disk.has(&temp("out/dir/path/here/doc_set2/doc5.txt")));
    assert!(disk.has(&temp("out/dir/path/here/doc_set2/doc6.txt")));
    assert!(disk.has(&temp("out/dir/path/here/doc_set3")));
    assert!(disk.has(&temp("out/dir/path/here/doc_set3/doc7.txt")));
    assert!(disk.has(&temp("out/dir/path/here/doc_set3/doc8.txt")));
    assert!(disk.has(&temp("out/dir/path/here/doc_set3/doc9.txt")));
}

#[test]
fn test_compress_tools_unpack() {
    let mut disk = disk_with_single("packed_zip.zip", "doc_zip.txt");
    let target_path = p(&temp("packed_zip.zip"));
    let config = in_place(&temp("packed_zip.zip"));

    let out_path = get_out_path_for_archive(&config.target_path, &config).unwrap();
    disk.extract(&target_path, &out_path, &config).unwrap();

    // The general decoder is the only stage of a zip archive.
    assert_eq!(
        disk.ran,
        vec![(UnpackStage::CompressTools, temp("packed_zip.zip"), temp("packed_zip"))]
    );
    assert!(disk.has(&temp("packed_zip.zip")));
    assert!(disk.has(&temp("packed_zip")));
    assert!(disk.has(&temp("packed_zip/doc_zip.txt")));
}

#[test]
fn test_seven_z_unpack() {
    let mut disk = disk_with_single("packed_7z.7z", "doc_7z.txt");
    disk.broken.push(UnpackStage::CompressTools);
    let target_path = p(&temp("packed_7z.7z"));
    let config = in_place(&temp("packed_7z.7z"));

    let out_path = get_out_path_for_archive(&config.target_path, &config).unwrap();
    disk.extract(&target_path, &out_path, &config).unwrap();

    // With the general decoder out of order, the 7z decoder does the work.
    assert_eq!(
        disk.ran,
        vec![
            (UnpackStage::CompressTools, temp("packed_7z.7z"), temp("packed_7z")),
            (UnpackStage::SevenZ, temp("packed_7z.7z"), temp("packed_7z")),
        ]
    );
    assert!(disk.has(&temp("packed_7z.7z")));
    assert!(disk.has(&temp("packed_7z")));
    assert!(disk.has(&temp("packed_7z/doc_7z.txt")));
}

#[test]
fn test_flake2_unpack() {
    let mut disk = disk_with_single("packed_tar_gz.tar.gz", "doc_tar_gz.txt");
    disk.broken.push(UnpackStage::CompressTools);
    let target_path = p(&temp("packed_tar_gz.tar.gz"));
    let config = in_place(&temp("packed_tar_gz.tar.gz"));

    let out_path = get_out_path_for_archive(&config.target_path, &config).unwrap();
    disk.extract(&target_path, &out_path, &config).unwrap();

    assert_eq!(
        disk.ran,
        vec![
            (UnpackStage::CompressTools, temp("packed_tar_gz.tar.gz"), temp("packed_tar_gz.tar")),
            (UnpackStage::Flate2, temp("packed_tar_gz.tar.gz"), temp("packed_tar_gz.tar")),
        ]
    );
    assert!(disk.has(&temp("packed_tar_gz.tar.gz")));
    assert!(disk.has(&temp("packed_tar_gz.tar")));
    assert!(disk.has(&temp("packed_tar_gz.tar/doc_tar_gz.txt")));
}

#[test]
fn test_tar_unpack() {
    let mut disk = disk_with_single("packed_tar.tar", "doc_tar.txt");
    disk.broken.push(UnpackStage::CompressTools);
    let target_path = p(&temp("packed_tar.tar"));
    let config = in_place(&temp("packed_tar.tar"));

    let out_path = get_out_path_for_archive(&config.target_path, &config).unwrap();
    disk.extract(&target_path, &out_path, &config).unwrap();

    assert_eq!(
        disk.ran,
        vec![
            (UnpackStage::CompressTools, temp("packed_tar.tar"), temp("packed_tar")),
            (UnpackStage::Tar, temp("packed_tar.tar"), temp("packed_tar")),
        ]
    );
    assert!(disk.has(&temp("packed_tar.tar")));
    assert!(disk.has(&temp("packed_tar")));
    assert!(disk.has(&temp("packed_tar/doc_tar.txt")));
}

#[test]
fn single_archives_unpack_beside_themselves() {
    for ext in ["zip", "tar", "gz", "xz", "7z", "rar"] {
        let name = format!("pack.{}", ext);
        let mut disk = disk_with_single(&name, "doc.txt");
        let config = in_place(&temp(&name));

        let out_path = get_out_path_for_archive(&config.target_path, &config).unwrap();
        assert_eq!(out_path, p(&temp("pack")));
        disk.extract(&config.target_path, &out_path, &config).unwrap();

        assert!(disk.has(&temp("pack/doc.txt")));
        assert!(disk.has(&temp(&name)));
    }
}

#[test]
fn nested_round_trip_under_out_dir() {
    // source/a.zip holds b.zip, which holds doc.txt.
    let mut disk = Disk::new();
    disk.archive("b", &[("doc.txt", "")]);
    disk.archive("a", &[("b.zip", "b")]);
    disk.put("/source/a.zip", "a");
    let config = RZipExtractConfig {
        target_path: p("/source"),
        out_dir: Some(p("/d")),
        delete_after_extracting: false,
    };

    let archives = get_archives_in_dir(&p("/source"), &disk.listing("/source")).unwrap();
    assert_eq!(archives, vec![p("/source/a.zip")]);
    for archive in archives {
        let out_path = get_out_path_for_archive(&archive, &config).unwrap();
        assert_eq!(out_path, p("/d/a"));
        disk.extract(&archive, &out_path, &config).unwrap();
    }

    assert!(disk.has("/d/a"));
    assert!(disk.has("/d/a/b"));
    assert!(disk.has("/d/a/b/doc.txt"));
    assert_eq!(
        disk.ran,
        vec![
            (UnpackStage::CompressTools, "/source/a.zip".to_string(), "/d/a".to_string()),
            (UnpackStage::CompressTools, "/d/a/b.zip".to_string(), "/d/a/b".to_string()),
        ]
    );
}

#[test]
fn siblings_get_their_own_subtrees() {
    let mut disk = disk_with_series();
    let config = RZipExtractConfig {
        target_path: p(TEMP),
        out_dir: Some(p("/d")),
        delete_after_extracting: false,
    };
    let archives = get_archives_in_dir(&p(TEMP), &disk.listing(TEMP)).unwrap();
    let mut outs = Vec::new();
    for archive in archives {
        let out_path = get_out_path_for_archive(&archive, &config).unwrap();
        disk.extract(&archive, &out_path, &config).unwrap();
        outs.push(out_path);
    }
    assert_eq!(outs, vec![p("/d/doc_set1"), p("/d/doc_set2"), p("/d/doc_set3")]);
    assert!(disk.has("/d/doc_set1/doc1.txt"));
    assert!(!disk.has("/d/doc_set1/doc4.txt"));
    assert!(disk.has("/d/doc_set2/doc4.txt"));
    assert!(disk.has("/d/doc_set3/doc9.txt"));
}

#[test]
fn unsupported_target_fails_before_anything_is_written() {
    let mut disk = Disk::new();
    disk.put(&temp("non_archive.txt"), "");
    let target = p(&temp("non_archive.txt"));
    let config = in_place(&temp("non_archive.txt"));
    let out_path = get_out_path_for_archive(&target, &config).unwrap();

    let run = recursive_file_extract(&target, &out_path, &config);
    assert_eq!(run.status(), ExtractStatus::Failed);
    assert_eq!(
        run.next_action(),
        ExtractAction::Failed {
            archive: target.clone(),
            error: RZipError::UnsupportedArchive(target.clone()),
        }
    );

    let result = disk.extract(&target, &out_path, &config);
    assert_eq!(result, Err(RZipError::UnsupportedArchive(target)));
    assert!(disk.ran.is_empty());
    assert!(!disk.has(&temp("non_archive")));
}

#[test]
fn every_stage_failing_reports_every_failure_in_order() {
    let mut disk = disk_with_single("packed_7z.7z", "doc_7z.txt");
    disk.broken.push(UnpackStage::CompressTools);
    disk.broken.push(UnpackStage::SevenZ);
    let target = p(&temp("packed_7z.7z"));
    let config = in_place(&temp("packed_7z.7z"));
    let out_path = get_out_path_for_archive(&target, &config).unwrap();

    let result = disk.extract(&target, &out_path, &config);
    assert_eq!(
        result,
        Err(RZipError::ProcessingErrors(vec![
            RZipProcessingError::CompressTools("stage is broken".to_string()),
            RZipProcessingError::SevenZ("stage is broken".to_string()),
        ]))
    );
    assert!(!disk.has(&temp("packed_7z")));
}

#[test]
fn failure_of_a_nested_archive_ends_the_run() {
    // outer.zip holds bad.zip (not an archive at all) and, after it, good.zip.
    let mut disk = Disk::new();
    disk.archive("good", &[("doc.txt", "")]);
    disk.archive("outer", &[("bad.zip", "garbage"), ("good.zip", "good")]);
    disk.put(&temp("outer.zip"), "outer");
    let target = p(&temp("outer.zip"));
    let config = in_place(&temp("outer.zip"));
    let out_path = get_out_path_for_archive(&target, &config).unwrap();

    let result = disk.extract(&target, &out_path, &config);
    assert_eq!(
        result,
        Err(RZipError::ProcessingErrors(vec![RZipProcessingError::CompressTools(
            "not an archive".to_string()
        )]))
    );
    // What was written stays; what came after the failure was never begun.
    assert!(disk.has(&temp("outer/bad.zip")));
    assert!(disk.has(&temp("outer/good.zip")));
    assert!(!disk.has(&temp("outer/good")));
}

#[test]
fn nested_archives_are_unpacked_depth_first() {
    // top.zip holds a.zip and z.zip; a.zip holds inner.zip.
    let mut disk = Disk::new();
    disk.archive("inner", &[("doc.txt", "")]);
    disk.archive("a", &[("inner.zip", "inner")]);
    disk.archive("z", &[("doc.txt", "")]);
    disk.archive("top", &[("a.zip", "a"), ("z.zip", "z")]);
    disk.put(&temp("top.zip"), "top");
    let target = p(&temp("top.zip"));
    let config = in_place(&temp("top.zip"));
    let out_path = get_out_path_for_archive(&target, &config).unwrap();

    disk.extract(&target, &out_path, &config).unwrap();

    let order: Vec<String> = disk.ran.iter().map(|(_, archive, _)| archive.clone()).collect();
    assert_eq!(
        order,
        vec![
            temp("top.zip"),
            temp("top/a.zip"),
            temp("top/a/inner.zip"),
            temp("top/z.zip"),
        ]
    );
}

#[test]
fn unreadable_output_directory_ends_the_run() {
    let mut disk = disk_with_single("packed_zip.zip", "doc_zip.txt");
    disk.unreadable.insert(temp("packed_zip"));
    let target = p(&temp("packed_zip.zip"));
    let config = in_place(&temp("packed_zip.zip"));
    let out_path = get_out_path_for_archive(&target, &config).unwrap();

    let result = disk.extract(&target, &out_path, &config);
    assert_eq!(result, Err(RZipError::Io(format!("cannot read {}", temp("packed_zip")))));
}

#[test]
fn archive_that_holds_itself_is_stopped() {
    // loop.zip holds a copy of itself.
    let mut disk = Disk::new();
    disk.archive("loop", &[("loop.zip", "loop")]);
    disk.put(&temp("loop.zip"), "loop");
    let target = p(&temp("loop.zip"));
    let config = in_place(&temp("loop.zip"));
    let out_path = get_out_path_for_archive(&target, &config).unwrap();

    let run = Extraction::with_depth_limit(&target, &out_path, &config, 2);
    let result = disk.drive(run);

    assert_eq!(
        result,
        Err(RZipError::NestingTooDeep(p(&temp("loop/loop/loop/loop.zip"))))
    );
    assert_eq!(disk.ran.len(), 3);

    // The usual limit stops it too.
    let mut disk = Disk::new();
    disk.archive("loop", &[("loop.zip", "loop")]);
    disk.put(&temp("loop.zip"), "loop");
    let result = disk.extract(&target, &out_path, &config);
    assert!(matches!(result, Err(RZipError::NestingTooDeep(_))));
    assert_eq!(disk.ran.len(), MAX_NESTING_DEPTH + 1);
}

#[test]
fn nested_archive_outside_both_roots_is_refused() {
    // The run writes to a directory that lies under neither root.
    let mut disk = Disk::new();
    disk.archive("b", &[("doc.txt", "")]);
    disk.archive("a", &[("b.zip", "b")]);
    disk.put("/source/a.zip", "a");
    let config = RZipExtractConfig {
        target_path: p("/source/a.zip"),
        out_dir: Some(p("/d")),
        delete_after_extracting: false,
    };

    let result = disk.extract(&p("/source/a.zip"), &p("/elsewhere/a"), &config);

    assert_eq!(
        result,
        Err(RZipError::Path(PathError::NotUnderRoot, p("/elsewhere/a/b.zip")))
    );
}

#[test]
fn events_that_are_not_due_change_nothing() {
    let target = p(&temp("packed_zip.zip"));
    let config = in_place(&temp("packed_zip.zip"));
    let out_path = p(&temp("packed_zip"));
    let mut run = recursive_file_extract(&target, &out_path, &config);
    assert_eq!(run.status(), ExtractStatus::Unpacking);

    run.step(ExtractEvent::Scanned(vec![DirEntry::File(b"x.zip".to_vec())]));
    assert_eq!(run, recursive_file_extract(&target, &out_path, &config));

    run.step(ExtractEvent::StageFinished(Ok(())));
    assert_eq!(run.status(), ExtractStatus::Rescanning);
    assert_eq!(run.next_action(), ExtractAction::Scan { dir: out_path.clone() });
    run.step(ExtractEvent::StageFinished(Ok(())));
    assert_eq!(run.status(), ExtractStatus::Rescanning);

    run.step(ExtractEvent::Scanned(Vec::new()));
    assert_eq!(run.status(), ExtractStatus::Done);
    assert_eq!(run.result(), Some(Ok(())));
    run.step(ExtractEvent::Scanned(vec![DirEntry::File(b"x.zip".to_vec())]));
    assert_eq!(run.next_action(), ExtractAction::Done);
    assert_eq!(run.config, config);
}

#[test]
fn a_failure_names_the_archive_that_it_is_about() {
    // outer.zip holds inner.7z, on which every stage fails.
    let mut disk = Disk::new();
    disk.archive("outer", &[("inner.7z", "garbage")]);
    disk.put(&temp("outer.zip"), "outer");
    let target = p(&temp("outer.zip"));
    let config = in_place(&temp("outer.zip"));
    let out_path = get_out_path_for_archive(&target, &config).unwrap();

    let mut run = recursive_file_extract(&target, &out_path, &config);
    let failed = loop {
        match run.next_action() {
            ExtractAction::RunStage { stage, archive, out_dir } => {
                let result = disk.run_stage(stage, &text(&archive), &text(&out_dir));
                run.step(ExtractEvent::StageFinished(result));
            }
            ExtractAction::Scan { dir } => {
                let listing = disk.listing(&text(&dir));
                run.step(ExtractEvent::Scanned(listing));
            }
            other => break other,
        }
    };

    assert_eq!(
        failed,
        ExtractAction::Failed {
            archive: p(&temp("outer/inner.7z")),
            error: RZipError::ProcessingErrors(vec![
                RZipProcessingError::CompressTools("not an archive".to_string()),
                RZipProcessingError::SevenZ("not an archive".to_string()),
            ]),
        }
    );
}

/// Unpacks an archive and all that it holds by plain recursion.
fn unpack_recursively(
    disk: &mut Disk,
    archive: &FsPath,
    out_path: &FsPath,
    config: &RZipExtractConfig,
    depth_left: usize,
) -> Result<(), RZipError> {
    let mut attempt = rzip_lib::unpack_file(archive, out_path)?;
    while let rzip_lib::UnpackStep::Run(stage) = attempt.next() {
        let result = disk.run_stage(stage, &text(archive), &text(out_path));
        attempt.record(result);
    }
    if let Some(Err(e)) = attempt.result() {
        return Err(e);
    }
    let found = get_archives_in_dir(out_path, &disk.listing(&text(out_path)))?;
    if found.is_empty() {
        return Ok(());
    }
    if depth_left == 0 {
        return Err(RZipError::NestingTooDeep(found[0].clone()));
    }
    for nested in found {
        let nested_out = get_out_path_for_archive(&nested, config)?;
        unpack_recursively(disk, &nested, &nested_out, config, depth_left - 1)?;
    }
    Ok(())
}

fn deep_disk() -> Disk {
    let mut disk = Disk::new();
    disk.archive("leaf", &[("doc.txt", "")]);
    disk.archive("inner", &[("leaf.tar", "leaf"), ("notes.txt", "")]);
    disk.archive("a", &[("inner.7z", "inner"), ("sub/leaf.zip", "leaf")]);
    disk.archive("z", &[("bad.rar", "garbage"), ("leaf.gz", "leaf")]);
    disk.archive("top", &[("a.zip", "a"), ("m.txt", ""), ("z.zip", "z")]);
    disk.put(&temp("top.zip"), "top");
    disk
}

#[test]
fn the_engine_ends_as_the_recursion_does() {
    for broken in [
        vec![],
        vec![UnpackStage::CompressTools],
        vec![UnpackStage::CompressTools, UnpackStage::SevenZ],
        vec![UnpackStage::Tar],
    ] {
        for out_dir in [None, Some("/d"), Some("/tmp/work/out")] {
            for depth in [0, 1, 2, 5] {
                let target = p(&temp("top.zip"));
                let config = RZipExtractConfig {
                    target_path: target.clone(),
                    out_dir: out_dir.map(p),
                    delete_after_extracting: false,
                };
                let out_path = get_out_path_for_archive(&target, &config).unwrap();

                let mut by_engine = deep_disk();
                by_engine.broken = broken.clone();
                let run = Extraction::with_depth_limit(&target, &out_path, &config, depth);
                let engine_result = by_engine.drive(run);

                let mut by_recursion = deep_disk();
                by_recursion.broken = broken.clone();
                let recursion_result =
                    unpack_recursively(&mut by_recursion, &target, &out_path, &config, depth);

                assert_eq!(engine_result, recursion_result);
                assert_eq!(by_engine.ran, by_recursion.ran);
                assert_eq!(by_engine.files, by_recursion.files);
            }
        }
    }
}
