//! Which files are archives.
//!
//! A file is an archive by the final extension of its name and by nothing
//! else: the contents are never looked at, the comparison is exact and
//! case-sensitive, and a directory is no archive whatever it is called.
//! A compound extension counts by its last part only, so `x.tar.gz` is a
//! `gz` archive. The short form `tgz` is not in the set: a decoder list
//! exists for it, but no scan reports such a file.

use vstd::prelude::*;
use crate::path::{extension_of, FsPath, Part};

verus! {

/// The extension `zip`.
pub open spec fn ext_zip() -> Seq<u8> {
    seq![0x7au8, 0x69u8, 0x70u8]
}

/// The extension `xz`.
pub open spec fn ext_xz() -> Seq<u8> {
    seq![0x78u8, 0x7au8]
}

/// The extension `tar`.
pub open spec fn ext_tar() -> Seq<u8> {
    seq![0x74u8, 0x61u8, 0x72u8]
}

/// The extension `gz`.
pub open spec fn ext_gz() -> Seq<u8> {
    seq![0x67u8, 0x7au8]
}

/// The extension `7z`.
pub open spec fn ext_7z() -> Seq<u8> {
    seq![0x37u8, 0x7au8]
}

/// The extension `rar`.
pub open spec fn ext_rar() -> Seq<u8> {
    seq![0x72u8, 0x61u8, 0x72u8]
}

/// The extension `tgz`.
pub open spec fn ext_tgz() -> Seq<u8> {
    seq![0x74u8, 0x67u8, 0x7au8]
}

/// The extensions that make a file an archive.
pub open spec fn archive_extensions() -> Seq<Seq<u8>> {
    seq![ext_zip(), ext_xz(), ext_tar(), ext_gz(), ext_7z(), ext_rar()]
}

/// Whether a path names an archive: it is no directory, and the final
/// extension of its file name is one of the archive extensions.
pub open spec fn is_archive(path: Seq<Part>, is_dir: bool) -> bool {
    &&& !is_dir
    &&& extension_of(path) is Some
    &&& archive_extensions().contains(extension_of(path)->0)
}

/// Whether `ext` is the two bytes `a`, `b`.
pub fn is_pair(ext: &[u8], a: u8, b: u8) -> (r: bool)
    ensures
        r == (ext@ == seq![a, b]),
{
    let r = ext.len() == 2 && ext[0] == a && ext[1] == b;
    proof {
        if r {
            assert(ext@ =~= seq![a, b]);
        }
    }
    r
}

/// Whether `ext` is the three bytes `a`, `b`, `c`.
pub fn is_triple(ext: &[u8], a: u8, b: u8, c: u8) -> (r: bool)
    ensures
        r == (ext@ == seq![a, b, c]),
{
    let r = ext.len() == 3 && ext[0] == a && ext[1] == b && ext[2] == c;
    proof {
        if r {
            assert(ext@ =~= seq![a, b, c]);
        }
    }
    r
}

/// Whether `ext` is one of the archive extensions.
pub fn is_archive_extension(ext: &[u8]) -> (r: bool)
    ensures
        r == archive_extensions().contains(ext@),
{
    let ghost table = archive_extensions();
    if is_triple(ext, 0x7a, 0x69, 0x70) {
        assert(table[0] == ext@);
        true
    } else if is_pair(ext, 0x78, 0x7a) {
        assert(table[1] == ext@);
        true
    } else if is_triple(ext, 0x74, 0x61, 0x72) {
        assert(table[2] == ext@);
        true
    } else if is_pair(ext, 0x67, 0x7a) {
        assert(table[3] == ext@);
        true
    } else if is_pair(ext, 0x37, 0x7a) {
        assert(table[4] == ext@);
        true
    } else if is_triple(ext, 0x72, 0x61, 0x72) {
        assert(table[5] == ext@);
        true
    } else {
        false
    }
}

/// Whether the entry at `path` is an archive. `is_dir` says whether the
/// entry is a directory.
///
/// The answer depends on the two arguments alone: asked twice of the same
/// path, it is the same.
pub fn is_archive_filetype(path: &FsPath, is_dir: bool) -> (r: bool)
    ensures
        r == is_archive(path@, is_dir),
        is_dir ==> !r,
        extension_of(path@) is None ==> !r,
{
    if is_dir {
        return false;
    }
    match path.extension() {
        Some(ext) => is_archive_extension(ext.as_slice()),
        None => false,
    }
}

} // verus!
