//! Finding the archives under a directory.
//!
//! The walk goes through a directory's entries in the order in which they
//! were listed. A file that is an archive is reported; a directory is
//! entered at once, so that what lies under it comes before the entries
//! that follow it. A directory is never reported, whatever its name. If
//! reading failed anywhere, the walk reports that failure and no archive
//! at all.
//!
//! The listing is a value: the caller reads the directory tree and hands
//! it over, and the walk itself touches no file system.

use vstd::prelude::*;
use crate::classify::{is_archive, is_archive_filetype};
use crate::error::{RZipError, RZipErrorView};
use crate::path::{has_prefix, joined, name_as_path, paths_view, FsPath, Part};

verus! {

/// One entry of a directory listing.
#[derive(Debug, PartialEq, Eq)]
pub enum DirEntry {
    /// A file, by its name.
    File(Vec<u8>),
    /// A directory, by its name, with the listing of what it holds.
    Dir(Vec<u8>, Vec<DirEntry>),
    /// Reading failed at this place of the listing; the message. A
    /// directory that could not be read at all holds this and no more.
    Failed(String),
}

/// The path of the entry called `name` in the directory `dir`.
pub open spec fn child_path(dir: Seq<Part>, name: Seq<u8>) -> Seq<Part> {
    joined(dir, name_as_path(name))
}

/// What the walk finds at one entry of the directory `dir`: the archives,
/// in the order of the walk, or the message of the first failure.
pub open spec fn scan_entry(dir: Seq<Part>, entry: DirEntry) -> Result<Seq<Seq<Part>>, Seq<char>>
    decreases entry, 0nat,
{
    match entry {
        DirEntry::File(name) => if is_archive(child_path(dir, name@), false) {
            Ok(seq![child_path(dir, name@)])
        } else {
            Ok(Seq::empty())
        },
        DirEntry::Dir(name, entries) => scan_from(child_path(dir, name@), entries@, 0),
        DirEntry::Failed(message) => Err(message@),
    }
}

/// What the walk finds in the entries of `dir` from place `from` on.
pub open spec fn scan_from(dir: Seq<Part>, entries: Seq<DirEntry>, from: int) -> Result<
    Seq<Seq<Part>>,
    Seq<char>,
>
    decreases entries, entries.len() - from,
{
    if 0 <= from < entries.len() {
        match scan_entry(dir, entries[from]) {
            Err(message) => Err(message),
            Ok(first) => match scan_from(dir, entries, from + 1) {
                Err(message) => Err(message),
                Ok(rest) => Ok(first + rest),
            },
        }
    } else {
        Ok(Seq::empty())
    }
}

/// What the walk finds in the directory `dir` with the listing `entries`.
pub open spec fn scan(dir: Seq<Part>, entries: Seq<DirEntry>) -> Result<Seq<Seq<Part>>, Seq<char>> {
    scan_from(dir, entries, 0)
}

/// Whether reading failed at an entry or anywhere under it.
pub open spec fn entry_has_failure(entry: DirEntry) -> bool
    decreases entry, 0nat,
{
    match entry {
        DirEntry::File(_) => false,
        DirEntry::Dir(_, entries) => listing_has_failure_from(entries@, 0),
        DirEntry::Failed(_) => true,
    }
}

/// Whether reading failed anywhere in the entries of a listing from place
/// `from` on.
pub open spec fn listing_has_failure_from(entries: Seq<DirEntry>, from: int) -> bool
    decreases entries, entries.len() - from,
{
    if 0 <= from < entries.len() {
        entry_has_failure(entries[from]) || listing_has_failure_from(entries, from + 1)
    } else {
        false
    }
}

/// Whether reading failed anywhere in a listing.
pub open spec fn listing_has_failure(entries: Seq<DirEntry>) -> bool {
    listing_has_failure_from(entries, 0)
}

/// The walk fails at an entry exactly where reading failed at it or under
/// it.
pub proof fn lemma_scan_entry_fails(dir: Seq<Part>, entry: DirEntry)
    ensures
        scan_entry(dir, entry) is Err <==> entry_has_failure(entry),
    decreases entry, 0nat,
{
    match entry {
        DirEntry::Dir(name, entries) => {
            lemma_scan_from_fails(child_path(dir, name@), entries@, 0);
        },
        _ => {},
    }
}

/// The walk fails in the entries from `from` on exactly where reading
/// failed in one of them.
pub proof fn lemma_scan_from_fails(dir: Seq<Part>, entries: Seq<DirEntry>, from: int)
    ensures
        scan_from(dir, entries, from) is Err <==> listing_has_failure_from(entries, from),
    decreases entries, entries.len() - from,
{
    if 0 <= from < entries.len() {
        lemma_scan_entry_fails(dir, entries[from]);
        lemma_scan_from_fails(dir, entries, from + 1);
    }
}

/// A scan fails exactly where reading failed somewhere in the listing,
/// whatever the directory is called.
pub proof fn lemma_scan_fails(dir: Seq<Part>, entries: Seq<DirEntry>)
    ensures
        scan(dir, entries) is Err <==> listing_has_failure(entries),
{
    lemma_scan_from_fails(dir, entries, 0);
}

/// Whether every path of `found` is an archive at or under `dir`.
pub open spec fn all_archives_under(found: Seq<Seq<Part>>, dir: Seq<Part>) -> bool {
    forall|i: int|
        0 <= i < found.len() ==> has_prefix(#[trigger] found[i], dir) && is_archive(found[i], false)
}

/// What lies under a directory under `dir` lies under `dir`.
proof fn lemma_under_child(found: Seq<Seq<Part>>, dir: Seq<Part>, name: Seq<u8>)
    requires
        all_archives_under(found, child_path(dir, name)),
    ensures
        all_archives_under(found, dir),
{
    let child = child_path(dir, name);
    crate::path::lemma_joined_has_prefix(dir, name_as_path(name));
    assert forall|i: int| 0 <= i < found.len() implies has_prefix(#[trigger] found[i], dir) by {
        crate::path::lemma_prefix_transitive(found[i], child, dir);
    }
}

/// Whatever the walk finds at one entry of `dir` is an archive at or
/// under `dir`.
pub proof fn lemma_scan_entry_finds_archives(dir: Seq<Part>, entry: DirEntry)
    ensures
        scan_entry(dir, entry) matches Ok(found) ==> all_archives_under(found, dir),
    decreases entry, 0nat,
{
    match entry {
        DirEntry::File(name) => {
            crate::path::lemma_joined_has_prefix(dir, name_as_path(name@));
        },
        DirEntry::Dir(name, entries) => {
            lemma_scan_from_finds_archives(child_path(dir, name@), entries@, 0);
            match scan_from(child_path(dir, name@), entries@, 0) {
                Ok(found) => {
                    lemma_under_child(found, dir, name@);
                },
                Err(_) => {},
            }
        },
        DirEntry::Failed(_) => {},
    }
}

/// Whatever the walk finds in the entries of `dir` from `from` on is an
/// archive at or under `dir`.
pub proof fn lemma_scan_from_finds_archives(dir: Seq<Part>, entries: Seq<DirEntry>, from: int)
    ensures
        scan_from(dir, entries, from) matches Ok(found) ==> all_archives_under(found, dir),
    decreases entries, entries.len() - from,
{
    if 0 <= from < entries.len() {
        lemma_scan_entry_finds_archives(dir, entries[from]);
        lemma_scan_from_finds_archives(dir, entries, from + 1);
        match scan_entry(dir, entries[from]) {
            Ok(first) => match scan_from(dir, entries, from + 1) {
                Ok(rest) => {
                    let found = first + rest;
                    assert forall|i: int| 0 <= i < found.len() implies has_prefix(
                        #[trigger] found[i],
                        dir,
                    ) && is_archive(found[i], false) by {
                        if i < first.len() {
                            assert(found[i] == first[i]);
                        } else {
                            assert(found[i] == rest[i - first.len()]);
                        }
                    }
                },
                Err(_) => {},
            },
            Err(_) => {},
        }
    }
}

/// Every path that a scan of `dir` reports is an archive and lies at or
/// under `dir`: no directory and no other file is reported, and nothing
/// from elsewhere.
pub proof fn lemma_scan_finds_archives(dir: Seq<Part>, entries: Seq<DirEntry>)
    ensures
        scan(dir, entries) matches Ok(found) ==> all_archives_under(found, dir),
{
    lemma_scan_from_finds_archives(dir, entries, 0);
}

/// Whether every path of `found` has the root in first place only.
pub open spec fn all_root_only_first(found: Seq<Seq<Part>>) -> bool {
    forall|i: int| 0 <= i < found.len() ==> crate::path::root_only_first(#[trigger] found[i])
}

/// The path of an entry has the root in first place only, where the
/// directory has.
proof fn lemma_child_root_only_first(dir: Seq<Part>, name: Seq<u8>)
    requires
        crate::path::root_only_first(dir),
    ensures
        crate::path::root_only_first(child_path(dir, name)),
{
    let x = name_as_path(name);
    assert(x.len() == 1 && !(x[0] is RootDir));
    crate::path::lemma_joined_root_only_first(dir, x);
}

/// Whatever the walk finds at one entry of `dir` has the root in first
/// place only, where `dir` has.
pub proof fn lemma_scan_entry_root_only_first(dir: Seq<Part>, entry: DirEntry)
    requires
        crate::path::root_only_first(dir),
    ensures
        scan_entry(dir, entry) matches Ok(found) ==> all_root_only_first(found),
    decreases entry, 0nat,
{
    match entry {
        DirEntry::File(name) => {
            lemma_child_root_only_first(dir, name@);
        },
        DirEntry::Dir(name, entries) => {
            lemma_child_root_only_first(dir, name@);
            lemma_scan_from_root_only_first(child_path(dir, name@), entries@, 0);
        },
        DirEntry::Failed(_) => {},
    }
}

/// Whatever the walk finds in the entries of `dir` from `from` on has the
/// root in first place only, where `dir` has.
pub proof fn lemma_scan_from_root_only_first(dir: Seq<Part>, entries: Seq<DirEntry>, from: int)
    requires
        crate::path::root_only_first(dir),
    ensures
        scan_from(dir, entries, from) matches Ok(found) ==> all_root_only_first(found),
    decreases entries, entries.len() - from,
{
    if 0 <= from < entries.len() {
        lemma_scan_entry_root_only_first(dir, entries[from]);
        lemma_scan_from_root_only_first(dir, entries, from + 1);
        match scan_entry(dir, entries[from]) {
            Ok(first) => match scan_from(dir, entries, from + 1) {
                Ok(rest) => {
                    let found = first + rest;
                    assert forall|i: int| 0 <= i < found.len() implies crate::path::root_only_first(
                        #[trigger] found[i],
                    ) by {
                        if i < first.len() {
                            assert(found[i] == first[i]);
                        } else {
                            assert(found[i] == rest[i - first.len()]);
                        }
                    }
                },
                Err(_) => {},
            },
            Err(_) => {},
        }
    }
}

/// What has been found so far, followed by what the rest of the walk
/// finds.
pub open spec fn found_then(
    found: Seq<Seq<Part>>,
    rest: Result<Seq<Seq<Part>>, Seq<char>>,
) -> Result<Seq<Seq<Part>>, Seq<char>> {
    match rest {
        Ok(more) => Ok(found + more),
        Err(message) => Err(message),
    }
}

/// The archives under the directory `path`, whose listing is `entries`,
/// in the order of the walk.
///
/// Fails with `Io`, carrying the message of the first failure in the
/// order of the walk, exactly where the listing holds a failure; nothing
/// that was found before it is returned.
pub fn get_archives_in_dir(path: &FsPath, entries: &Vec<DirEntry>) -> (r: Result<
    Vec<FsPath>,
    RZipError,
>)
    ensures
        match scan(path@, entries@) {
            Ok(found) => r matches Ok(v) && paths_view(v@) == found,
            Err(message) => r matches Err(e) && e@ == RZipErrorView::Io(message),
        },
        r is Err <==> listing_has_failure(entries@),
        r matches Ok(v) ==> all_archives_under(paths_view(v@), path@),
    decreases entries,
{
    proof {
        lemma_scan_finds_archives(path@, entries@);
        lemma_scan_fails(path@, entries@);
    }
    let mut out: Vec<FsPath> = Vec::new();
    let mut i: usize = 0;
    proof {
        assert(paths_view(out@) =~= Seq::<Seq<Part>>::empty());
        match scan_from(path@, entries@, 0) {
            Ok(more) => {
                assert(Seq::<Seq<Part>>::empty() + more =~= more);
            },
            Err(_) => {},
        }
    }
    while i < entries.len()
        invariant
            i <= entries.len(),
            scan(path@, entries@) is Err <==> listing_has_failure(entries@),
            scan(path@, entries@) == found_then(
                paths_view(out@),
                scan_from(path@, entries@, i as int),
            ),
        decreases entries.len() - i,
    {
        let ghost before = paths_view(out@);
        let ghost here = scan_entry(path@, entries@[i as int]);
        let ghost rest = scan_from(path@, entries@, i + 1);
        proof {
            assert(scan_from(path@, entries@, i as int) == match here {
                Err(message) => Err(message),
                Ok(first) => found_then(first, rest),
            });
        }
        match &entries[i] {
            DirEntry::File(name) => {
                let child = path.join(&FsPath::from_name(name.as_slice()));
                if is_archive_filetype(&child, false) {
                    out.push(child);
                    proof {
                        assert(paths_view(out@) =~= before.push(child@));
                        match rest {
                            Ok(more) => {
                                assert(before + (seq![child@] + more) =~= before.push(child@)
                                    + more);
                            },
                            Err(_) => {},
                        }
                    }
                } else {
                    proof {
                        match rest {
                            Ok(more) => {
                                assert(Seq::<Seq<Part>>::empty() + more =~= more);
                            },
                            Err(_) => {},
                        }
                    }
                }
            },
            DirEntry::Dir(name, sub) => {
                let child = path.join(&FsPath::from_name(name.as_slice()));
                proof {
                    assert(here == scan(child@, sub@));
                }
                match get_archives_in_dir(&child, sub) {
                    Ok(mut found) => {
                        let ghost inner = paths_view(found@);
                        let ghost old_out = out@;
                        let ghost old_found = found@;
                        out.append(&mut found);
                        proof {
                            assert(out@ == old_out + old_found);
                            assert(paths_view(out@) =~= before + inner);
                            match rest {
                                Ok(more) => {
                                    assert(before + (inner + more) =~= (before + inner) + more);
                                },
                                Err(_) => {},
                            }
                        }
                    },
                    Err(e) => {
                        return Err(e);
                    },
                }
            },
            DirEntry::Failed(message) => {
                return Err(RZipError::Io(message.clone()));
            },
        }
        i += 1;
    }
    proof {
        assert(paths_view(out@) + Seq::<Seq<Part>>::empty() =~= paths_view(out@));
    }
    Ok(out)
}

} // verus!
