//! Where an archive's contents go.
//!
//! With no output root, an archive unpacks beside itself, into a
//! directory named after its stem. With an output root, the archive's
//! place relative to the target (or, for an archive that an earlier
//! extraction produced, relative to the output root) is kept under the
//! output root, so that archives of one name at different depths do not
//! meet.

use vstd::prelude::*;
use crate::error::{PathError, RZipError, RZipErrorView};
use crate::path::{
    file_name_of, has_prefix, joined, lemma_joined_well_formed, name_as_path, opt_path_view,
    parent_of, well_formed, without_prefix, FsPath, Part,
};
use crate::name::{
    dot_dot_name, dot_name, last_dot, last_dot_index, lemma_stem_and_extension, name_stem,
    opt_name_view, stem_of_name, valid_name,
};

verus! {

/// The settings of one extraction run. They are made once and only read
/// afterwards: every archive of the run, however deeply nested, is
/// resolved against the same target and the same output root.
#[derive(Debug, PartialEq, Eq)]
pub struct RZipExtractConfig {
    /// The path the run was started on: the one archive, or the directory
    /// that was scanned.
    pub target_path: FsPath,
    /// The output root. Without one, each archive unpacks beside itself.
    pub out_dir: Option<FsPath>,
    /// Whether the caller wants an archive removed once it is unpacked.
    /// The engine carries the flag and never acts on it.
    pub delete_after_extracting: bool,
}

/// The mathematical counterpart of an [`RZipExtractConfig`].
pub struct ConfigView {
    pub target_path: Seq<Part>,
    pub out_dir: Option<Seq<Part>>,
    pub delete_after_extracting: bool,
}

impl View for RZipExtractConfig {
    type V = ConfigView;

    open spec fn view(&self) -> ConfigView {
        ConfigView {
            target_path: self.target_path@,
            out_dir: opt_path_view(self.out_dir),
            delete_after_extracting: self.delete_after_extracting,
        }
    }
}

impl Clone for RZipExtractConfig {
    fn clone(&self) -> (res: Self)
        ensures
            res@ == self@,
    {
        RZipExtractConfig {
            target_path: self.target_path.clone(),
            out_dir: match &self.out_dir {
                Some(d) => Some(d.clone()),
                None => None,
            },
            delete_after_extracting: self.delete_after_extracting,
        }
    }
}

/// Whether both paths of a configuration are well formed.
pub open spec fn config_well_formed(config: ConfigView) -> bool {
    &&& well_formed(config.target_path)
    &&& match config.out_dir {
        Some(d) => well_formed(d),
        None => true,
    }
}

/// Whether a file name is nothing but an extension: a dot, then text
/// without another dot. Such a name has no stem to call a directory
/// after.
pub open spec fn bare_extension(name: Seq<u8>) -> bool {
    name.len() > 1 && last_dot(name) == Some(0int)
}

/// The stem that an archive's output directory is called after: the file
/// name without its final extension. A path without a file name has
/// none, and neither has one whose file name is nothing but an extension.
pub open spec fn archive_stem_of(path: Seq<Part>) -> Option<Seq<u8>> {
    match file_name_of(path) {
        Some(name) => if bare_extension(name) {
            None
        } else {
            Some(stem_of_name(name))
        },
        None => None,
    }
}

/// A path with an extension has a stem.
pub proof fn lemma_extension_gives_stem(path: Seq<Part>)
    requires
        crate::path::extension_of(path) is Some,
    ensures
        archive_stem_of(path) is Some,
{
}

/// The archive's path relative to the target, where it lies at or under
/// the target; else relative to the output root, where it lies at or under
/// that; else nothing.
pub open spec fn relative_to_roots(
    archive: Seq<Part>,
    target: Seq<Part>,
    out_dir: Seq<Part>,
) -> Option<Seq<Part>> {
    if has_prefix(archive, target) {
        without_prefix(archive, target)
    } else {
        without_prefix(archive, out_dir)
    }
}

/// The directory part of a relative path; empty where the path has none.
pub open spec fn parent_or_empty(relative: Seq<Part>) -> Seq<Part> {
    match parent_of(relative) {
        Some(p) => p,
        None => Seq::empty(),
    }
}

/// The output directory of an archive with stem `stem` that lies at
/// `relative` under one of the roots: the directory part of `relative`
/// under the output root, then the stem.
pub open spec fn output_under(out_dir: Seq<Part>, relative: Seq<Part>, stem: Seq<u8>) -> Seq<
    Part,
> {
    joined(joined(out_dir, parent_or_empty(relative)), name_as_path(stem))
}

/// The output directory of an archive, or why there is none.
pub open spec fn out_path_of(archive: Seq<Part>, config: ConfigView) -> Result<
    Seq<Part>,
    PathError,
> {
    match archive_stem_of(archive) {
        None => Err(PathError::NoStem),
        Some(stem) => match config.out_dir {
            None => Ok(joined(archive.drop_last(), name_as_path(stem))),
            Some(out_dir) => if archive == config.target_path {
                Ok(joined(out_dir, name_as_path(stem)))
            } else {
                match relative_to_roots(archive, config.target_path, out_dir) {
                    None => Err(PathError::NotUnderRoot),
                    Some(relative) => Ok(output_under(out_dir, relative, stem)),
                }
            },
        },
    }
}

/// Whether a path lies at or under a root of the configuration: under
/// the target, or under the output root where one is set.
pub open spec fn under_a_root(archive: Seq<Part>, config: ConfigView) -> bool {
    ||| has_prefix(archive, config.target_path)
    ||| (config.out_dir matches Some(out_dir) && has_prefix(archive, out_dir))
}

/// When an archive has an output directory, and which failure it meets
/// when it has none: `NoStem` exactly for a path without a stem;
/// `NotUnderRoot` exactly for a path with a stem, under an output root,
/// that lies under neither root.
pub proof fn lemma_out_path_cases(archive: Seq<Part>, config: ConfigView)
    ensures
        out_path_of(archive, config) is Ok <==> archive_stem_of(archive) is Some && (
        config.out_dir is None || under_a_root(archive, config)),
        out_path_of(archive, config) == Err::<Seq<Part>, PathError>(PathError::NoStem)
            <==> archive_stem_of(archive) is None,
        out_path_of(archive, config) == Err::<Seq<Part>, PathError>(PathError::NotUnderRoot)
            <==> archive_stem_of(archive) is Some && config.out_dir is Some && !under_a_root(
            archive,
            config,
        ),
{
    if archive == config.target_path {
        assert(archive.subrange(0, archive.len() as int) =~= archive);
    }
}

/// Two files in one directory whose names have stems, and different ones,
/// have different output directories: with no output root always, and
/// with an output root where the directory lies at or under the target.
pub proof fn lemma_siblings_do_not_collide(
    dir: Seq<Part>,
    name1: Seq<u8>,
    name2: Seq<u8>,
    config: ConfigView,
)
    requires
        !bare_extension(name1),
        !bare_extension(name2),
        stem_of_name(name1) != stem_of_name(name2),
        config.out_dir is Some ==> has_prefix(dir, config.target_path),
    ensures
        out_path_of(dir.push(Part::Normal(name1)), config) is Ok,
        out_path_of(dir.push(Part::Normal(name2)), config) is Ok,
        out_path_of(dir.push(Part::Normal(name1)), config) != out_path_of(
            dir.push(Part::Normal(name2)),
            config,
        ),
{
    let a1 = dir.push(Part::Normal(name1));
    let a2 = dir.push(Part::Normal(name2));
    let s1 = stem_of_name(name1);
    let s2 = stem_of_name(name2);
    let x1 = name_as_path(s1);
    let x2 = name_as_path(s2);
    assert(a1.drop_last() =~= dir);
    assert(a2.drop_last() =~= dir);
    assert(x1.len() == 1 && x2.len() == 1);
    assert(x1[0] != x2[0]);
    match config.out_dir {
        None => {
            lemma_join_one_differs(dir, x1, x2);
        },
        Some(out_dir) => {
            let target = config.target_path;
            assert(target.len() <= dir.len());
            assert(a1 != target && a2 != target);
            assert(target =~= a1.subrange(0, target.len() as int)) by {
                assert(dir.subrange(0, target.len() as int) == target);
                assert forall|k: int| 0 <= k < target.len() implies target[k] == a1[k] by {
                    assert(dir.subrange(0, target.len() as int)[k] == dir[k]);
                }
            }
            assert(target =~= a2.subrange(0, target.len() as int)) by {
                assert(dir.subrange(0, target.len() as int) == target);
                assert forall|k: int| 0 <= k < target.len() implies target[k] == a2[k] by {
                    assert(dir.subrange(0, target.len() as int)[k] == dir[k]);
                }
            }
            let r1 = a1.skip(target.len() as int);
            let r2 = a2.skip(target.len() as int);
            assert(r1.drop_last() =~= dir.skip(target.len() as int));
            assert(r2.drop_last() =~= dir.skip(target.len() as int));
            assert(r1.last() == Part::Normal(name1));
            assert(r2.last() == Part::Normal(name2));
            let base = joined(out_dir, dir.skip(target.len() as int));
            lemma_join_one_differs(base, x1, x2);
        },
    }
}

/// Files in different places, or with different stems, have different
/// output directories: archives of one name at different depths do not
/// meet under the output root, and neither do archives of different names
/// in one directory. This holds of well-formed paths whose stems are
/// plain names; with an output root, it holds of paths that lie in
/// directories at or under a target that is not empty.
pub proof fn lemma_outputs_differ(a1: Seq<Part>, a2: Seq<Part>, config: ConfigView)
    requires
        well_formed(a1),
        well_formed(a2),
        archive_stem_of(a1) matches Some(stem1) && valid_name(stem1),
        archive_stem_of(a2) matches Some(stem2) && valid_name(stem2),
        a1.drop_last() != a2.drop_last() || archive_stem_of(a1) != archive_stem_of(a2),
        config.out_dir is Some ==> config.target_path.len() > 0 && has_prefix(
            a1.drop_last(),
            config.target_path,
        ) && has_prefix(a2.drop_last(), config.target_path),
    ensures
        out_path_of(a1, config) is Ok,
        out_path_of(a2, config) is Ok,
        out_path_of(a1, config) != out_path_of(a2, config),
{
    let stem1 = archive_stem_of(a1)->0;
    let stem2 = archive_stem_of(a2)->0;
    lemma_output_shape(a1, config);
    lemma_output_shape(a2, config);
    let base1 = output_base(a1, config);
    let base2 = output_base(a2, config);
    let out1 = base1.push(Part::Normal(stem1));
    let out2 = base2.push(Part::Normal(stem2));
    if out1 == out2 {
        assert(out1.last() == out2.last());
        assert(out1.drop_last() =~= base1);
        assert(out2.drop_last() =~= base2);
        assert(base1 == base2);
        match config.out_dir {
            None => {},
            Some(out_dir) => {
                let skip = config.target_path.len() as int;
                let r1 = a1.drop_last().skip(skip);
                let r2 = a2.drop_last().skip(skip);
                assert(r1 =~= base1.skip(out_dir.len() as int));
                assert(r2 =~= base2.skip(out_dir.len() as int));
                assert(a1.drop_last() =~= config.target_path + r1) by {
                    assert(a1.drop_last().subrange(0, skip) == config.target_path);
                }
                assert(a2.drop_last() =~= config.target_path + r2) by {
                    assert(a2.drop_last().subrange(0, skip) == config.target_path);
                }
            },
        }
    }
}

/// The directory that holds an archive's output directory: the archive's
/// own directory without an output root, and with one the archive's
/// directory, taken relative to the target, under the output root.
pub open spec fn output_base(archive: Seq<Part>, config: ConfigView) -> Seq<Part> {
    match config.out_dir {
        None => archive.drop_last(),
        Some(out_dir) => out_dir + archive.drop_last().skip(config.target_path.len() as int),
    }
}

/// The output directory of a well-formed path that lies in a directory
/// at or under a target that is not empty, and whose stem is a plain
/// name, is the stem under the directory that `output_base` gives.
proof fn lemma_output_shape(archive: Seq<Part>, config: ConfigView)
    requires
        well_formed(archive),
        archive_stem_of(archive) matches Some(stem) && valid_name(stem),
        config.out_dir is Some ==> config.target_path.len() > 0 && has_prefix(
            archive.drop_last(),
            config.target_path,
        ),
    ensures
        out_path_of(archive, config) == Ok::<Seq<Part>, PathError>(
            output_base(archive, config).push(Part::Normal(archive_stem_of(archive)->0)),
        ),
{
    let stem = archive_stem_of(archive)->0;
    let x = name_as_path(stem);
    let dir = archive.drop_last();
    assert(x =~= seq![Part::Normal(stem)]);
    match config.out_dir {
        None => {
            assert(joined(dir, x) =~= dir.push(Part::Normal(stem)));
        },
        Some(out_dir) => {
            let target = config.target_path;
            let skip = target.len() as int;
            assert(archive != target) by {
                if archive == target {
                    assert(dir.subrange(0, skip).len() == skip);
                }
            }
            assert(has_prefix(archive, target)) by {
                assert(dir.subrange(0, skip) == target);
                assert forall|k: int| 0 <= k < skip implies target[k] == archive[k] by {
                    assert(dir.subrange(0, skip)[k] == dir[k]);
                }
                assert(target =~= archive.subrange(0, skip));
            }
            let relative = archive.skip(skip);
            assert(relative.last() == archive.last());
            let r = relative.drop_last();
            assert(r =~= dir.skip(skip));
            assert(parent_or_empty(relative) == r);
            if r.len() > 0 {
                assert(r[0] == archive[skip]);
            }
            assert(joined(out_dir, r) =~= out_dir + r);
            assert(joined(out_dir + r, x) =~= (out_dir + r).push(Part::Normal(stem)));
        },
    }
}

/// Joining two different single parts to one path gives different paths.
proof fn lemma_join_one_differs(base: Seq<Part>, x1: Seq<Part>, x2: Seq<Part>)
    requires
        x1.len() == 1,
        x2.len() == 1,
        x1[0] != x2[0],
        !(x1[0] is RootDir),
        !(x2[0] is RootDir),
    ensures
        joined(base, x1) != joined(base, x2),
{
    let j1 = joined(base, x1);
    let j2 = joined(base, x2);
    if base.len() == 0 {
        assert(j1[0] != j2[0]);
    } else {
        if x1[0] is CurDir {
            assert(j1.len() == base.len());
            assert(j2.len() == base.len() + 1);
        } else if x2[0] is CurDir {
            assert(j2.len() == base.len());
            assert(j1.len() == base.len() + 1);
        } else {
            assert(j1[base.len() as int] == x1[0]);
            assert(j2[base.len() as int] == x2[0]);
        }
    }
}

/// Whether a path can be resolved as far as the roots go: no output root
/// is set, or the path lies at or under a root.
pub open spec fn anchored(path: Seq<Part>, config: ConfigView) -> bool {
    config.out_dir is None || under_a_root(path, config)
}

/// Whether the root occurs in first place only in the output root, where
/// one is set.
pub open spec fn out_dir_root_only_first(config: ConfigView) -> bool {
    config.out_dir matches Some(out_dir) ==> crate::path::root_only_first(out_dir)
}

/// The output directory of an archive lies at or under a root again,
/// where an output root is set: what an archive holds can be resolved as
/// the archive itself was. And it has the root in first place only, where
/// the archive and the output root have.
pub proof fn lemma_out_path_anchored(archive: Seq<Part>, config: ConfigView)
    requires
        crate::path::root_only_first(archive),
        out_dir_root_only_first(config),
        out_path_of(archive, config) is Ok,
    ensures
        anchored(out_path_of(archive, config)->Ok_0, config),
        crate::path::root_only_first(out_path_of(archive, config)->Ok_0),
{
    let out = out_path_of(archive, config)->Ok_0;
    let name = file_name_of(archive)->0;
    let stem = stem_of_name(name);
    let x = name_as_path(stem);
    assert(x.len() == 1 && !(x[0] is RootDir));
    assert(crate::path::root_only_first(x));
    match config.out_dir {
        None => {
            let parent = archive.drop_last();
            assert(crate::path::root_only_first(parent)) by {
                assert forall|i: int| 0 <= i < parent.len() && #[trigger] parent[i] is RootDir implies i
                    == 0 by {
                    assert(parent[i] == archive[i]);
                }
            }
            crate::path::lemma_joined_root_only_first(parent, x);
        },
        Some(out_dir) => {
            if archive == config.target_path {
                crate::path::lemma_joined_has_prefix(out_dir, x);
                crate::path::lemma_joined_root_only_first(out_dir, x);
            } else {
                let relative = relative_to_roots(archive, config.target_path, out_dir)->0;
                let skipped = archive.len() - relative.len();
                let dir = parent_or_empty(relative);
                assert(crate::path::root_only_first(dir)) by {
                    assert forall|i: int| 0 <= i < dir.len() && #[trigger] dir[i] is RootDir implies i
                        == 0 by {
                        assert(dir[i] == relative[i]);
                        assert(relative[i] == archive[i + skipped]);
                    }
                }
                let base = joined(out_dir, dir);
                crate::path::lemma_joined_root_only_first(out_dir, dir);
                crate::path::lemma_joined_root_only_first(base, x);
                crate::path::lemma_joined_has_prefix(base, x);
                if crate::path::is_absolute(dir) {
                    assert(dir[0] == relative[0]);
                    assert(relative[0] == archive[skipped]);
                    assert(skipped == 0);
                    // The root that the archive was taken relative to is
                    // empty, and everything lies under the empty path.
                    if has_prefix(archive, config.target_path) {
                        assert(config.target_path.len() == 0);
                        assert(config.target_path =~= out.subrange(0, 0));
                    } else {
                        assert(out_dir.len() == 0);
                        assert(out_dir =~= out.subrange(0, 0));
                    }
                } else {
                    crate::path::lemma_joined_has_prefix(out_dir, dir);
                    crate::path::lemma_prefix_transitive(out, base, out_dir);
                }
            }
        },
    }
}

/// Under the output root, an archive that does not lie under the target
/// unpacks beside itself: its output directory is the one that it would
/// have without an output root.
pub proof fn lemma_nested_unpack_beside_themselves(archive: Seq<Part>, config: ConfigView)
    requires
        well_formed(archive),
        archive_stem_of(archive) is Some,
        config.out_dir matches Some(out_dir) && has_prefix(archive, out_dir) && archive != out_dir,
        !has_prefix(archive, config.target_path),
    ensures
        out_path_of(archive, config) == out_path_of(
            archive,
            (ConfigView { out_dir: None, ..config }),
        ),
{
    let out_dir = config.out_dir->0;
    let relative = archive.skip(out_dir.len() as int);
    assert(archive != config.target_path) by {
        if archive == config.target_path {
            assert(archive.subrange(0, archive.len() as int) =~= archive);
        }
    }
    assert(relative.len() > 0) by {
        if relative.len() == 0 {
            assert(archive.subrange(0, out_dir.len() as int) =~= archive);
        }
    }
    let dir = relative.drop_last();
    assert(parent_or_empty(relative) == dir) by {
        assert(relative.last() == archive.last());
    }
    assert(out_dir =~= archive.subrange(0, out_dir.len() as int));
    if out_dir.len() > 0 {
        if dir.len() > 0 {
            assert(dir[0] == archive[out_dir.len() as int]);
        }
        assert(out_dir + dir =~= archive.drop_last());
    } else {
        assert(dir =~= archive.drop_last());
    }
}

/// The stem of a valid file name, read as a path, is well formed.
pub proof fn lemma_stem_path_well_formed(name: Seq<u8>)
    requires
        valid_name(name),
    ensures
        well_formed(name_as_path(stem_of_name(name))),
{
    lemma_stem_and_extension(name);
    let stem = stem_of_name(name);
    let p = name_as_path(stem);
    assert forall|i: int| 0 <= i < p.len() implies match #[trigger] p[i] {
        Part::RootDir => i == 0,
        Part::CurDir => i == 0,
        Part::ParentDir => true,
        Part::Normal(n) => valid_name(n),
    } by {
        if stem != dot_name() && stem != dot_dot_name() {
            assert(p[0] == Part::Normal(stem));
        }
    }
}

/// The output directory of a well-formed archive path under a
/// well-formed configuration is well formed.
pub proof fn lemma_out_path_well_formed(archive: Seq<Part>, config: ConfigView)
    requires
        well_formed(archive),
        config_well_formed(config),
        out_path_of(archive, config) is Ok,
    ensures
        well_formed(out_path_of(archive, config)->Ok_0),
{
    let name = file_name_of(archive)->0;
    assert(archive[archive.len() - 1] == Part::Normal(name));
    lemma_stem_path_well_formed(name);
    let stem = stem_of_name(name);
    let stem_path = name_as_path(stem);
    match config.out_dir {
        None => {
            let parent = archive.drop_last();
            assert forall|i: int| 0 <= i < parent.len() implies match #[trigger] parent[i] {
                Part::RootDir => i == 0,
                Part::CurDir => i == 0,
                Part::ParentDir => true,
                Part::Normal(n) => valid_name(n),
            } by {
                assert(parent[i] == archive[i]);
            }
            lemma_joined_well_formed(parent, stem_path);
        },
        Some(out_dir) => {
            if archive == config.target_path {
                lemma_joined_well_formed(out_dir, stem_path);
            } else {
                let relative = relative_to_roots(archive, config.target_path, out_dir)->0;
                if has_prefix(archive, config.target_path) {
                    crate::path::lemma_prefix_then_rest(archive, config.target_path);
                } else {
                    crate::path::lemma_prefix_then_rest(archive, out_dir);
                }
                let dir = parent_or_empty(relative);
                assert forall|i: int| 0 <= i < dir.len() implies match #[trigger] dir[i] {
                    Part::RootDir => i == 0,
                    Part::CurDir => i == 0,
                    Part::ParentDir => true,
                    Part::Normal(n) => valid_name(n),
                } by {
                    assert(dir[i] == relative[i]);
                }
                lemma_joined_well_formed(out_dir, dir);
                lemma_joined_well_formed(joined(out_dir, dir), stem_path);
            }
        },
    }
}

/// The stem that the output directory of the archive at `path` is called
/// after.
pub fn archive_stem(path: &FsPath) -> (r: Option<Vec<u8>>)
    ensures
        opt_name_view(r) == archive_stem_of(path@),
{
    match path.file_name() {
        Some(name) => {
            let dot_first = match last_dot_index(name.as_slice()) {
                Some(i) => i == 0,
                None => false,
            };
            if name.len() > 1 && dot_first {
                None
            } else {
                Some(name_stem(name.as_slice()))
            }
        },
        None => None,
    }
}

/// The archive's path relative to the target or to the output root.
///
/// Fails with `NotUnderRoot` exactly where the archive lies under neither.
pub fn get_relative_path(archive_path: &FsPath, config: &RZipExtractConfig, out_dir: &FsPath) -> (r:
    Result<FsPath, RZipError>)
    ensures
        match relative_to_roots(archive_path@, config@.target_path, out_dir@) {
            Some(relative) => r matches Ok(p) && p@ == relative,
            None => r matches Err(e) && e@ == RZipErrorView::Path(
                PathError::NotUnderRoot,
                archive_path@,
            ),
        },
{
    let stripped = if archive_path.starts_with(&config.target_path) {
        archive_path.strip_prefix(&config.target_path)
    } else {
        archive_path.strip_prefix(out_dir)
    };
    match stripped {
        Some(relative) => Ok(relative),
        None => Err(RZipError::Path(PathError::NotUnderRoot, archive_path.clone())),
    }
}

/// The output directory for a stem and a relative path: the directory part
/// of `relative_path` under `out_dir`, then the stem.
pub fn construct_output_path(relative_path: &FsPath, out_dir: &FsPath, stem: &[u8]) -> (r: FsPath)
    ensures
        r@ == output_under(out_dir@, relative_path@, stem@),
{
    let stem_path = FsPath::from_name(stem);
    match relative_path.parent() {
        Some(dir) => out_dir.join(&dir).join(&stem_path),
        None => {
            let empty = FsPath::new();
            out_dir.join(&empty).join(&stem_path)
        },
    }
}

/// The directory that the contents of `archive_path` go to.
///
/// Without an output root that is the archive's own directory joined with
/// its stem. With an output root `d` it is `d` joined with the stem where
/// the archive is the target itself, and otherwise `d`, then the
/// directory part of the archive's path relative to the target or to `d`,
/// then the stem.
///
/// Fails with `NoStem` exactly where the path has no stem: where it has no
/// file name, or a file name that is nothing but an extension. Fails with
/// `NotUnderRoot` exactly where an output root is set and the path has a
/// stem and lies under neither root. The failure carries the archive's
/// path.
pub fn get_out_path_for_archive(archive_path: &FsPath, config: &RZipExtractConfig) -> (r: Result<
    FsPath,
    RZipError,
>)
    ensures
        match out_path_of(archive_path@, config@) {
            Ok(p) => r matches Ok(q) && q@ == p,
            Err(kind) => r matches Err(e) && e@ == RZipErrorView::Path(kind, archive_path@),
        },
        archive_stem_of(archive_path@) is None <==> (r matches Err(e) && e@ == RZipErrorView::Path(
            PathError::NoStem,
            archive_path@,
        )),
        archive_stem_of(archive_path@) is Some && config@.out_dir is Some && !under_a_root(
            archive_path@,
            config@,
        ) <==> (r matches Err(e) && e@ == RZipErrorView::Path(
            PathError::NotUnderRoot,
            archive_path@,
        )),
        r is Ok <==> archive_stem_of(archive_path@) is Some && (config@.out_dir is None
            || under_a_root(archive_path@, config@)),
        config@.out_dir is None && archive_stem_of(archive_path@) is Some ==> (r matches Ok(q) && q@
            == joined(parent_of(archive_path@)->0, name_as_path(archive_stem_of(archive_path@)->0))),
        config@.out_dir is Some && archive_path@ == config@.target_path && archive_stem_of(
            archive_path@,
        ) is Some ==> (r matches Ok(q) && q@ == joined(
            config@.out_dir->0,
            name_as_path(archive_stem_of(archive_path@)->0),
        )),
        well_formed(archive_path@) && config_well_formed(config@) ==> (r matches Ok(q)
            ==> well_formed(q@)),
{
    proof {
        lemma_out_path_cases(archive_path@, config@);
        if well_formed(archive_path@) && config_well_formed(config@) && out_path_of(
            archive_path@,
            config@,
        ) is Ok {
            lemma_out_path_well_formed(archive_path@, config@);
        }
    }
    let stem = match archive_stem(archive_path) {
        Some(stem) => stem,
        None => {
            return Err(RZipError::Path(PathError::NoStem, archive_path.clone()));
        },
    };
    match &config.out_dir {
        Some(out_dir) => {
            if config.target_path.same_as(archive_path) {
                let stem_path = FsPath::from_name(stem.as_slice());
                return Ok(out_dir.join(&stem_path));
            }
            match get_relative_path(archive_path, config, out_dir) {
                Ok(relative) => Ok(construct_output_path(&relative, out_dir, stem.as_slice())),
                Err(e) => Err(e),
            }
        },
        None => {
            let stem_path = FsPath::from_name(stem.as_slice());
            let parent = archive_path.without_last();
            Ok(parent.join(&stem_path))
        },
    }
}

} // verus!
