//! Paths as sequences of components.
//!
//! A path is held the way the operating system's own path type walks it:
//! an optional root, an optional leading `.`, then `..` and named
//! components. Everything the extraction rules ask of a path (its file
//! name, stem and extension, its parent, joining, prefixes) is a statement
//! about that sequence, so it is defined and proved on it. Names are raw
//! bytes: a name need not be text.

use vstd::prelude::*;
use crate::name::{
    bytes_eq, dot_dot_name, dot_name, extension_of_name, is_dot_dot_name, is_dot_name,
    name_extension, name_stem, opt_name_view, stem_of_name, valid_name,
};

verus! {

/// One component of a path.
#[derive(Debug, PartialEq, Eq)]
pub enum Component {
    /// The root directory; first component of an absolute path.
    RootDir,
    /// A leading `.`.
    CurDir,
    /// A `..`.
    ParentDir,
    /// A named file or directory.
    Normal(Vec<u8>),
}

/// The mathematical counterpart of a [`Component`].
pub enum Part {
    RootDir,
    CurDir,
    ParentDir,
    Normal(Seq<u8>),
}

impl View for Component {
    type V = Part;

    open spec fn view(&self) -> Part {
        match self {
            Component::RootDir => Part::RootDir,
            Component::CurDir => Part::CurDir,
            Component::ParentDir => Part::ParentDir,
            Component::Normal(name) => Part::Normal(name@),
        }
    }
}

impl Clone for Component {
    fn clone(&self) -> (res: Self)
        ensures
            res@ == self@,
    {
        match self {
            Component::RootDir => Component::RootDir,
            Component::CurDir => Component::CurDir,
            Component::ParentDir => Component::ParentDir,
            Component::Normal(name) => Component::Normal(name.clone()),
        }
    }
}

/// A path: its components, outermost first.
#[derive(Debug, PartialEq, Eq)]
pub struct FsPath {
    pub components: Vec<Component>,
}

/// The parts that a vector of components stands for.
pub open spec fn parts_of(components: Seq<Component>) -> Seq<Part> {
    Seq::new(components.len(), |i: int| components[i]@)
}

impl View for FsPath {
    type V = Seq<Part>;

    open spec fn view(&self) -> Seq<Part> {
        parts_of(self.components@)
    }
}

/// The view of an optional path.
pub open spec fn opt_path_view(p: Option<FsPath>) -> Option<Seq<Part>> {
    match p {
        Some(path) => Some(path@),
        None => None,
    }
}

/// The views of a list of paths.
pub open spec fn paths_view(paths: Seq<FsPath>) -> Seq<Seq<Part>> {
    Seq::new(paths.len(), |i: int| paths[i]@)
}

// ---------------------------------------------------------------------
// What a path is made of
// ---------------------------------------------------------------------

/// The shape that reading a path from text always yields: a root or a `.`
/// only in first place, and every name valid.
pub open spec fn well_formed(p: Seq<Part>) -> bool {
    forall|i: int|
        0 <= i < p.len() ==> match #[trigger] p[i] {
            Part::RootDir => i == 0,
            Part::CurDir => i == 0,
            Part::ParentDir => true,
            Part::Normal(name) => valid_name(name),
        }
}

/// The file name of a path: its last component, where that is a name.
pub open spec fn file_name_of(p: Seq<Part>) -> Option<Seq<u8>> {
    if p.len() > 0 {
        match p.last() {
            Part::Normal(name) => Some(name),
            _ => None,
        }
    } else {
        None
    }
}

/// The stem of a path: its file name without the final extension.
pub open spec fn file_stem_of(p: Seq<Part>) -> Option<Seq<u8>> {
    match file_name_of(p) {
        Some(name) => Some(stem_of_name(name)),
        None => None,
    }
}

/// The final extension of a path's file name.
pub open spec fn extension_of(p: Seq<Part>) -> Option<Seq<u8>> {
    match file_name_of(p) {
        Some(name) => extension_of_name(name),
        None => None,
    }
}

/// The path without its last component. The empty path and the bare root
/// have no parent.
pub open spec fn parent_of(p: Seq<Part>) -> Option<Seq<Part>> {
    if p.len() > 0 && !(p.last() is RootDir) {
        Some(p.drop_last())
    } else {
        None
    }
}

/// Whether a path starts at the root.
pub open spec fn is_absolute(p: Seq<Part>) -> bool {
    p.len() > 0 && p[0] is RootDir
}

/// `b` taken relative to `a`. An absolute `b` stands for itself, and so
/// does any `b` after the empty path; otherwise `b` follows `a`, without
/// the `.` it may begin with.
pub open spec fn joined(a: Seq<Part>, b: Seq<Part>) -> Seq<Part> {
    if is_absolute(b) || a.len() == 0 {
        b
    } else if b.len() > 0 && b[0] is CurDir {
        a + b.skip(1)
    } else {
        a + b
    }
}

/// Whether `p` lies at or under `base`, component by component.
pub open spec fn has_prefix(p: Seq<Part>, base: Seq<Part>) -> bool {
    base.is_prefix_of(p)
}

/// What is left of `p` after `base`, where `p` lies at or under it.
pub open spec fn without_prefix(p: Seq<Part>, base: Seq<Part>) -> Option<Seq<Part>> {
    if has_prefix(p, base) {
        Some(p.skip(base.len() as int))
    } else {
        None
    }
}

/// A single name read as a path: `.` and `..` are the current and the
/// parent directory, any other name is itself.
pub open spec fn name_as_path(name: Seq<u8>) -> Seq<Part> {
    if name == dot_name() {
        seq![Part::CurDir]
    } else if name == dot_dot_name() {
        seq![Part::ParentDir]
    } else {
        seq![Part::Normal(name)]
    }
}

// ---------------------------------------------------------------------
// Laws of the path operations
// ---------------------------------------------------------------------

/// A path with a file name has a parent, and the file name read as a path
/// and joined to that parent is the path again.
pub proof fn lemma_parent_then_name(p: Seq<Part>)
    requires
        well_formed(p),
        file_name_of(p) is Some,
    ensures
        parent_of(p) is Some,
        joined(parent_of(p)->0, name_as_path(file_name_of(p)->0)) == p,
{
    let name = file_name_of(p)->0;
    assert(p[p.len() - 1] == Part::Normal(name));
    assert(valid_name(name));
    assert(name_as_path(name) =~= seq![Part::Normal(name)]);
    assert(joined(p.drop_last(), seq![Part::Normal(name)]) =~= p);
}

/// Joining well-formed paths gives a well-formed path.
pub proof fn lemma_joined_well_formed(a: Seq<Part>, b: Seq<Part>)
    requires
        well_formed(a),
        well_formed(b),
    ensures
        well_formed(joined(a, b)),
{
    let j = joined(a, b);
    if is_absolute(b) || a.len() == 0 {
    } else if b.len() > 0 && b[0] is CurDir {
        assert forall|i: int| 0 <= i < j.len() implies match #[trigger] j[i] {
            Part::RootDir => i == 0,
            Part::CurDir => i == 0,
            Part::ParentDir => true,
            Part::Normal(name) => valid_name(name),
        } by {
            if i < a.len() {
                assert(j[i] == a[i]);
            } else {
                assert(j[i] == b[i - a.len() + 1]);
            }
        }
    } else {
        assert forall|i: int| 0 <= i < j.len() implies match #[trigger] j[i] {
            Part::RootDir => i == 0,
            Part::CurDir => i == 0,
            Part::ParentDir => true,
            Part::Normal(name) => valid_name(name),
        } by {
            if i < a.len() {
                assert(j[i] == a[i]);
            } else {
                assert(j[i] == b[i - a.len()]);
            }
        }
    }
}

/// A path lies under everything that it was joined to, unless what was
/// joined is absolute.
pub proof fn lemma_joined_has_prefix(a: Seq<Part>, b: Seq<Part>)
    requires
        !is_absolute(b),
    ensures
        has_prefix(joined(a, b), a),
{
    if a.len() == 0 {
        assert(a =~= joined(a, b).subrange(0, 0));
    } else {
        assert(a =~= joined(a, b).subrange(0, a.len() as int));
    }
}

/// What is left after a prefix, joined to the prefix, is the path again:
/// for well-formed paths, taking a prefix away and putting it back are
/// inverse.
pub proof fn lemma_prefix_then_rest(p: Seq<Part>, base: Seq<Part>)
    requires
        well_formed(p),
        has_prefix(p, base),
    ensures
        joined(base, without_prefix(p, base)->0) == p,
        well_formed(without_prefix(p, base)->0),
{
    let rest = p.skip(base.len() as int);
    assert(base =~= p.subrange(0, base.len() as int));
    assert forall|i: int| 0 <= i < rest.len() implies match #[trigger] rest[i] {
        Part::RootDir => i == 0,
        Part::CurDir => i == 0,
        Part::ParentDir => true,
        Part::Normal(name) => valid_name(name),
    } by {
        assert(rest[i] == p[i + base.len()]);
    }
    if base.len() == 0 {
        assert(rest =~= p);
    } else {
        if rest.len() > 0 {
            assert(rest[0] == p[base.len() as int]);
        }
        assert(base + rest =~= p);
    }
}

/// Whether the root occurs in first place only.
pub open spec fn root_only_first(p: Seq<Part>) -> bool {
    forall|i: int| 0 <= i < p.len() && #[trigger] p[i] is RootDir ==> i == 0
}

/// A well-formed path has the root in first place only.
pub proof fn lemma_well_formed_root_only_first(p: Seq<Part>)
    requires
        well_formed(p),
    ensures
        root_only_first(p),
{
}

/// What lies under a path lies under everything that the path lies under.
pub proof fn lemma_prefix_transitive(p: Seq<Part>, middle: Seq<Part>, base: Seq<Part>)
    requires
        has_prefix(p, middle),
        has_prefix(middle, base),
    ensures
        has_prefix(p, base),
{
    assert(base =~= p.subrange(0, base.len() as int)) by {
        assert(middle.subrange(0, base.len() as int) == base);
        assert(p.subrange(0, middle.len() as int) == middle);
        assert forall|k: int| 0 <= k < base.len() implies base[k] == p[k] by {
            assert(middle.subrange(0, base.len() as int)[k] == middle[k]);
            assert(p.subrange(0, middle.len() as int)[k] == p[k]);
        }
    }
}

/// Joining keeps the root in first place, where both paths have it there
/// only.
pub proof fn lemma_joined_root_only_first(a: Seq<Part>, b: Seq<Part>)
    requires
        root_only_first(a),
        root_only_first(b),
    ensures
        root_only_first(joined(a, b)),
{
    let j = joined(a, b);
    if is_absolute(b) || a.len() == 0 {
    } else {
        assert forall|i: int| 0 <= i < j.len() && #[trigger] j[i] is RootDir implies i == 0 by {
            if i < a.len() {
                assert(j[i] == a[i]);
            } else if b.len() > 0 && b[0] is CurDir {
                assert(j[i] == b[i - a.len() + 1]);
            } else {
                assert(j[i] == b[i - a.len()]);
            }
        }
    }
}

// ---------------------------------------------------------------------
// The operations
// ---------------------------------------------------------------------

/// Whether two components are the same.
pub fn component_eq(a: &Component, b: &Component) -> (r: bool)
    ensures
        r == (a@ == b@),
{
    match (a, b) {
        (Component::RootDir, Component::RootDir) => true,
        (Component::CurDir, Component::CurDir) => true,
        (Component::ParentDir, Component::ParentDir) => true,
        (Component::Normal(x), Component::Normal(y)) => bytes_eq(x.as_slice(), y.as_slice()),
        _ => false,
    }
}

/// Copies of the components of `src` from `from` up to `to`, added to the
/// end of `out`.
fn push_range(out: &mut Vec<Component>, src: &Vec<Component>, from: usize, to: usize)
    requires
        from <= to <= src.len(),
    ensures
        parts_of(final(out)@) == parts_of(old(out)@) + parts_of(src@).subrange(
            from as int,
            to as int,
        ),
{
    let mut i: usize = from;
    proof {
        assert(parts_of(out@) =~= parts_of(old(out)@) + parts_of(src@).subrange(
            from as int,
            from as int,
        ));
    }
    while i < to
        invariant
            from <= i <= to <= src.len(),
            parts_of(out@) == parts_of(old(out)@) + parts_of(src@).subrange(
                from as int,
                i as int,
            ),
        decreases to - i,
    {
        let ghost before = out@;
        let c = src[i].clone();
        out.push(c);
        proof {
            assert(parts_of(out@) =~= parts_of(before).push(c@));
            assert(parts_of(src@).subrange(from as int, i + 1) =~= parts_of(src@).subrange(
                from as int,
                i as int,
            ).push(src@[i as int]@));
        }
        i += 1;
    }
}

impl Clone for FsPath {
    fn clone(&self) -> (res: Self)
        ensures
            res@ == self@,
    {
        let mut components: Vec<Component> = Vec::new();
        push_range(&mut components, &self.components, 0, self.components.len());
        proof {
            assert(parts_of(Seq::<Component>::empty()) =~= Seq::<Part>::empty());
            assert(parts_of(components@) =~= self@);
        }
        FsPath { components }
    }
}

impl FsPath {
    /// The empty path.
    pub fn new() -> (r: FsPath)
        ensures
            r@ == Seq::<Part>::empty(),
    {
        let r = FsPath { components: Vec::new() };
        proof {
            assert(r@ =~= Seq::<Part>::empty());
        }
        r
    }

    /// The path that a single name stands for.
    pub fn from_name(name: &[u8]) -> (r: FsPath)
        ensures
            r@ == name_as_path(name@),
    {
        let mut components: Vec<Component> = Vec::new();
        if is_dot_name(name) {
            components.push(Component::CurDir);
        } else if is_dot_dot_name(name) {
            components.push(Component::ParentDir);
        } else {
            let copy = crate::name::copy_range(name, 0, name.len());
            proof {
                assert(copy@ =~= name@);
            }
            components.push(Component::Normal(copy));
        }
        let r = FsPath { components };
        proof {
            assert(r@ =~= name_as_path(name@));
        }
        r
    }

    /// Whether this path has the shape that reading one from text yields.
    pub fn is_well_formed(&self) -> (r: bool)
        ensures
            r == well_formed(self@),
    {
        let n = self.components.len();
        let mut i: usize = 0;
        while i < n
            invariant
                n == self.components.len(),
                i <= n,
                well_formed(self@.take(i as int)),
            decreases n - i,
        {
            let ok = match &self.components[i] {
                Component::RootDir => i == 0,
                Component::CurDir => i == 0,
                Component::ParentDir => true,
                Component::Normal(name) => crate::name::is_valid_name(name.as_slice()),
            };
            if !ok {
                proof {
                    assert(self@[i as int] == self.components@[i as int]@);
                }
                return false;
            }
            proof {
                let next = self@.take(i + 1);
                assert forall|k: int| 0 <= k < next.len() implies match #[trigger] next[k] {
                    Part::RootDir => k == 0,
                    Part::CurDir => k == 0,
                    Part::ParentDir => true,
                    Part::Normal(name) => valid_name(name),
                } by {
                    if k < i {
                        assert(next[k] == self@.take(i as int)[k]);
                    } else {
                        assert(next[k] == self.components@[i as int]@);
                    }
                }
            }
            i += 1;
        }
        proof {
            assert(self@.take(n as int) =~= self@);
        }
        true
    }

    /// Whether two paths are the same, component by component.
    pub fn same_as(&self, other: &FsPath) -> (r: bool)
        ensures
            r == (self@ == other@),
    {
        let n = self.components.len();
        if n != other.components.len() {
            proof {
                assert(self@.len() != other@.len());
            }
            return false;
        }
        let mut i: usize = 0;
        while i < n
            invariant
                n == self.components.len(),
                n == other.components.len(),
                i <= n,
                forall|j: int| 0 <= j < i ==> self@[j] == other@[j],
            decreases n - i,
        {
            if !component_eq(&self.components[i], &other.components[i]) {
                proof {
                    assert(self@[i as int] != other@[i as int]);
                }
                return false;
            }
            i += 1;
        }
        proof {
            assert(self@ =~= other@);
        }
        true
    }

    /// The file name: the last component, where that is a name.
    pub fn file_name(&self) -> (r: Option<&Vec<u8>>)
        ensures
            match r {
                Some(name) => file_name_of(self@) == Some(name@),
                None => file_name_of(self@) is None,
            },
    {
        let n = self.components.len();
        if n == 0 {
            return None;
        }
        match &self.components[n - 1] {
            Component::Normal(name) => Some(name),
            _ => None,
        }
    }

    /// The file name without its final extension.
    pub fn file_stem(&self) -> (r: Option<Vec<u8>>)
        ensures
            opt_name_view(r) == file_stem_of(self@),
    {
        match self.file_name() {
            Some(name) => Some(name_stem(name.as_slice())),
            None => None,
        }
    }

    /// The final extension of the file name, without its dot.
    pub fn extension(&self) -> (r: Option<Vec<u8>>)
        ensures
            opt_name_view(r) == extension_of(self@),
    {
        match self.file_name() {
            Some(name) => name_extension(name.as_slice()),
            None => None,
        }
    }

    /// The path without its last component.
    pub fn parent(&self) -> (r: Option<FsPath>)
        ensures
            opt_path_view(r) == parent_of(self@),
    {
        let n = self.components.len();
        if n == 0 {
            return None;
        }
        match &self.components[n - 1] {
            Component::RootDir => None,
            _ => {
                let mut components: Vec<Component> = Vec::new();
                push_range(&mut components, &self.components, 0, n - 1);
                let r = FsPath { components };
                proof {
                    assert(parts_of(Seq::<Component>::empty()) =~= Seq::<Part>::empty());
                    assert(r@ =~= self@.drop_last());
                }
                Some(r)
            },
        }
    }

    /// The path without its last component, for a path that has one.
    pub(crate) fn without_last(&self) -> (r: FsPath)
        requires
            self@.len() > 0,
        ensures
            r@ == self@.drop_last(),
    {
        let mut components: Vec<Component> = Vec::new();
        push_range(&mut components, &self.components, 0, self.components.len() - 1);
        let r = FsPath { components };
        proof {
            assert(parts_of(Seq::<Component>::empty()) =~= Seq::<Part>::empty());
            assert(r@ =~= self@.drop_last());
        }
        r
    }

    /// Whether this path starts at the root.
    pub fn is_absolute(&self) -> (r: bool)
        ensures
            r == is_absolute(self@),
    {
        if self.components.len() == 0 {
            return false;
        }
        match &self.components[0] {
            Component::RootDir => true,
            _ => false,
        }
    }

    /// `other` taken relative to this path.
    pub fn join(&self, other: &FsPath) -> (r: FsPath)
        ensures
            r@ == joined(self@, other@),
    {
        if other.is_absolute() || self.components.len() == 0 {
            return other.clone();
        }
        let skip: usize = if other.components.len() > 0 {
            match &other.components[0] {
                Component::CurDir => 1,
                _ => 0,
            }
        } else {
            0
        };
        let mut components: Vec<Component> = Vec::new();
        push_range(&mut components, &self.components, 0, self.components.len());
        let ghost first = components@;
        push_range(&mut components, &other.components, skip, other.components.len());
        let r = FsPath { components };
        proof {
            assert(parts_of(Seq::<Component>::empty()) =~= Seq::<Part>::empty());
            assert(parts_of(first) =~= self@);
            assert(other@.subrange(skip as int, other@.len() as int) =~= other@.skip(skip as int));
            assert(other@.skip(0) =~= other@);
        }
        r
    }

    /// Whether this path lies at or under `base`.
    pub fn starts_with(&self, base: &FsPath) -> (r: bool)
        ensures
            r == has_prefix(self@, base@),
    {
        let n = base.components.len();
        if n > self.components.len() {
            return false;
        }
        let mut i: usize = 0;
        while i < n
            invariant
                n == base.components.len(),
                n <= self.components.len(),
                i <= n,
                forall|j: int| 0 <= j < i ==> self@[j] == base@[j],
            decreases n - i,
        {
            if !component_eq(&self.components[i], &base.components[i]) {
                proof {
                    assert(self@[i as int] != base@[i as int]);
                    if has_prefix(self@, base@) {
                        assert(self@.subrange(0, n as int)[i as int] == base@[i as int]);
                    }
                }
                return false;
            }
            i += 1;
        }
        proof {
            assert(self@.subrange(0, n as int) =~= base@);
        }
        true
    }

    /// What is left of this path after `base`.
    pub fn strip_prefix(&self, base: &FsPath) -> (r: Option<FsPath>)
        ensures
            opt_path_view(r) == without_prefix(self@, base@),
    {
        if !self.starts_with(base) {
            return None;
        }
        let mut components: Vec<Component> = Vec::new();
        push_range(
            &mut components,
            &self.components,
            base.components.len(),
            self.components.len(),
        );
        let r = FsPath { components };
        proof {
            assert(parts_of(Seq::<Component>::empty()) =~= Seq::<Part>::empty());
            assert(r@ =~= self@.skip(base@.len() as int));
        }
        Some(r)
    }
}

} // verus!
