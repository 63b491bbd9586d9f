//! File names: stem and extension.
//!
//! A file name divides at its last dot. A dot that opens the name divides
//! nothing (`.profile` has no extension), and neither does a name without
//! a dot. Names are raw bytes, compared byte for byte.

use vstd::prelude::*;

verus! {

/// The byte that separates components in a path written as text (`/`).
pub const SEPARATOR: u8 = 0x2f;

/// The byte that separates a file name's stem from its extension (`.`).
pub const DOT: u8 = 0x2e;

/// The view of an optional name.
pub open spec fn opt_name_view(n: Option<Vec<u8>>) -> Option<Seq<u8>> {
    match n {
        Some(name) => Some(name@),
        None => None,
    }
}

/// The name `.`.
pub open spec fn dot_name() -> Seq<u8> {
    seq![DOT]
}

/// The name `..`.
pub open spec fn dot_dot_name() -> Seq<u8> {
    seq![DOT, DOT]
}

/// A name that a `Normal` component may carry: not empty, free of the
/// separator, and neither `.` nor `..`.
pub open spec fn valid_name(name: Seq<u8>) -> bool {
    &&& name.len() > 0
    &&& !name.contains(SEPARATOR)
    &&& name != dot_name()
    &&& name != dot_dot_name()
}

/// `i` is the place of the last dot of `name`.
pub open spec fn is_last_dot(name: Seq<u8>, i: int) -> bool {
    &&& 0 <= i < name.len()
    &&& name[i] == DOT
    &&& forall|j: int| i < j < name.len() ==> name[j] != DOT
}

/// The place of the last dot of `name`, if it has a dot.
pub open spec fn last_dot(name: Seq<u8>) -> Option<int>
    decreases name.len(),
{
    if name.len() == 0 {
        None
    } else if name.last() == DOT {
        Some(name.len() - 1)
    } else {
        last_dot(name.drop_last())
    }
}

/// Where `name` divides into stem and extension: at its last dot, unless
/// that dot opens the name or the name is `..`.
pub open spec fn split_point(name: Seq<u8>) -> Option<int> {
    match last_dot(name) {
        Some(i) => if i > 0 && name != dot_dot_name() {
            Some(i)
        } else {
            None
        },
        None => None,
    }
}

/// The stem of a file name: the name without its final extension.
pub open spec fn stem_of_name(name: Seq<u8>) -> Seq<u8> {
    match split_point(name) {
        Some(i) => name.take(i),
        None => name,
    }
}

/// The final extension of a file name, without the dot.
pub open spec fn extension_of_name(name: Seq<u8>) -> Option<Seq<u8>> {
    match split_point(name) {
        Some(i) => Some(name.skip(i + 1)),
        None => None,
    }
}

/// `last_dot` finds the last dot, and finds none only where there is none.
pub proof fn lemma_last_dot(name: Seq<u8>)
    ensures
        match last_dot(name) {
            Some(i) => is_last_dot(name, i),
            None => !name.contains(DOT),
        },
    decreases name.len(),
{
    if name.len() == 0 {
    } else if name.last() == DOT {
    } else {
        let front = name.drop_last();
        lemma_last_dot(front);
        match last_dot(front) {
            Some(i) => {
                assert(front[i] == name[i]);
                assert forall|j: int| i < j < name.len() implies name[j] != DOT by {
                    if j < front.len() {
                        assert(front[j] == name[j]);
                    }
                }
            },
            None => {
                assert forall|j: int| 0 <= j < name.len() implies name[j] != DOT by {
                    if j < front.len() {
                        assert(front[j] == name[j]);
                        assert(front.contains(front[j]));
                    }
                }
            },
        }
    }
}

/// The last dot of a name is the only place that `is_last_dot` accepts.
pub proof fn lemma_last_dot_unique(name: Seq<u8>, i: int)
    requires
        is_last_dot(name, i),
    ensures
        last_dot(name) == Some(i),
{
    lemma_last_dot(name);
    match last_dot(name) {
        Some(k) => {
            if k < i {
                assert(name[i] != DOT);
            } else if i < k {
                assert(name[k] != DOT);
            }
        },
        None => {
            assert(name.contains(name[i]));
        },
    }
}

/// Stem, dot and extension make up the name again; a stem is never empty
/// unless the name is, and neither part of a name without a separator
/// holds one.
pub proof fn lemma_stem_and_extension(name: Seq<u8>)
    ensures
        match extension_of_name(name) {
            Some(ext) => name == stem_of_name(name) + seq![DOT] + ext && !ext.contains(DOT),
            None => name == stem_of_name(name),
        },
        name.len() > 0 ==> stem_of_name(name).len() > 0,
        !name.contains(SEPARATOR) ==> !stem_of_name(name).contains(SEPARATOR),
{
    lemma_last_dot(name);
    match split_point(name) {
        Some(i) => {
            let ext = name.skip(i + 1);
            assert(name =~= name.take(i) + seq![DOT] + ext);
            assert forall|j: int| 0 <= j < ext.len() implies ext[j] != DOT by {
                assert(ext[j] == name[i + 1 + j]);
            }
            if !name.contains(SEPARATOR) {
                let stem = name.take(i);
                assert forall|j: int| 0 <= j < stem.len() implies stem[j] != SEPARATOR by {
                    assert(stem[j] == name[j]);
                    assert(name.contains(name[j]));
                }
            }
        },
        None => {},
    }
}

/// The place of the last dot of `name`.
pub fn last_dot_index(name: &[u8]) -> (r: Option<usize>)
    ensures
        match r {
            Some(i) => last_dot(name@) == Some(i as int),
            None => last_dot(name@) is None,
        },
{
    let mut i: usize = name.len();
    while i > 0
        invariant
            i <= name.len(),
            forall|j: int| i <= j < name.len() ==> name@[j] != DOT,
        decreases i,
    {
        i -= 1;
        if name[i] == DOT {
            proof {
                lemma_last_dot_unique(name@, i as int);
            }
            return Some(i);
        }
    }
    proof {
        lemma_last_dot(name@);
        match last_dot(name@) {
            Some(k) => {
                assert(name@[k] != DOT);
            },
            None => {},
        }
    }
    None
}

/// Whether two byte strings are the same.
pub fn bytes_eq(a: &[u8], b: &[u8]) -> (r: bool)
    ensures
        r == (a@ == b@),
{
    if a.len() != b.len() {
        return false;
    }
    let mut i: usize = 0;
    while i < a.len()
        invariant
            a.len() == b.len(),
            i <= a.len(),
            forall|j: int| 0 <= j < i ==> a@[j] == b@[j],
        decreases a.len() - i,
    {
        if a[i] != b[i] {
            return false;
        }
        i += 1;
    }
    proof {
        assert(a@ =~= b@);
    }
    true
}

/// A copy of the bytes of `name` from `from` up to `to`.
pub(crate) fn copy_range(name: &[u8], from: usize, to: usize) -> (r: Vec<u8>)
    requires
        from <= to <= name.len(),
    ensures
        r@ == name@.subrange(from as int, to as int),
{
    let mut out: Vec<u8> = Vec::new();
    let mut i: usize = from;
    while i < to
        invariant
            from <= i <= to <= name.len(),
            out@ == name@.subrange(from as int, i as int),
        decreases to - i,
    {
        out.push(name[i]);
        proof {
            assert(out@ =~= name@.subrange(from as int, i + 1));
        }
        i += 1;
    }
    out
}

/// Whether `name` is `.`.
pub fn is_dot_name(name: &[u8]) -> (r: bool)
    ensures
        r == (name@ == dot_name()),
{
    let r = name.len() == 1 && name[0] == DOT;
    proof {
        if r {
            assert(name@ =~= dot_name());
        }
    }
    r
}

/// Whether `name` is `..`.
pub fn is_dot_dot_name(name: &[u8]) -> (r: bool)
    ensures
        r == (name@ == dot_dot_name()),
{
    let r = name.len() == 2 && name[0] == DOT && name[1] == DOT;
    proof {
        if r {
            assert(name@ =~= dot_dot_name());
        }
    }
    r
}

/// Where `name` divides into stem and extension.
pub fn split_index(name: &[u8]) -> (r: Option<usize>)
    ensures
        match r {
            Some(i) => split_point(name@) == Some(i as int) && 0 < i < name.len(),
            None => split_point(name@) is None,
        },
{
    match last_dot_index(name) {
        Some(i) => {
            proof {
                lemma_last_dot(name@);
            }
            if i > 0 && !is_dot_dot_name(name) {
                Some(i)
            } else {
                None
            }
        },
        None => None,
    }
}

/// The stem of a file name.
pub fn name_stem(name: &[u8]) -> (r: Vec<u8>)
    ensures
        r@ == stem_of_name(name@),
{
    match split_index(name) {
        Some(i) => copy_range(name, 0, i),
        None => {
            let r = copy_range(name, 0, name.len());
            proof {
                assert(r@ =~= name@);
            }
            r
        },
    }
}

/// The final extension of a file name.
pub fn name_extension(name: &[u8]) -> (r: Option<Vec<u8>>)
    ensures
        opt_name_view(r) == extension_of_name(name@),
{
    match split_index(name) {
        Some(i) => Some(copy_range(name, i + 1, name.len())),
        None => None,
    }
}

/// Whether `name` may be the name of a `Normal` component.
pub fn is_valid_name(name: &[u8]) -> (r: bool)
    ensures
        r == valid_name(name@),
{
    if name.len() == 0 || is_dot_name(name) || is_dot_dot_name(name) {
        return false;
    }
    let mut i: usize = 0;
    while i < name.len()
        invariant
            i <= name.len(),
            forall|j: int| 0 <= j < i ==> name@[j] != SEPARATOR,
        decreases name.len() - i,
    {
        if name[i] == SEPARATOR {
            proof {
                assert(name@.contains(name@[i as int]));
            }
            return false;
        }
        i += 1;
    }
    true
}

} // verus!
