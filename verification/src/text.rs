//! Paths written as text.
//!
//! In text, components are separated by `/`. A text that begins with the
//! separator is absolute. Empty segments count for nothing, so neither
//! doubled nor trailing separators matter; a segment `.` counts only
//! where it is the first segment of the text; `..` is the parent
//! directory; any other segment is a name.

use vstd::prelude::*;
use crate::name::{
    copy_range, dot_dot_name, dot_name, is_dot_dot_name, is_dot_name, valid_name, DOT, SEPARATOR,
};
use crate::path::{parts_of, well_formed, Component, FsPath, Part};

verus! {

/// The parts that one segment of a text stands for: none or one. `first`
/// says whether the segment is the first of its text.
pub open spec fn segment_parts(segment: Seq<u8>, first: bool) -> Seq<Part> {
    if segment.len() == 0 {
        Seq::empty()
    } else if segment == dot_name() {
        if first {
            seq![Part::CurDir]
        } else {
            Seq::empty()
        }
    } else if segment == dot_dot_name() {
        seq![Part::ParentDir]
    } else {
        seq![Part::Normal(segment)]
    }
}

/// The parts that the segments of `text` stand for, from the segment
/// that begins at `start` on, read from `at` on. `first` says whether
/// that segment is the first of the text.
pub open spec fn parts_scan(text: Seq<u8>, start: int, at: int, first: bool) -> Seq<Part>
    decreases text.len() - at,
{
    if at >= text.len() {
        segment_parts(text.subrange(start, text.len() as int), first)
    } else if text[at] == SEPARATOR {
        segment_parts(text.subrange(start, at), first) + parts_scan(text, at + 1, at + 1, false)
    } else {
        parts_scan(text, start, at + 1, first)
    }
}

/// Whether a text is absolute: whether it begins with the separator.
pub open spec fn text_is_absolute(text: Seq<u8>) -> bool {
    text.len() > 0 && text[0] == SEPARATOR
}

/// The path that a text stands for.
pub open spec fn parsed(text: Seq<u8>) -> Seq<Part> {
    if text_is_absolute(text) {
        seq![Part::RootDir] + parts_scan(text, 0, 0, true)
    } else {
        parts_scan(text, 0, 0, true)
    }
}

/// What a scan of segments yields is orderly: names are valid, the root
/// does not occur, and `.` occurs only as the first part of the first
/// segment.
pub open spec fn orderly(parts: Seq<Part>, first: bool) -> bool {
    forall|i: int|
        0 <= i < parts.len() ==> match #[trigger] parts[i] {
            Part::RootDir => false,
            Part::CurDir => first && i == 0,
            Part::ParentDir => true,
            Part::Normal(name) => valid_name(name),
        }
}

proof fn lemma_segment_orderly(segment: Seq<u8>, first: bool)
    requires
        !segment.contains(SEPARATOR),
    ensures
        orderly(segment_parts(segment, first), first),
        segment_parts(segment, first).len() <= 1,
{
}

proof fn lemma_scan_orderly(text: Seq<u8>, start: int, at: int, first: bool)
    requires
        0 <= start <= at <= text.len(),
        forall|j: int| start <= j < at ==> text[j] != SEPARATOR,
    ensures
        orderly(parts_scan(text, start, at, first), first),
        first && start < text.len() && text[start] == SEPARATOR && at == start ==> orderly(
            parts_scan(text, start, at, first),
            false,
        ),
    decreases text.len() - at,
{
    if at >= text.len() {
        let segment = text.subrange(start, text.len() as int);
        assert forall|j: int| 0 <= j < segment.len() implies segment[j] != SEPARATOR by {
            assert(segment[j] == text[start + j]);
        }
        lemma_segment_orderly(segment, first);
    } else if text[at] == SEPARATOR {
        let segment = text.subrange(start, at);
        assert forall|j: int| 0 <= j < segment.len() implies segment[j] != SEPARATOR by {
            assert(segment[j] == text[start + j]);
        }
        lemma_segment_orderly(segment, first);
        lemma_scan_orderly(text, at + 1, at + 1, false);
        let here = segment_parts(segment, first);
        let rest = parts_scan(text, at + 1, at + 1, false);
        let all = here + rest;
        assert forall|i: int| 0 <= i < all.len() implies match #[trigger] all[i] {
            Part::RootDir => false,
            Part::CurDir => first && i == 0,
            Part::ParentDir => true,
            Part::Normal(name) => valid_name(name),
        } by {
            if i < here.len() {
                assert(all[i] == here[i]);
            } else {
                assert(all[i] == rest[i - here.len()]);
            }
        }
        if first && at == start {
            assert(segment.len() == 0);
            assert(all =~= rest);
        }
    } else {
        lemma_scan_orderly(text, start, at + 1, first);
    }
}

/// Every text stands for a well-formed path.
pub proof fn lemma_parsed_well_formed(text: Seq<u8>)
    ensures
        well_formed(parsed(text)),
{
    lemma_scan_orderly(text, 0, 0, true);
    let scanned = parts_scan(text, 0, 0, true);
    let p = parsed(text);
    assert forall|i: int| 0 <= i < p.len() implies match #[trigger] p[i] {
        Part::RootDir => i == 0,
        Part::CurDir => i == 0,
        Part::ParentDir => true,
        Part::Normal(name) => valid_name(name),
    } by {
        if text_is_absolute(text) {
            if i > 0 {
                assert(p[i] == scanned[i - 1]);
            }
        } else {
            assert(p[i] == scanned[i]);
        }
    }
}

/// Adds to `out` the parts that the segment `text[start..end]` stands
/// for.
fn push_segment(out: &mut Vec<Component>, text: &[u8], start: usize, end: usize, first: bool)
    requires
        start <= end <= text.len(),
    ensures
        parts_of(final(out)@) == parts_of(old(out)@) + segment_parts(
            text@.subrange(start as int, end as int),
            first,
        ),
{
    let segment = copy_range(text, start, end);
    let ghost before = out@;
    if segment.len() == 0 {
        proof {
            assert(parts_of(out@) =~= parts_of(before) + Seq::<Part>::empty());
        }
    } else if is_dot_name(segment.as_slice()) {
        if first {
            out.push(Component::CurDir);
            proof {
                assert(parts_of(out@) =~= parts_of(before) + seq![Part::CurDir]);
            }
        } else {
            proof {
                assert(parts_of(out@) =~= parts_of(before) + Seq::<Part>::empty());
            }
        }
    } else if is_dot_dot_name(segment.as_slice()) {
        out.push(Component::ParentDir);
        proof {
            assert(parts_of(out@) =~= parts_of(before) + seq![Part::ParentDir]);
        }
    } else {
        let ghost name = segment@;
        out.push(Component::Normal(segment));
        proof {
            assert(parts_of(out@) =~= parts_of(before) + seq![Part::Normal(name)]);
        }
    }
}

/// The path that `text` stands for.
pub fn parse_path(text: &[u8]) -> (r: FsPath)
    ensures
        r@ == parsed(text@),
        well_formed(r@),
{
    let mut components: Vec<Component> = Vec::new();
    if text.len() > 0 && text[0] == SEPARATOR {
        components.push(Component::RootDir);
    }
    let ghost root = parts_of(components@);
    proof {
        assert(root =~= if text_is_absolute(text@) {
            seq![Part::RootDir]
        } else {
            Seq::<Part>::empty()
        });
        assert(root + parts_scan(text@, 0, 0, true) =~= parsed(text@));
    }
    let mut start: usize = 0;
    let mut at: usize = 0;
    let mut first = true;
    while at < text.len()
        invariant
            start <= at <= text.len(),
            parsed(text@) == parts_of(components@) + parts_scan(
                text@,
                start as int,
                at as int,
                first,
            ),
        decreases text.len() - at,
    {
        if text[at] == SEPARATOR {
            let ghost before = parts_of(components@);
            let ghost here = segment_parts(text@.subrange(start as int, at as int), first);
            let ghost rest = parts_scan(text@, at + 1, at + 1, false);
            push_segment(&mut components, text, start, at, first);
            proof {
                assert(before + (here + rest) =~= (before + here) + rest);
            }
            start = at + 1;
            first = false;
        }
        at += 1;
    }
    push_segment(&mut components, text, start, text.len(), first);
    let r = FsPath { components };
    proof {
        lemma_parsed_well_formed(text@);
    }
    r
}

/// The text of one part that is not the root.
pub open spec fn part_text(part: Part) -> Seq<u8> {
    match part {
        Part::RootDir => Seq::empty(),
        Part::CurDir => dot_name(),
        Part::ParentDir => dot_dot_name(),
        Part::Normal(name) => name,
    }
}

/// A path written as text: the root as the separator, the other parts by
/// their names, with a separator between every two parts that are not the
/// root.
pub open spec fn rendered(p: Seq<Part>) -> Seq<u8>
    decreases p.len(),
{
    if p.len() == 0 {
        Seq::empty()
    } else {
        let front = p.drop_last();
        match p.last() {
            Part::RootDir => rendered(front) + seq![SEPARATOR],
            part => if front.len() == 0 || front.last() is RootDir {
                rendered(front) + part_text(part)
            } else {
                rendered(front) + seq![SEPARATOR] + part_text(part)
            },
        }
    }
}

/// From a place after which the text holds no separator, the scan yields
/// the parts of the one segment that reaches to the end of the text.
proof fn lemma_scan_to_end(text: Seq<u8>, start: int, at: int, first: bool)
    requires
        0 <= start <= at <= text.len(),
        forall|j: int| at <= j < text.len() ==> text[j] != SEPARATOR,
    ensures
        parts_scan(text, start, at, first) == segment_parts(
            text.subrange(start, text.len() as int),
            first,
        ),
    decreases text.len() - at,
{
    if at < text.len() {
        lemma_scan_to_end(text, start, at + 1, first);
    }
}

/// A text followed by a separator and one more segment stands for the
/// parts of the text followed by the parts of that segment.
proof fn lemma_scan_append(text: Seq<u8>, start: int, at: int, first: bool, segment: Seq<u8>)
    requires
        0 <= start <= at <= text.len(),
        !segment.contains(SEPARATOR),
    ensures
        parts_scan(text + seq![SEPARATOR] + segment, start, at, first) == parts_scan(
            text,
            start,
            at,
            first,
        ) + segment_parts(segment, false),
    decreases text.len() - at,
{
    let longer = text + seq![SEPARATOR] + segment;
    if at >= text.len() {
        assert(longer[at] == SEPARATOR);
        assert(longer.subrange(start, at) =~= text.subrange(start, text.len() as int));
        assert forall|j: int| at + 1 <= j < longer.len() implies longer[j] != SEPARATOR by {
            assert(longer[j] == segment[j - at - 1]);
            assert(segment.contains(segment[j - at - 1]));
        }
        lemma_scan_to_end(longer, at + 1, at + 1, false);
        assert(longer.subrange(at + 1, longer.len() as int) =~= segment);
    } else {
        assert(longer[at] == text[at]);
        if text[at] == SEPARATOR {
            lemma_scan_append(text, at + 1, at + 1, false, segment);
            assert(longer.subrange(start, at) =~= text.subrange(start, at));
            let here = segment_parts(text.subrange(start, at), first);
            let rest = parts_scan(text, at + 1, at + 1, false);
            assert(here + (rest + segment_parts(segment, false)) =~= (here + rest)
                + segment_parts(segment, false));
        } else {
            lemma_scan_append(text, start, at + 1, first, segment);
        }
    }
}

/// The text of a part that is no root holds no separator, where the part
/// is well formed.
proof fn lemma_part_text_plain(part: Part)
    requires
        match part {
            Part::Normal(name) => valid_name(name),
            _ => true,
        },
    ensures
        !part_text(part).contains(SEPARATOR),
{
    match part {
        Part::CurDir => {
            assert(forall|j: int| 0 <= j < dot_name().len() ==> dot_name()[j] != SEPARATOR);
        },
        Part::ParentDir => {
            assert(forall|j: int|
                0 <= j < dot_dot_name().len() ==> dot_dot_name()[j] != SEPARATOR);
        },
        _ => {},
    }
}

/// A well-formed path that is not empty is written as a text that is not
/// empty, and the text begins with the separator exactly where the path
/// begins at the root.
proof fn lemma_rendered_start(p: Seq<Part>)
    requires
        well_formed(p),
        p.len() > 0,
    ensures
        rendered(p).len() > 0,
        text_is_absolute(rendered(p)) == (p[0] is RootDir),
    decreases p.len(),
{
    let front = p.drop_last();
    let last = p.last();
    assert(last == p[p.len() - 1]);
    lemma_part_text_plain(last);
    let t = part_text(last);
    if !(last is RootDir) {
        assert(t.len() > 0);
        assert(t.contains(t[0]));
    }
    if front.len() == 0 {
        assert(rendered(front) =~= Seq::<u8>::empty());
        if last is RootDir {
            assert(rendered(p) =~= seq![SEPARATOR]);
        } else {
            assert(rendered(p) =~= t);
        }
    } else {
        assert(well_formed(front)) by {
            assert forall|i: int| 0 <= i < front.len() implies match #[trigger] front[i] {
                Part::RootDir => i == 0,
                Part::CurDir => i == 0,
                Part::ParentDir => true,
                Part::Normal(name) => valid_name(name),
            } by {
                assert(front[i] == p[i]);
            }
        }
        lemma_rendered_start(front);
        assert(front[0] == p[0]);
        assert(rendered(p)[0] == rendered(front)[0]);
    }
}

/// Writing a well-formed path as text and reading the text gives the path
/// again.
pub proof fn lemma_render_then_parse(p: Seq<Part>)
    requires
        well_formed(p),
    ensures
        parsed(rendered(p)) == p,
    decreases p.len(),
{
    if p.len() == 0 {
        assert(rendered(p) =~= Seq::<u8>::empty());
        assert(Seq::<u8>::empty().subrange(0, 0) =~= Seq::<u8>::empty());
        assert(parsed(rendered(p)) =~= p);
    } else {
        let front = p.drop_last();
        let last = p.last();
        assert(last == p[p.len() - 1]);
        assert(well_formed(front)) by {
            assert forall|i: int| 0 <= i < front.len() implies match #[trigger] front[i] {
                Part::RootDir => i == 0,
                Part::CurDir => i == 0,
                Part::ParentDir => true,
                Part::Normal(name) => valid_name(name),
            } by {
                assert(front[i] == p[i]);
            }
        }
        lemma_render_then_parse(front);
        lemma_part_text_plain(last);
        let r = rendered(front);
        let t = part_text(last);
        assert(front.push(last) =~= p);
        if front.len() == 0 {
            assert(r =~= Seq::<u8>::empty());
            if last is RootDir {
                let text = seq![SEPARATOR];
                assert(rendered(p) =~= text);
                assert(text.subrange(0, 0) =~= Seq::<u8>::empty());
                lemma_scan_to_end(text, 1, 1, false);
                assert(text.subrange(1, 1) =~= Seq::<u8>::empty());
                assert(parsed(text) =~= seq![Part::RootDir]);
            } else {
                assert(rendered(p) =~= t);
                assert(t.len() > 0);
                assert(t.contains(t[0]));
                assert forall|j: int| 0 <= j < t.len() implies t[j] != SEPARATOR by {
                    assert(t.contains(t[j]));
                }
                lemma_scan_to_end(t, 0, 0, true);
                assert(t.subrange(0, t.len() as int) =~= t);
                assert(segment_parts(t, true) =~= seq![last]);
            }
        } else if front.last() is RootDir {
            assert(front.len() == 1) by {
                assert(front[front.len() - 1] == p[front.len() - 1]);
            }
            assert(!(last is RootDir) && !(last is CurDir));
            assert(front =~= seq![Part::RootDir]);
            assert(r =~= seq![SEPARATOR]) by {
                assert(front.drop_last() =~= Seq::<Part>::empty());
                assert(rendered(front.drop_last()) =~= Seq::<u8>::empty());
            }
            let text = r + t;
            assert(rendered(p) == text);
            assert(text[0] == SEPARATOR);
            assert(text.subrange(0, 0) =~= Seq::<u8>::empty());
            assert forall|j: int| 1 <= j < text.len() implies text[j] != SEPARATOR by {
                assert(text[j] == t[j - 1]);
                assert(t.contains(t[j - 1]));
            }
            lemma_scan_to_end(text, 1, 1, false);
            assert(text.subrange(1, text.len() as int) =~= t);
            assert(segment_parts(t, false) =~= seq![last]);
            assert(parsed(text) =~= p);
        } else {
            assert(!(last is RootDir) && !(last is CurDir));
            let text = r + seq![SEPARATOR] + t;
            assert(rendered(p) == text);
            lemma_rendered_start(front);
            assert(text[0] == r[0]);
            lemma_scan_append(r, 0, 0, true, t);
            assert(segment_parts(t, false) =~= seq![last]);
            if text_is_absolute(r) {
                assert(seq![Part::RootDir] + (parts_scan(r, 0, 0, true) + seq![last]) =~= (
                    seq![Part::RootDir] + parts_scan(r, 0, 0, true)) + seq![last]);
            }
            assert(parsed(text) =~= parsed(r) + seq![last]);
            assert(parsed(r) + seq![last] =~= p);
        }
    }
}

/// Adds the bytes of `bytes` to the end of `out`.
fn push_bytes(out: &mut Vec<u8>, bytes: &[u8])
    ensures
        final(out)@ == old(out)@ + bytes@,
{
    let mut i: usize = 0;
    proof {
        assert(out@ =~= old(out)@ + bytes@.take(0));
    }
    while i < bytes.len()
        invariant
            i <= bytes.len(),
            out@ == old(out)@ + bytes@.take(i as int),
        decreases bytes.len() - i,
    {
        out.push(bytes[i]);
        proof {
            assert(out@ =~= old(out)@ + bytes@.take(i + 1));
        }
        i += 1;
    }
    proof {
        assert(bytes@.take(bytes.len() as int) =~= bytes@);
    }
}

/// The path written as text.
pub fn render_path(path: &FsPath) -> (r: Vec<u8>)
    ensures
        r@ == rendered(path@),
        well_formed(path@) ==> parsed(r@) == path@,
{
    proof {
        if well_formed(path@) {
            lemma_render_then_parse(path@);
        }
    }
    let mut out: Vec<u8> = Vec::new();
    let n = path.components.len();
    let mut i: usize = 0;
    let mut after_root = false;
    proof {
        assert(path@.take(0) =~= Seq::<Part>::empty());
    }
    while i < n
        invariant
            n == path.components.len(),
            i <= n,
            out@ == rendered(path@.take(i as int)),
            after_root == (i > 0 && path@[i - 1] is RootDir),
        decreases n - i,
    {
        let ghost front = path@.take(i as int);
        let ghost next = path@.take(i + 1);
        proof {
            assert(next.drop_last() =~= front);
            assert(next.last() == path@[i as int]);
            assert(path@[i as int] == path.components@[i as int]@);
            if i > 0 {
                assert(front.last() == path@[i - 1]);
            }
        }
        match &path.components[i] {
            Component::RootDir => {
                out.push(SEPARATOR);
                proof {
                    assert(out@ =~= rendered(front) + seq![SEPARATOR]);
                }
                after_root = true;
            },
            other => {
                if i > 0 && !after_root {
                    out.push(SEPARATOR);
                    proof {
                        assert(out@ =~= rendered(front) + seq![SEPARATOR]);
                    }
                }
                match other {
                    Component::CurDir => {
                        out.push(DOT);
                        proof {
                            assert(seq![DOT] =~= dot_name());
                            if i > 0 && !after_root {
                                assert(out@ =~= rendered(front) + seq![SEPARATOR] + dot_name());
                            } else {
                                assert(out@ =~= rendered(front) + dot_name());
                            }
                        }
                    },
                    Component::ParentDir => {
                        out.push(DOT);
                        out.push(DOT);
                        proof {
                            assert(seq![DOT, DOT] =~= dot_dot_name());
                            if i > 0 && !after_root {
                                assert(out@ =~= rendered(front) + seq![SEPARATOR]
                                    + dot_dot_name());
                            } else {
                                assert(out@ =~= rendered(front) + dot_dot_name());
                            }
                        }
                    },
                    Component::Normal(name) => {
                        push_bytes(&mut out, name.as_slice());
                    },
                    Component::RootDir => {},
                }
                after_root = false;
            },
        }
        i += 1;
    }
    proof {
        assert(path@.take(n as int) =~= path@);
    }
    out
}

} // verus!
