//! What can go wrong, and what each failure carries.
//!
//! Every failure names the path it is about, and a decoder's failure keeps
//! the decoder's own message, so that a reader can tell which file and
//! which decoder failed.

use vstd::prelude::*;
use crate::path::{FsPath, Part};

verus! {

/// The failure of one decoder on one archive.
#[derive(Debug, PartialEq, Eq)]
pub enum RZipProcessingError {
    /// The general multi-format decoder failed; its message.
    CompressTools(String),
    /// The 7z decoder failed; its message.
    SevenZ(String),
    /// Reading or writing a file failed; the message.
    Io(String),
}

/// The mathematical counterpart of an [`RZipProcessingError`].
pub enum ProcessingErrorView {
    CompressTools(Seq<char>),
    SevenZ(Seq<char>),
    Io(Seq<char>),
}

impl View for RZipProcessingError {
    type V = ProcessingErrorView;

    open spec fn view(&self) -> ProcessingErrorView {
        match self {
            RZipProcessingError::CompressTools(m) => ProcessingErrorView::CompressTools(m@),
            RZipProcessingError::SevenZ(m) => ProcessingErrorView::SevenZ(m@),
            RZipProcessingError::Io(m) => ProcessingErrorView::Io(m@),
        }
    }
}

impl Clone for RZipProcessingError {
    fn clone(&self) -> (res: Self)
        ensures
            res@ == self@,
    {
        match self {
            RZipProcessingError::CompressTools(m) => RZipProcessingError::CompressTools(m.clone()),
            RZipProcessingError::SevenZ(m) => RZipProcessingError::SevenZ(m.clone()),
            RZipProcessingError::Io(m) => RZipProcessingError::Io(m.clone()),
        }
    }
}

/// The views of a list of decoder failures.
pub open spec fn failures_view(errors: Seq<RZipProcessingError>) -> Seq<ProcessingErrorView> {
    Seq::new(errors.len(), |i: int| errors[i]@)
}

/// A copy of a list of decoder failures.
pub fn clone_failures(errors: &Vec<RZipProcessingError>) -> (r: Vec<RZipProcessingError>)
    ensures
        failures_view(r@) == failures_view(errors@),
{
    let mut out: Vec<RZipProcessingError> = Vec::new();
    let mut i: usize = 0;
    while i < errors.len()
        invariant
            i <= errors.len(),
            out.len() == i,
            forall|j: int| 0 <= j < i ==> out@[j]@ == errors@[j]@,
        decreases errors.len() - i,
    {
        out.push(errors[i].clone());
        i += 1;
    }
    proof {
        assert(failures_view(out@) =~= failures_view(errors@));
    }
    out
}

/// Why no output directory can be derived for an archive.
#[derive(Debug, Clone, Copy, PartialEq, Eq)]
pub enum PathError {
    /// The path has no file name to take a stem from.
    NoStem,
    /// An output root is set, and the path lies neither under the target
    /// nor under the output root.
    NotUnderRoot,
}

/// A failure of the extraction engine.
#[derive(Debug, PartialEq, Eq)]
pub enum RZipError {
    /// Every decoder that was tried on an archive failed; the failures, in
    /// the order of the attempts.
    ProcessingErrors(Vec<RZipProcessingError>),
    /// A directory could not be read; the message.
    Io(String),
    /// No output directory can be derived for the path.
    Path(PathError, FsPath),
    /// The path's extension is missing or no decoder list knows it.
    UnsupportedArchive(FsPath),
    /// The archive at this path lies deeper inside other archives than the
    /// run allows.
    NestingTooDeep(FsPath),
}

/// The mathematical counterpart of an [`RZipError`].
pub enum RZipErrorView {
    ProcessingErrors(Seq<ProcessingErrorView>),
    Io(Seq<char>),
    Path(PathError, Seq<Part>),
    UnsupportedArchive(Seq<Part>),
    NestingTooDeep(Seq<Part>),
}

impl View for RZipError {
    type V = RZipErrorView;

    open spec fn view(&self) -> RZipErrorView {
        match self {
            RZipError::ProcessingErrors(errors) => RZipErrorView::ProcessingErrors(
                failures_view(errors@),
            ),
            RZipError::Io(m) => RZipErrorView::Io(m@),
            RZipError::Path(kind, path) => RZipErrorView::Path(*kind, path@),
            RZipError::UnsupportedArchive(path) => RZipErrorView::UnsupportedArchive(path@),
            RZipError::NestingTooDeep(path) => RZipErrorView::NestingTooDeep(path@),
        }
    }
}

impl Clone for RZipError {
    fn clone(&self) -> (res: Self)
        ensures
            res@ == self@,
    {
        match self {
            RZipError::ProcessingErrors(errors) => RZipError::ProcessingErrors(
                clone_failures(errors),
            ),
            RZipError::Io(m) => RZipError::Io(m.clone()),
            RZipError::Path(kind, path) => RZipError::Path(*kind, path.clone()),
            RZipError::UnsupportedArchive(path) => RZipError::UnsupportedArchive(path.clone()),
            RZipError::NestingTooDeep(path) => RZipError::NestingTooDeep(path.clone()),
        }
    }
}

/// The view of an optional failure.
pub open spec fn opt_error_view(e: Option<RZipError>) -> Option<RZipErrorView> {
    match e {
        Some(err) => Some(err@),
        None => None,
    }
}

} // verus!
