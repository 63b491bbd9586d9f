//! Which decoders are tried on an archive, and in what order.
//!
//! Each extension has an ordered list of decoders, its stages. The general
//! multi-format decoder comes first; where it is known to handle a format
//! imperfectly, a decoder made for that format follows. The stages are
//! tried in order on the same archive and the same output directory. The
//! first success ends the attempt; a failure is recorded and the next
//! stage is tried; when none is left the attempt has failed, and the
//! failures are reported in the order in which they happened.
//!
//! The dispatcher decides and remembers; it decodes nothing. Its caller
//! runs the stage that [`UnpackDispatcher::next`] names and hands the
//! result to [`UnpackDispatcher::record`].

use vstd::prelude::*;
use crate::classify::{
    archive_extensions, ext_7z, ext_gz, ext_rar, ext_tar, ext_tgz, ext_xz, ext_zip, is_pair,
    is_triple,
};
use crate::error::{
    clone_failures, failures_view, ProcessingErrorView, RZipError, RZipErrorView,
    RZipProcessingError,
};
use crate::path::{extension_of, FsPath, Part};

verus! {

/// A decoder that can be tried on an archive.
#[derive(Debug, Clone, Copy, PartialEq, Eq, Structural)]
pub enum UnpackStage {
    /// The general multi-format decoder.
    CompressTools,
    /// The decoder for 7z archives.
    SevenZ,
    /// The decoder for gzip-compressed tar archives.
    Flate2,
    /// The decoder for tar archives.
    Tar,
}

/// The stages for an extension, in the order in which they are tried;
/// nothing for an extension that no list knows.
///
/// `gz` and its short form `tgz` share one list, which ends in the decoder
/// for gzip-compressed tar archives.
pub open spec fn stages_for(ext: Seq<u8>) -> Option<Seq<UnpackStage>> {
    if ext == ext_zip() {
        Some(seq![UnpackStage::CompressTools])
    } else if ext == ext_7z() {
        Some(seq![UnpackStage::CompressTools, UnpackStage::SevenZ])
    } else if ext == ext_gz() || ext == ext_tgz() {
        Some(seq![UnpackStage::CompressTools, UnpackStage::Flate2])
    } else if ext == ext_xz() {
        Some(seq![UnpackStage::CompressTools])
    } else if ext == ext_tar() {
        Some(seq![UnpackStage::CompressTools, UnpackStage::Tar])
    } else if ext == ext_rar() {
        Some(seq![UnpackStage::CompressTools])
    } else {
        None
    }
}

/// The stages for a path, by the final extension of its file name.
pub open spec fn stages_of_path(path: Seq<Part>) -> Option<Seq<UnpackStage>> {
    match extension_of(path) {
        Some(ext) => stages_for(ext),
        None => None,
    }
}

/// Every archive extension has stages, and the general decoder is the
/// first of them.
pub proof fn lemma_archives_have_stages(ext: Seq<u8>)
    requires
        archive_extensions().contains(ext),
    ensures
        stages_for(ext) is Some,
        stages_for(ext)->0.len() > 0,
        stages_for(ext)->0[0] == UnpackStage::CompressTools,
{
    let table = archive_extensions();
    let i = choose|i: int| 0 <= i < table.len() && table[i] == ext;
    assert(table.len() == 6);
    if i == 0 {
    } else if i == 1 {
    } else if i == 2 {
    } else if i == 3 {
    } else if i == 4 {
    } else {
        assert(i == 5);
    }
}

/// The stages for an extension, in the order in which they are tried.
pub fn unpack_stages(ext: &[u8]) -> (r: Option<Vec<UnpackStage>>)
    ensures
        match stages_for(ext@) {
            Some(stages) => r matches Some(v) && v@ == stages,
            None => r is None,
        },
{
    let mut stages: Vec<UnpackStage> = Vec::new();
    if is_triple(ext, 0x7a, 0x69, 0x70) {
        stages.push(UnpackStage::CompressTools);
    } else if is_pair(ext, 0x37, 0x7a) {
        stages.push(UnpackStage::CompressTools);
        stages.push(UnpackStage::SevenZ);
    } else if is_pair(ext, 0x67, 0x7a) || is_triple(ext, 0x74, 0x67, 0x7a) {
        stages.push(UnpackStage::CompressTools);
        stages.push(UnpackStage::Flate2);
    } else if is_pair(ext, 0x78, 0x7a) {
        stages.push(UnpackStage::CompressTools);
    } else if is_triple(ext, 0x74, 0x61, 0x72) {
        stages.push(UnpackStage::CompressTools);
        stages.push(UnpackStage::Tar);
    } else if is_triple(ext, 0x72, 0x61, 0x72) {
        stages.push(UnpackStage::CompressTools);
    } else {
        return None;
    }
    proof {
        assert(stages@ =~= stages_for(ext@)->0);
    }
    Some(stages)
}

/// The state of one attempt to unpack one archive.
#[derive(Debug, PartialEq, Eq)]
pub struct UnpackDispatcher {
    /// The archive.
    pub archive: FsPath,
    /// The directory that every stage writes to.
    pub out_dir: FsPath,
    /// The stages, in the order in which they are tried.
    pub stages: Vec<UnpackStage>,
    /// The failures so far, one for each stage that was tried and failed.
    pub errors: Vec<RZipProcessingError>,
    /// Whether a stage has succeeded.
    pub succeeded: bool,
}

/// The mathematical counterpart of an [`UnpackDispatcher`].
pub struct DispatchView {
    pub archive: Seq<Part>,
    pub out_dir: Seq<Part>,
    pub stages: Seq<UnpackStage>,
    pub errors: Seq<ProcessingErrorView>,
    pub succeeded: bool,
}

impl View for UnpackDispatcher {
    type V = DispatchView;

    open spec fn view(&self) -> DispatchView {
        DispatchView {
            archive: self.archive@,
            out_dir: self.out_dir@,
            stages: self.stages@,
            errors: failures_view(self.errors@),
            succeeded: self.succeeded,
        }
    }
}

/// What the caller of a dispatcher does next.
#[derive(Debug, Clone, Copy, PartialEq, Eq, Structural)]
pub enum UnpackStep {
    /// Run this stage on the archive and the output directory, and record
    /// its result.
    Run(UnpackStage),
    /// A stage has succeeded: the archive is unpacked.
    Succeeded,
    /// Every stage has failed.
    Failed,
}

/// The view of a stage's result.
pub open spec fn stage_result_view(result: Result<(), RZipProcessingError>) -> Result<
    (),
    ProcessingErrorView,
> {
    match result {
        Ok(_) => Ok(()),
        Err(e) => Err(e@),
    }
}

/// A fresh attempt with the given stages: nothing tried, nothing failed.
pub open spec fn dispatch_new(
    archive: Seq<Part>,
    out_dir: Seq<Part>,
    stages: Seq<UnpackStage>,
) -> DispatchView {
    DispatchView { archive, out_dir, stages, errors: Seq::empty(), succeeded: false }
}

/// The attempt that unpacking `archive` into `out_dir` starts with, or the
/// failure where the archive's extension is missing or unknown.
pub open spec fn dispatch_start(archive: Seq<Part>, out_dir: Seq<Part>) -> Result<
    DispatchView,
    RZipErrorView,
> {
    match stages_of_path(archive) {
        Some(stages) => Ok(dispatch_new(archive, out_dir, stages)),
        None => Err(RZipErrorView::UnsupportedArchive(archive)),
    }
}

/// What is to be done in a state: nothing more once a stage has
/// succeeded; else the first stage that has not been tried; and where
/// none is left, the attempt has failed. An empty list of stages is a
/// failure from the start.
pub open spec fn dispatch_next(s: DispatchView) -> UnpackStep {
    if s.succeeded {
        UnpackStep::Succeeded
    } else if s.errors.len() < s.stages.len() {
        UnpackStep::Run(s.stages[s.errors.len() as int])
    } else {
        UnpackStep::Failed
    }
}

/// The state after the stage that was due has returned `result`. A
/// success ends the attempt; a failure is added to the failures. Once the
/// attempt has ended, a result changes nothing.
pub open spec fn dispatch_record(
    s: DispatchView,
    result: Result<(), ProcessingErrorView>,
) -> DispatchView {
    match dispatch_next(s) {
        UnpackStep::Run(_) => match result {
            Ok(_) => DispatchView { succeeded: true, ..s },
            Err(e) => DispatchView { errors: s.errors.push(e), ..s },
        },
        _ => s,
    }
}

/// The state after a run of results, each handed over in turn.
pub open spec fn dispatch_run(
    s: DispatchView,
    results: Seq<Result<(), ProcessingErrorView>>,
) -> DispatchView
    decreases results.len(),
{
    if results.len() == 0 {
        s
    } else {
        dispatch_record(dispatch_run(s, results.drop_last()), results.last())
    }
}

/// How an attempt has ended, if it has: with success, or with the
/// failures of all its stages, in the order of the attempts.
pub open spec fn dispatch_result(s: DispatchView) -> Option<Result<(), RZipErrorView>> {
    match dispatch_next(s) {
        UnpackStep::Run(_) => None,
        UnpackStep::Succeeded => Some(Ok(())),
        UnpackStep::Failed => Some(Err(RZipErrorView::ProcessingErrors(s.errors))),
    }
}

/// A state that an attempt can be in: no more failures than stages, and
/// after a success at least one stage that did not fail.
pub open spec fn dispatch_consistent(s: DispatchView) -> bool {
    &&& s.errors.len() <= s.stages.len()
    &&& s.succeeded ==> s.errors.len() < s.stages.len()
}

/// The results of stages that all failed, with the given failures.
pub open spec fn all_failed(errors: Seq<ProcessingErrorView>) -> Seq<
    Result<(), ProcessingErrorView>,
> {
    Seq::new(errors.len(), |i: int| Err(errors[i]))
}

/// A fresh attempt whose first stages fail, as many as there are
/// failures and no more than there are stages, has recorded exactly those
/// failures, in their order, and has not succeeded.
pub proof fn lemma_failures_accumulate(
    archive: Seq<Part>,
    out_dir: Seq<Part>,
    stages: Seq<UnpackStage>,
    errors: Seq<ProcessingErrorView>,
)
    requires
        errors.len() <= stages.len(),
    ensures
        dispatch_run(dispatch_new(archive, out_dir, stages), all_failed(errors)) == (DispatchView {
            errors,
            ..dispatch_new(archive, out_dir, stages)
        }),
    decreases errors.len(),
{
    let start = dispatch_new(archive, out_dir, stages);
    if errors.len() == 0 {
        assert(errors =~= Seq::<ProcessingErrorView>::empty());
    } else {
        let front = errors.drop_last();
        lemma_failures_accumulate(archive, out_dir, stages, front);
        assert(all_failed(errors).drop_last() =~= all_failed(front));
        assert(all_failed(errors).last() == Err::<(), ProcessingErrorView>(errors.last()));
        assert(front.push(errors.last()) =~= errors);
    }
}

/// Where every stage fails, the attempt fails, and reports the failure of
/// each stage in the order of the attempts.
pub proof fn lemma_all_stages_fail(
    archive: Seq<Part>,
    out_dir: Seq<Part>,
    stages: Seq<UnpackStage>,
    errors: Seq<ProcessingErrorView>,
)
    requires
        errors.len() == stages.len(),
    ensures
        dispatch_result(dispatch_run(dispatch_new(archive, out_dir, stages), all_failed(errors)))
            == Some(Err::<(), RZipErrorView>(RZipErrorView::ProcessingErrors(errors))),
{
    lemma_failures_accumulate(archive, out_dir, stages, errors);
}

/// Where the stages fail up to one that succeeds, the attempt succeeds:
/// the failures before the success are kept as diagnostics and do not
/// show in the result. That stage was the one due, and after it no stage
/// is due any more.
pub proof fn lemma_first_success_wins(
    archive: Seq<Part>,
    out_dir: Seq<Part>,
    stages: Seq<UnpackStage>,
    errors: Seq<ProcessingErrorView>,
)
    requires
        errors.len() < stages.len(),
    ensures
        ({
            let before = dispatch_run(dispatch_new(archive, out_dir, stages), all_failed(errors));
            let after = dispatch_run(
                dispatch_new(archive, out_dir, stages),
                all_failed(errors).push(Ok(())),
            );
            &&& dispatch_next(before) == UnpackStep::Run(stages[errors.len() as int])
            &&& dispatch_result(after) == Some(Ok::<(), RZipErrorView>(()))
            &&& dispatch_next(after) == UnpackStep::Succeeded
            &&& after.errors == errors
        }),
{
    lemma_failures_accumulate(archive, out_dir, stages, errors);
    let results = all_failed(errors).push(Ok(()));
    assert(results.drop_last() =~= all_failed(errors));
}

/// Fallback: where the stage that is due fails and another follows it,
/// that one is due next; and where it succeeds, the attempt has succeeded,
/// with the first failure kept among the failures.
pub proof fn lemma_fallback(s: DispatchView, e: ProcessingErrorView)
    requires
        !s.succeeded,
        s.errors.len() + 1 < s.stages.len(),
    ensures
        ({
            let failed_once = dispatch_record(s, Err(e));
            let then_ok = dispatch_record(failed_once, Ok(()));
            &&& dispatch_next(s) == UnpackStep::Run(s.stages[s.errors.len() as int])
            &&& dispatch_next(failed_once) == UnpackStep::Run(s.stages[s.errors.len() as int + 1])
            &&& dispatch_result(then_ok) == Some(Ok::<(), RZipErrorView>(()))
            &&& then_ok.errors == s.errors.push(e)
        }),
{
}

/// Once an attempt has ended, no stage is due and no result changes it:
/// after a success no further stage is ever tried.
pub proof fn lemma_ended_is_final(s: DispatchView, result: Result<(), ProcessingErrorView>)
    requires
        dispatch_result(s) is Some,
    ensures
        !(dispatch_next(s) is Run),
        dispatch_record(s, result) == s,
{
}

/// Begins the attempt to unpack `path` into `out_path`.
///
/// Fails at once with `UnsupportedArchive`, carrying the path, exactly
/// where the path has no extension or no list of stages knows it.
pub fn unpack_file(path: &FsPath, out_path: &FsPath) -> (r: Result<UnpackDispatcher, RZipError>)
    ensures
        match dispatch_start(path@, out_path@) {
            Ok(s) => r matches Ok(d) && d@ == s,
            Err(e) => r matches Err(x) && x@ == e,
        },
        r matches Ok(d) ==> dispatch_consistent(d@),
{
    let stages = match path.extension() {
        Some(ext) => unpack_stages(ext.as_slice()),
        None => None,
    };
    match stages {
        Some(stages) => Ok(UnpackDispatcher::with_stages(path, out_path, stages)),
        None => Err(RZipError::UnsupportedArchive(path.clone())),
    }
}

impl UnpackDispatcher {
    /// A fresh attempt to unpack `archive` into `out_dir` with the given
    /// stages.
    pub fn with_stages(archive: &FsPath, out_dir: &FsPath, stages: Vec<UnpackStage>) -> (r:
        UnpackDispatcher)
        ensures
            r@ == dispatch_new(archive@, out_dir@, stages@),
            dispatch_consistent(r@),
    {
        let r = UnpackDispatcher {
            archive: archive.clone(),
            out_dir: out_dir.clone(),
            stages,
            errors: Vec::new(),
            succeeded: false,
        };
        proof {
            assert(failures_view(r.errors@) =~= Seq::<ProcessingErrorView>::empty());
        }
        r
    }

    /// What the caller does next.
    pub fn next(&self) -> (step: UnpackStep)
        ensures
            step == dispatch_next(self@),
    {
        if self.succeeded {
            UnpackStep::Succeeded
        } else if self.errors.len() < self.stages.len() {
            UnpackStep::Run(self.stages[self.errors.len()])
        } else {
            UnpackStep::Failed
        }
    }

    /// Takes the result of the stage that was due.
    ///
    /// Archive, output directory and stages stay as they are: every stage
    /// is tried on the same pair.
    pub fn record(&mut self, result: Result<(), RZipProcessingError>)
        ensures
            final(self)@ == dispatch_record(old(self)@, stage_result_view(result)),
            final(self)@.archive == old(self)@.archive,
            final(self)@.out_dir == old(self)@.out_dir,
            final(self)@.stages == old(self)@.stages,
            dispatch_consistent(old(self)@) ==> dispatch_consistent(final(self)@),
    {
        match self.next() {
            UnpackStep::Run(_) => match result {
                Ok(_) => {
                    self.succeeded = true;
                },
                Err(e) => {
                    let ghost before = self.errors@;
                    self.errors.push(e);
                    proof {
                        assert(failures_view(self.errors@) =~= failures_view(before).push(e@));
                    }
                },
            },
            _ => {},
        }
    }

    /// How the attempt has ended, if it has.
    pub fn result(&self) -> (r: Option<Result<(), RZipError>>)
        ensures
            match dispatch_result(self@) {
                None => r is None,
                Some(Ok(_)) => r == Some(Ok::<(), RZipError>(())),
                Some(Err(e)) => r matches Some(Err(x)) && x@ == e,
            },
    {
        match self.next() {
            UnpackStep::Run(_) => None,
            UnpackStep::Succeeded => Some(Ok(())),
            UnpackStep::Failed => Some(
                Err(RZipError::ProcessingErrors(clone_failures(&self.errors))),
            ),
        }
    }

    /// The failures of the stages tried so far, in the order of the
    /// attempts. After a success they are all that tells of the stages
    /// that failed before it.
    pub fn diagnostics(&self) -> (r: Vec<RZipProcessingError>)
        ensures
            failures_view(r@) == self@.errors,
    {
        clone_failures(&self.errors)
    }
}

} // verus!
