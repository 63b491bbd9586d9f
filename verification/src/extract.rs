//! Unpacking an archive and every archive inside it.
//!
//! One archive is in hand at a time. Its stages are tried until one
//! succeeds; then its output directory is scanned, and the archives found
//! there are taken in hand one after another, each with the output
//! directory that the settings give it, before anything that was waiting
//! already. So an archive is unpacked together with all that it holds
//! before the archive that was listed after it is begun. The first
//! failure ends the run: what has been written stays, nothing more is
//! tried.
//!
//! Archives may hold archives only so deep. The run starts with a number
//! of levels that may lie under its first archive; an archive found
//! deeper than that ends the run with a failure. This is what stops an
//! archive that unpacks a copy of itself.
//!
//! The engine decides and remembers; it touches no file. Its caller does
//! what [`Extraction::next_action`] asks and hands what came of it to
//! [`Extraction::step`].

use vstd::prelude::*;
use crate::error::{ProcessingErrorView, RZipError, RZipErrorView, RZipProcessingError};
use crate::classify::is_archive;
use crate::path::{has_prefix, paths_view, root_only_first, FsPath, Part};
use crate::resolve::{
    anchored, get_out_path_for_archive, lemma_extension_gives_stem, lemma_out_path_anchored,
    lemma_out_path_cases,
    out_dir_root_only_first, out_path_of, ConfigView, RZipExtractConfig,
};
use crate::scan::{
    all_archives_under, all_root_only_first, get_archives_in_dir, lemma_scan_finds_archives,
    lemma_scan_from_root_only_first, scan, DirEntry,
};
use crate::unpack::{
    dispatch_new, dispatch_next, dispatch_record, dispatch_result, lemma_archives_have_stages,
    stage_result_view, stages_of_path, unpack_file, DispatchView, UnpackDispatcher, UnpackStage,
    UnpackStep,
};

verus! {

/// How many levels of archives inside archives a run allows under its
/// first archive, unless it is started with another number.
pub const MAX_NESTING_DEPTH: usize = 64;

/// An archive that was found and is not yet begun.
#[derive(Debug, PartialEq, Eq)]
pub struct PendingArchive {
    /// The archive.
    pub path: FsPath,
    /// How many levels of archives may lie under it.
    pub depth_left: usize,
}

/// The mathematical counterpart of a [`PendingArchive`].
pub struct PendingView {
    pub path: Seq<Part>,
    pub depth_left: nat,
}

impl View for PendingArchive {
    type V = PendingView;

    open spec fn view(&self) -> PendingView {
        PendingView { path: self.path@, depth_left: self.depth_left as nat }
    }
}

/// The views of a list of pending archives.
pub open spec fn pending_view(pending: Seq<PendingArchive>) -> Seq<PendingView> {
    Seq::new(pending.len(), |i: int| pending[i]@)
}

/// The state of one run.
#[derive(Debug, PartialEq, Eq)]
pub struct Extraction {
    /// The settings of the run. No step changes them.
    pub config: RZipExtractConfig,
    /// The archive in hand, with the state of unpacking it.
    pub job: UnpackDispatcher,
    /// How many levels of archives may lie under the archive in hand.
    pub depth_left: usize,
    /// The archives found and not yet begun; the next one first.
    pub pending: Vec<PendingArchive>,
    /// How the run has ended, where it has ended for another reason than
    /// the failure of every stage of the archive in hand.
    pub halted: Option<Result<(), RZipError>>,
}

/// The mathematical counterpart of an [`Extraction`].
pub struct ExtractionView {
    pub config: ConfigView,
    pub job: DispatchView,
    pub depth_left: nat,
    pub pending: Seq<PendingView>,
    pub halted: Option<Result<(), RZipErrorView>>,
}

/// The view of the way a run was halted.
pub open spec fn halted_view(halted: Option<Result<(), RZipError>>) -> Option<
    Result<(), RZipErrorView>,
> {
    match halted {
        None => None,
        Some(Ok(_)) => Some(Ok(())),
        Some(Err(e)) => Some(Err(e@)),
    }
}

impl View for Extraction {
    type V = ExtractionView;

    open spec fn view(&self) -> ExtractionView {
        ExtractionView {
            config: self.config@,
            job: self.job@,
            depth_left: self.depth_left as nat,
            pending: pending_view(self.pending@),
            halted: halted_view(self.halted),
        }
    }
}

/// Where a run stands. Between a scan and the first stage of the next
/// archive a run never rests: the step that takes the listing takes the
/// next archive in hand as well.
#[derive(Debug, Clone, Copy, PartialEq, Eq, Structural)]
pub enum ExtractStatus {
    /// A stage is due on the archive in hand.
    Unpacking,
    /// The archive in hand is unpacked; its output directory is to be
    /// scanned for the archives that it held.
    Rescanning,
    /// Every archive is unpacked.
    Done,
    /// The run has failed.
    Failed,
}

/// What came of the action that the engine asked for.
#[derive(Debug, PartialEq, Eq)]
pub enum ExtractEvent {
    /// The stage that was due has returned.
    StageFinished(Result<(), RZipProcessingError>),
    /// The output directory has been read; its listing.
    Scanned(Vec<DirEntry>),
}

/// The mathematical counterpart of an [`ExtractEvent`].
pub enum EventView {
    StageFinished(Result<(), ProcessingErrorView>),
    Scanned(Seq<DirEntry>),
}

impl View for ExtractEvent {
    type V = EventView;

    open spec fn view(&self) -> EventView {
        match self {
            ExtractEvent::StageFinished(result) => EventView::StageFinished(
                stage_result_view(*result),
            ),
            ExtractEvent::Scanned(listing) => EventView::Scanned(listing@),
        }
    }
}

/// What the caller of the engine does next.
#[derive(Debug, PartialEq, Eq)]
pub enum ExtractAction {
    /// Run this stage on this archive, writing to this directory, and
    /// hand back its result.
    RunStage { stage: UnpackStage, archive: FsPath, out_dir: FsPath },
    /// Read the tree under this directory and hand back its listing.
    Scan { dir: FsPath },
    /// Nothing: every archive is unpacked.
    Done,
    /// Nothing: the run has failed, over this archive and for this reason.
    Failed { archive: FsPath, error: RZipError },
}

/// The mathematical counterpart of an [`ExtractAction`].
pub enum ActionView {
    RunStage { stage: UnpackStage, archive: Seq<Part>, out_dir: Seq<Part> },
    Scan { dir: Seq<Part> },
    Done,
    Failed { archive: Seq<Part>, error: RZipErrorView },
}

impl View for ExtractAction {
    type V = ActionView;

    open spec fn view(&self) -> ActionView {
        match self {
            ExtractAction::RunStage { stage, archive, out_dir } => ActionView::RunStage {
                stage: *stage,
                archive: archive@,
                out_dir: out_dir@,
            },
            ExtractAction::Scan { dir } => ActionView::Scan { dir: dir@ },
            ExtractAction::Done => ActionView::Done,
            ExtractAction::Failed { archive, error } => ActionView::Failed {
                archive: archive@,
                error: error@,
            },
        }
    }
}

// ---------------------------------------------------------------------
// The rules
// ---------------------------------------------------------------------

/// How a run has ended, if it has: halted, or failed with the failures
/// of every stage of the archive in hand.
pub open spec fn extract_result(s: ExtractionView) -> Option<Result<(), RZipErrorView>> {
    match s.halted {
        Some(end) => Some(end),
        None => match dispatch_result(s.job) {
            Some(Err(e)) => Some(Err(e)),
            _ => None,
        },
    }
}

/// The archive that a failure is about: the one that the failure names,
/// where it names one, and else the archive in hand.
pub open spec fn failure_archive(s: ExtractionView, error: RZipErrorView) -> Seq<Part> {
    match error {
        RZipErrorView::Path(_, path) => path,
        RZipErrorView::UnsupportedArchive(path) => path,
        RZipErrorView::NestingTooDeep(path) => path,
        _ => s.job.archive,
    }
}

/// Where a run stands.
pub open spec fn extract_status(s: ExtractionView) -> ExtractStatus {
    match extract_result(s) {
        Some(Ok(_)) => ExtractStatus::Done,
        Some(Err(_)) => ExtractStatus::Failed,
        None => match dispatch_next(s.job) {
            UnpackStep::Run(_) => ExtractStatus::Unpacking,
            _ => ExtractStatus::Rescanning,
        },
    }
}

/// What is to be done in a state. A stage always runs on the archive in
/// hand and its output directory, and a scan reads that directory. A
/// failure comes with the archive that it is about.
pub open spec fn extract_action(s: ExtractionView) -> ActionView {
    match extract_result(s) {
        Some(Ok(_)) => ActionView::Done,
        Some(Err(e)) => ActionView::Failed { archive: failure_archive(s, e), error: e },
        None => match dispatch_next(s.job) {
            UnpackStep::Run(stage) => ActionView::RunStage {
                stage,
                archive: s.job.archive,
                out_dir: s.job.out_dir,
            },
            _ => ActionView::Scan { dir: s.job.out_dir },
        },
    }
}

/// The state after `archive` is taken in hand, to be unpacked into
/// `out_dir`: its stages are looked up, and none has been tried. An
/// archive whose extension is missing or unknown ends the run.
pub open spec fn begin(
    s: ExtractionView,
    archive: Seq<Part>,
    out_dir: Seq<Part>,
    depth_left: nat,
) -> ExtractionView {
    match stages_of_path(archive) {
        Some(stages) => ExtractionView {
            job: dispatch_new(archive, out_dir, stages),
            depth_left,
            ..s
        },
        None => ExtractionView {
            job: dispatch_new(archive, out_dir, Seq::empty()),
            depth_left,
            halted: Some(Err(RZipErrorView::UnsupportedArchive(archive))),
            ..s
        },
    }
}

/// The state that a run on `archive` starts in.
pub open spec fn extract_start(
    archive: Seq<Part>,
    out_dir: Seq<Part>,
    config: ConfigView,
    max_depth: nat,
) -> ExtractionView {
    begin(
        ExtractionView {
            config,
            job: dispatch_new(archive, out_dir, Seq::empty()),
            depth_left: max_depth,
            pending: Seq::empty(),
            halted: None,
        },
        archive,
        out_dir,
        max_depth,
    )
}

/// The state after the next pending archive is taken in hand. Its output
/// directory is the one that the settings of the run give it; where they
/// give none, the run ends with that failure, the archive in hand and no
/// stage for it. Where nothing is pending, the run is done.
pub open spec fn take_next(s: ExtractionView) -> ExtractionView {
    if s.pending.len() == 0 {
        ExtractionView { halted: Some(Ok(())), ..s }
    } else {
        let next = s.pending[0];
        let rest = ExtractionView { pending: s.pending.skip(1), ..s };
        match out_path_of(next.path, s.config) {
            Ok(out_dir) => begin(rest, next.path, out_dir, next.depth_left),
            Err(kind) => ExtractionView {
                job: dispatch_new(next.path, Seq::empty(), Seq::empty()),
                depth_left: next.depth_left,
                halted: Some(Err(RZipErrorView::Path(kind, next.path))),
                ..rest
            },
        }
    }
}

/// The archives found in one scan, as pending archives.
pub open spec fn found_pending(found: Seq<Seq<Part>>, depth_left: nat) -> Seq<PendingView> {
    Seq::new(found.len(), |i: int| PendingView { path: found[i], depth_left })
}

/// The state after the output directory of the archive in hand has been
/// scanned. A failure of the scan ends the run. The archives found go
/// before all that was pending, in the order in which they were found,
/// one level deeper than the archive in hand; where no level is left for
/// them, the run ends with the first of them as too deep. Then the next
/// pending archive is taken in hand.
pub open spec fn after_scan(s: ExtractionView, listing: Seq<DirEntry>) -> ExtractionView {
    match scan(s.job.out_dir, listing) {
        Err(message) => ExtractionView { halted: Some(Err(RZipErrorView::Io(message))), ..s },
        Ok(found) => if found.len() == 0 {
            take_next(s)
        } else if s.depth_left == 0 {
            ExtractionView {
                halted: Some(Err(RZipErrorView::NestingTooDeep(found[0]))),
                ..s
            }
        } else {
            take_next(
                ExtractionView {
                    pending: found_pending(found, (s.depth_left - 1) as nat) + s.pending,
                    ..s
                },
            )
        },
    }
}

/// The state after an event. The result of a stage counts while a stage
/// is due, and a listing while a scan is due; any other event, and every
/// event after the run has ended, changes nothing.
pub open spec fn extract_step(s: ExtractionView, event: EventView) -> ExtractionView {
    match (extract_status(s), event) {
        (ExtractStatus::Unpacking, EventView::StageFinished(result)) => ExtractionView {
            job: dispatch_record(s.job, result),
            ..s
        },
        (ExtractStatus::Rescanning, EventView::Scanned(listing)) => after_scan(s, listing),
        _ => s,
    }
}

// ---------------------------------------------------------------------
// The engine
// ---------------------------------------------------------------------

/// Begins the run that unpacks the archive at `path` into `out_path`,
/// and then every archive that this brings to light, under the settings
/// `config`. The run allows `MAX_NESTING_DEPTH` levels of archives under
/// the first.
///
/// Nothing has been tried yet: the state that is returned says what to do
/// first. For a path whose extension is missing or unknown the run has
/// failed already, with `UnsupportedArchive`, and no stage is ever asked
/// for.
pub fn recursive_file_extract(path: &FsPath, out_path: &FsPath, config: &RZipExtractConfig) -> (r:
    Extraction)
    ensures
        r@ == extract_start(path@, out_path@, config@, MAX_NESTING_DEPTH as nat),
        stages_of_path(path@) is None <==> extract_action(r@) == (ActionView::Failed {
            archive: path@,
            error: RZipErrorView::UnsupportedArchive(path@),
        }),
        out_dir_root_only_first(config@) && root_only_first(out_path@) && anchored(
            out_path@,
            config@,
        ) ==> run_sound(r@),
{
    Extraction::with_depth_limit(path, out_path, config, MAX_NESTING_DEPTH)
}

impl Extraction {
    /// Begins a run as [`recursive_file_extract`] does, allowing
    /// `max_depth` levels of archives under the first.
    pub fn with_depth_limit(
        path: &FsPath,
        out_path: &FsPath,
        config: &RZipExtractConfig,
        max_depth: usize,
    ) -> (r: Extraction)
        ensures
            r@ == extract_start(path@, out_path@, config@, max_depth as nat),
            stages_of_path(path@) is None <==> extract_action(r@) == (ActionView::Failed {
                archive: path@,
                error: RZipErrorView::UnsupportedArchive(path@),
            }),
            out_dir_root_only_first(config@) && root_only_first(out_path@) && anchored(
                out_path@,
                config@,
            ) ==> run_sound(r@),
    {
        let mut run = Extraction {
            config: config.clone(),
            job: UnpackDispatcher::with_stages(path, out_path, Vec::new()),
            depth_left: max_depth,
            pending: Vec::new(),
            halted: None,
        };
        proof {
            assert(pending_view(run.pending@) =~= Seq::<PendingView>::empty());
        }
        run.begin(path, out_path, max_depth);
        run
    }

    /// Takes `archive` in hand, to be unpacked into `out_dir`.
    fn begin(&mut self, archive: &FsPath, out_dir: &FsPath, depth_left: usize)
        ensures
            final(self)@ == begin(old(self)@, archive@, out_dir@, depth_left as nat),
    {
        match unpack_file(archive, out_dir) {
            Ok(job) => {
                self.job = job;
                self.depth_left = depth_left;
            },
            Err(e) => {
                self.job = UnpackDispatcher::with_stages(archive, out_dir, Vec::new());
                self.depth_left = depth_left;
                self.halted = Some(Err(e));
            },
        }
    }

    /// Takes the next pending archive in hand.
    fn take_next(&mut self)
        ensures
            final(self)@ == take_next(old(self)@),
    {
        if self.pending.len() == 0 {
            self.halted = Some(Ok(()));
            return ;
        }
        let ghost before = self.pending@;
        let next = self.pending.remove(0);
        proof {
            assert(pending_view(self.pending@) =~= pending_view(before).skip(1));
            assert(next@ == pending_view(before)[0]);
        }
        match get_out_path_for_archive(&next.path, &self.config) {
            Ok(out_dir) => {
                self.begin(&next.path, &out_dir, next.depth_left);
            },
            Err(e) => {
                let nowhere = FsPath::new();
                self.job = UnpackDispatcher::with_stages(&next.path, &nowhere, Vec::new());
                self.depth_left = next.depth_left;
                self.halted = Some(Err(e));
            },
        }
    }

    /// Takes the listing of the output directory of the archive in hand.
    fn after_scan(&mut self, listing: &Vec<DirEntry>)
        ensures
            final(self)@ == after_scan(old(self)@, listing@),
    {
        match get_archives_in_dir(&self.job.out_dir, listing) {
            Err(e) => {
                self.halted = Some(Err(e));
            },
            Ok(found) => {
                if found.len() == 0 {
                    self.take_next();
                } else if self.depth_left == 0 {
                    self.halted = Some(Err(RZipError::NestingTooDeep(found[0].clone())));
                } else {
                    let depth: usize = self.depth_left - 1;
                    let mut fresh: Vec<PendingArchive> = Vec::new();
                    let mut i: usize = 0;
                    while i < found.len()
                        invariant
                            i <= found.len(),
                            fresh.len() == i,
                            forall|j: int|
                                0 <= j < i ==> fresh@[j]@ == (PendingView {
                                    path: found@[j]@,
                                    depth_left: depth as nat,
                                }),
                        decreases found.len() - i,
                    {
                        fresh.push(PendingArchive { path: found[i].clone(), depth_left: depth });
                        i += 1;
                    }
                    let ghost fresh_before = fresh@;
                    let ghost pending_before = self.pending@;
                    fresh.append(&mut self.pending);
                    self.pending = fresh;
                    proof {
                        assert(self.pending@ == fresh_before + pending_before);
                        assert(pending_view(self.pending@) =~= found_pending(
                            paths_view(found@),
                            depth as nat,
                        ) + pending_view(pending_before));
                    }
                    self.take_next();
                }
            },
        }
    }

    /// How the run has ended, if it has.
    pub fn result(&self) -> (r: Option<Result<(), RZipError>>)
        ensures
            halted_view(r) == extract_result(self@),
    {
        match &self.halted {
            Some(Ok(_)) => Some(Ok(())),
            Some(Err(e)) => Some(Err(e.clone())),
            None => match self.job.result() {
                Some(Err(e)) => Some(Err(e)),
                _ => None,
            },
        }
    }

    /// Where the run stands.
    pub fn status(&self) -> (r: ExtractStatus)
        ensures
            r == extract_status(self@),
    {
        match self.result() {
            Some(Ok(_)) => ExtractStatus::Done,
            Some(Err(_)) => ExtractStatus::Failed,
            None => match self.job.next() {
                UnpackStep::Run(_) => ExtractStatus::Unpacking,
                _ => ExtractStatus::Rescanning,
            },
        }
    }

    /// What the caller does next.
    pub fn next_action(&self) -> (r: ExtractAction)
        ensures
            r@ == extract_action(self@),
    {
        match self.result() {
            Some(Ok(_)) => ExtractAction::Done,
            Some(Err(error)) => {
                let archive = match &error {
                    RZipError::Path(_, path) => path.clone(),
                    RZipError::UnsupportedArchive(path) => path.clone(),
                    RZipError::NestingTooDeep(path) => path.clone(),
                    _ => self.job.archive.clone(),
                };
                ExtractAction::Failed { archive, error }
            },
            None => match self.job.next() {
                UnpackStep::Run(stage) => ExtractAction::RunStage {
                    stage,
                    archive: self.job.archive.clone(),
                    out_dir: self.job.out_dir.clone(),
                },
                _ => ExtractAction::Scan { dir: self.job.out_dir.clone() },
            },
        }
    }

    /// Takes what came of the action that was asked for.
    ///
    /// The settings of the run stay as they are, whatever the event.
    pub fn step(&mut self, event: ExtractEvent)
        ensures
            final(self)@ == extract_step(old(self)@, event@),
            final(self)@.config == old(self)@.config,
            run_sound(old(self)@) ==> run_sound(final(self)@),
    {
        proof {
            lemma_step_keeps_config(self@, event@);
            if run_sound(self@) {
                lemma_step_keeps_sound(self@, event@);
            }
        }
        let status = self.status();
        match event {
            ExtractEvent::StageFinished(result) => {
                if status == ExtractStatus::Unpacking {
                    self.job.record(result);
                }
            },
            ExtractEvent::Scanned(listing) => {
                if status == ExtractStatus::Rescanning {
                    self.after_scan(&listing);
                }
            },
        }
    }
}

/// The state after a sequence of events, each taken in turn.
pub open spec fn extract_run(s: ExtractionView, events: Seq<EventView>) -> ExtractionView
    decreases events.len(),
{
    if events.len() == 0 {
        s
    } else {
        extract_step(extract_run(s, events.drop_last()), events.last())
    }
}

// ---------------------------------------------------------------------
// Laws of a run
// ---------------------------------------------------------------------

/// The settings of a run are the same after any sequence of events: the
/// target and the output root stay fixed through the whole run, however
/// many archives it takes in hand.
pub proof fn lemma_run_keeps_config(s: ExtractionView, events: Seq<EventView>)
    ensures
        extract_run(s, events).config == s.config,
    decreases events.len(),
{
    if events.len() > 0 {
        lemma_run_keeps_config(s, events.drop_last());
    }
}

/// A run that has ended is the same after any sequence of events.
pub proof fn lemma_ended_run_stays(s: ExtractionView, events: Seq<EventView>)
    requires
        extract_result(s) is Some,
    ensures
        extract_run(s, events) == s,
    decreases events.len(),
{
    if events.len() > 0 {
        lemma_ended_run_stays(s, events.drop_last());
    }
}

/// No step changes the settings of a run: every archive of the run is
/// resolved against the target and the output root that it began with.
pub proof fn lemma_step_keeps_config(s: ExtractionView, event: EventView)
    ensures
        extract_step(s, event).config == s.config,
{
}

/// A run that has ended stays as it is: after a failure nothing more is
/// tried, and after the end nothing is asked for.
pub proof fn lemma_ended_run_is_final(s: ExtractionView, event: EventView)
    requires
        extract_result(s) is Some,
    ensures
        extract_step(s, event) == s,
        extract_action(s) is Done || extract_action(s) is Failed,
{
}

/// A run on a path whose extension is missing or unknown has failed
/// before it began: it reports `UnsupportedArchive` with the path, and
/// asks for no stage and no scan.
pub proof fn lemma_unsupported_fails_at_once(
    archive: Seq<Part>,
    out_dir: Seq<Part>,
    config: ConfigView,
    max_depth: nat,
)
    requires
        stages_of_path(archive) is None,
    ensures
        extract_result(extract_start(archive, out_dir, config, max_depth)) == Some(
            Err::<(), RZipErrorView>(RZipErrorView::UnsupportedArchive(archive)),
        ),
        extract_action(extract_start(archive, out_dir, config, max_depth)) == (ActionView::Failed {
            archive,
            error: RZipErrorView::UnsupportedArchive(archive),
        }),
{
}

/// A run on a path with stages begins by asking for the first of them, on
/// the archive and the output directory that it was given.
pub proof fn lemma_supported_starts_with_first_stage(
    archive: Seq<Part>,
    out_dir: Seq<Part>,
    config: ConfigView,
    max_depth: nat,
)
    requires
        stages_of_path(archive) matches Some(stages) && stages.len() > 0,
    ensures
        extract_action(extract_start(archive, out_dir, config, max_depth)) == (ActionView::RunStage {
            stage: stages_of_path(archive)->0[0],
            archive,
            out_dir,
        }),
{
}

/// The run on an archive that holds no archive: for every archive
/// extension, the general decoder is asked for first, on the archive and
/// the output directory given; when it succeeds, that directory is
/// scanned; and when the scan finds no archive, the run is done. Nothing
/// else is asked for, and the archive itself is never touched.
pub proof fn lemma_single_level_run(
    archive: Seq<Part>,
    out_dir: Seq<Part>,
    config: ConfigView,
    max_depth: nat,
    listing: Seq<DirEntry>,
)
    requires
        is_archive(archive, false),
        scan(out_dir, listing) matches Ok(found) && found.len() == 0,
    ensures
        ({
            let start = extract_start(archive, out_dir, config, max_depth);
            let unpacked = extract_step(start, EventView::StageFinished(Ok(())));
            let scanned = extract_step(unpacked, EventView::Scanned(listing));
            &&& extract_action(start) == (ActionView::RunStage {
                stage: UnpackStage::CompressTools,
                archive,
                out_dir,
            })
            &&& extract_action(unpacked) == (ActionView::Scan { dir: out_dir })
            &&& extract_action(scanned) == ActionView::Done
            &&& extract_result(scanned) == Some(Ok::<(), RZipErrorView>(()))
        }),
{
    lemma_archives_have_stages(crate::path::extension_of(archive)->0);
}

/// The run on an archive that holds one archive, which holds none: the
/// outer archive is unpacked and its output directory scanned; then the
/// archive found there is unpacked into the output directory that the
/// settings of the run give it, and that directory is scanned; then the
/// run is done.
pub proof fn lemma_nested_run(
    archive: Seq<Part>,
    out_dir: Seq<Part>,
    config: ConfigView,
    max_depth: nat,
    listing: Seq<DirEntry>,
    nested_listing: Seq<DirEntry>,
)
    requires
        is_archive(archive, false),
        max_depth > 0,
        scan(out_dir, listing) is Ok,
        scan(out_dir, listing)->Ok_0.len() == 1,
        out_path_of(scan(out_dir, listing)->Ok_0[0], config) is Ok,
        scan(
            out_path_of(scan(out_dir, listing)->Ok_0[0], config)->Ok_0,
            nested_listing,
        ) matches Ok(deeper) && deeper.len() == 0,
    ensures
        ({
            let nested = scan(out_dir, listing)->Ok_0[0];
            let nested_out = out_path_of(nested, config)->Ok_0;
            let start = extract_start(archive, out_dir, config, max_depth);
            let unpacked = extract_step(start, EventView::StageFinished(Ok(())));
            let scanned = extract_step(unpacked, EventView::Scanned(listing));
            let nested_unpacked = extract_step(scanned, EventView::StageFinished(Ok(())));
            let nested_scanned = extract_step(nested_unpacked, EventView::Scanned(nested_listing));
            &&& extract_action(start) == (ActionView::RunStage {
                stage: UnpackStage::CompressTools,
                archive,
                out_dir,
            })
            &&& extract_action(unpacked) == (ActionView::Scan { dir: out_dir })
            &&& extract_action(scanned) == (ActionView::RunStage {
                stage: UnpackStage::CompressTools,
                archive: nested,
                out_dir: nested_out,
            })
            &&& extract_action(nested_unpacked) == (ActionView::Scan { dir: nested_out })
            &&& extract_result(nested_scanned) == Some(Ok::<(), RZipErrorView>(()))
        }),
{
    let found = scan(out_dir, listing)->Ok_0;
    let nested = found[0];
    lemma_archives_have_stages(crate::path::extension_of(archive)->0);
    lemma_scan_finds_archives(out_dir, listing);
    assert(is_archive(nested, false));
    lemma_archives_have_stages(crate::path::extension_of(nested)->0);
    let start = extract_start(archive, out_dir, config, max_depth);
    let unpacked = extract_step(start, EventView::StageFinished(Ok(())));
    let depth = (max_depth - 1) as nat;
    let waiting = found_pending(found, depth) + unpacked.pending;
    assert(waiting[0] == PendingView { path: nested, depth_left: depth });
    assert(waiting.skip(1) =~= Seq::<PendingView>::empty());
}

/// Fallback in a run: where the stage that is due fails and another
/// follows it, that one is asked for next, on the same archive and the
/// same output directory; and where it succeeds, the run goes on to scan
/// that directory. The failure of the first stage ends nothing.
pub proof fn lemma_run_falls_back(s: ExtractionView, e: ProcessingErrorView)
    requires
        s.halted is None,
        !s.job.succeeded,
        s.job.errors.len() + 1 < s.job.stages.len(),
    ensures
        ({
            let failed_once = extract_step(s, EventView::StageFinished(Err(e)));
            let then_ok = extract_step(failed_once, EventView::StageFinished(Ok(())));
            &&& extract_action(failed_once) == (ActionView::RunStage {
                stage: s.job.stages[s.job.errors.len() as int + 1],
                archive: s.job.archive,
                out_dir: s.job.out_dir,
            })
            &&& extract_result(then_ok) is None
            &&& extract_action(then_ok) == (ActionView::Scan { dir: s.job.out_dir })
            &&& then_ok.job.errors == s.job.errors.push(e)
        }),
{
}

/// Where the last stage of the archive in hand fails, the run fails, and
/// reports the failures of all the stages in the order of the attempts.
/// Nothing that was pending is begun.
pub proof fn lemma_last_stage_failure_ends_run(s: ExtractionView, e: ProcessingErrorView)
    requires
        s.halted is None,
        !s.job.succeeded,
        s.job.errors.len() + 1 == s.job.stages.len(),
    ensures
        ({
            let after = extract_step(s, EventView::StageFinished(Err(e)));
            &&& extract_result(after) == Some(
                Err::<(), RZipErrorView>(
                    RZipErrorView::ProcessingErrors(s.job.errors.push(e)),
                ),
            )
            &&& extract_action(after) == (ActionView::Failed {
                archive: s.job.archive,
                error: RZipErrorView::ProcessingErrors(s.job.errors.push(e)),
            })
            &&& after.pending == s.pending
        }),
{
}

/// A scan that fails ends the run with that failure.
pub proof fn lemma_scan_failure_ends_run(s: ExtractionView, listing: Seq<DirEntry>)
    requires
        extract_status(s) == ExtractStatus::Rescanning,
        scan(s.job.out_dir, listing) is Err,
    ensures
        extract_result(extract_step(s, EventView::Scanned(listing))) == Some(
            Err::<(), RZipErrorView>(RZipErrorView::Io(scan(s.job.out_dir, listing)->Err_0)),
        ),
{
}

/// A scan that finds nothing, with nothing pending, ends the run with
/// success.
pub proof fn lemma_nothing_left_is_done(s: ExtractionView, listing: Seq<DirEntry>)
    requires
        extract_status(s) == ExtractStatus::Rescanning,
        scan(s.job.out_dir, listing) matches Ok(found) && found.len() == 0,
        s.pending.len() == 0,
    ensures
        extract_result(extract_step(s, EventView::Scanned(listing))) == Some(
            Ok::<(), RZipErrorView>(()),
        ),
{
}

/// Depth first: where a scan finds archives and a level is left for
/// them, the first of them is taken in hand at once, with the output
/// directory that the settings of the run give it, and the others wait
/// before everything that was waiting already.
pub proof fn lemma_nested_come_first(s: ExtractionView, listing: Seq<DirEntry>)
    requires
        extract_status(s) == ExtractStatus::Rescanning,
        s.depth_left > 0,
        scan(s.job.out_dir, listing) matches Ok(found) && found.len() > 0 && out_path_of(
            found[0],
            s.config,
        ) is Ok,
    ensures
        ({
            let found = scan(s.job.out_dir, listing)->Ok_0;
            let after = extract_step(s, EventView::Scanned(listing));
            &&& after.job.archive == found[0]
            &&& after.job.out_dir == out_path_of(found[0], s.config)->Ok_0
            &&& after.depth_left == s.depth_left - 1
            &&& after.pending == found_pending(found.skip(1), (s.depth_left - 1) as nat)
                + s.pending
        }),
{
    let found = scan(s.job.out_dir, listing)->Ok_0;
    let depth = (s.depth_left - 1) as nat;
    let all = found_pending(found, depth) + s.pending;
    assert(all.skip(1) =~= found_pending(found.skip(1), depth) + s.pending);
    assert(all[0] == PendingView { path: found[0], depth_left: depth });
}

/// Archives nested deeper than the run allows end it: where a scan finds
/// archives under an archive that has no level left, the run fails with
/// `NestingTooDeep`, naming the first of them, and none is begun.
pub proof fn lemma_too_deep_ends_run(s: ExtractionView, listing: Seq<DirEntry>)
    requires
        extract_status(s) == ExtractStatus::Rescanning,
        s.depth_left == 0,
        scan(s.job.out_dir, listing) matches Ok(found) && found.len() > 0,
    ensures
        extract_result(extract_step(s, EventView::Scanned(listing))) == Some(
            Err::<(), RZipErrorView>(
                RZipErrorView::NestingTooDeep(scan(s.job.out_dir, listing)->Ok_0[0]),
            ),
        ),
{
}


// ---------------------------------------------------------------------
// Runs that cannot fail over a path
// ---------------------------------------------------------------------

/// Whether every pending archive is an archive that the settings can
/// resolve.
pub open spec fn pending_sound(pending: Seq<PendingView>, config: ConfigView) -> bool {
    forall|i: int|
        0 <= i < pending.len() ==> {
            let path = (#[trigger] pending[i]).path;
            &&& is_archive(path, false)
            &&& anchored(path, config)
            &&& root_only_first(path)
        }
}

/// Whether a run is on sound ground: the output directory of the archive
/// in hand lies at or under a root of the settings, where an output root
/// is set, and so does every pending archive; and no path of the run has
/// the root anywhere but in first place.
pub open spec fn run_sound(s: ExtractionView) -> bool {
    &&& out_dir_root_only_first(s.config)
    &&& root_only_first(s.job.out_dir)
    &&& anchored(s.job.out_dir, s.config)
    &&& pending_sound(s.pending, s.config)
}

/// A run is on sound ground from the start where its first output
/// directory lies at or under a root of the settings. The output
/// directory that the settings give the first archive is such a one.
pub proof fn lemma_start_is_sound(
    archive: Seq<Part>,
    out_dir: Seq<Part>,
    config: ConfigView,
    max_depth: nat,
)
    requires
        out_dir_root_only_first(config),
        root_only_first(out_dir),
        anchored(out_dir, config),
    ensures
        run_sound(extract_start(archive, out_dir, config, max_depth)),
{
}

/// A run that unpacks an archive into the output directory that the
/// settings give it is on sound ground.
pub proof fn lemma_resolved_start_is_sound(archive: Seq<Part>, config: ConfigView, max_depth: nat)
    requires
        root_only_first(archive),
        out_dir_root_only_first(config),
        out_path_of(archive, config) is Ok,
    ensures
        run_sound(extract_start(archive, out_path_of(archive, config)->Ok_0, config, max_depth)),
{
    lemma_out_path_anchored(archive, config);
}

/// What a step finds in the output directory of the archive in hand is
/// sound to wait: archives all, each at or under a root.
proof fn lemma_found_is_sound(s: ExtractionView, found: Seq<Seq<Part>>, depth_left: nat)
    requires
        run_sound(s),
        all_archives_under(found, s.job.out_dir),
        all_root_only_first(found),
    ensures
        pending_sound(found_pending(found, depth_left) + s.pending, s.config),
{
    let all = found_pending(found, depth_left) + s.pending;
    assert forall|i: int| 0 <= i < all.len() implies {
        let path = (#[trigger] all[i]).path;
        &&& is_archive(path, false)
        &&& anchored(path, s.config)
        &&& root_only_first(path)
    } by {
        if i < found.len() {
            assert(all[i].path == found[i]);
            assert(has_prefix(found[i], s.job.out_dir));
            if s.config.out_dir is Some {
                if has_prefix(s.job.out_dir, s.config.target_path) {
                    crate::path::lemma_prefix_transitive(
                        found[i],
                        s.job.out_dir,
                        s.config.target_path,
                    );
                } else {
                    crate::path::lemma_prefix_transitive(
                        found[i],
                        s.job.out_dir,
                        s.config.out_dir->0,
                    );
                }
            }
        } else {
            assert(all[i] == s.pending[i - found.len()]);
        }
    }
}

/// Taking the next pending archive in hand keeps a run on sound ground,
/// and ends it only with success, when nothing is pending.
proof fn lemma_take_next_sound(s: ExtractionView)
    requires
        run_sound(s),
        s.halted is None,
    ensures
        run_sound(take_next(s)),
        take_next(s).halted is None || take_next(s).halted == Some(Ok::<(), RZipErrorView>(())),
        s.pending.len() > 0 ==> take_next(s).halted is None && dispatch_next(take_next(s).job)
            is Run,
{
    if s.pending.len() > 0 {
        let next = s.pending[0];
        let rest = s.pending.skip(1);
        assert(is_archive(next.path, false) && anchored(next.path, s.config) && root_only_first(
            next.path,
        ));
        lemma_extension_gives_stem(next.path);
        lemma_out_path_cases(next.path, s.config);
        lemma_out_path_anchored(next.path, s.config);
        lemma_archives_have_stages(crate::path::extension_of(next.path)->0);
        assert forall|i: int| 0 <= i < rest.len() implies {
            let path = (#[trigger] rest[i]).path;
            &&& is_archive(path, false)
            &&& anchored(path, s.config)
            &&& root_only_first(path)
        } by {
            assert(rest[i] == s.pending[i + 1]);
        }
    }
}

/// A run on sound ground is on sound ground after any sequence of
/// events, and whatever failure it has met by then is one that it began
/// with or the failure of every stage of an archive, of a scan, or of
/// archives nested too deep: never a nested archive without an output
/// directory or without stages.
pub proof fn lemma_run_keeps_sound(s: ExtractionView, events: Seq<EventView>)
    requires
        run_sound(s),
    ensures
        run_sound(extract_run(s, events)),
        match extract_result(extract_run(s, events)) {
            Some(Err(e)) => extract_result(s) == Some(Err::<(), RZipErrorView>(e))
                || e is ProcessingErrors || e is Io || e is NestingTooDeep,
            _ => true,
        },
    decreases events.len(),
{
    if events.len() > 0 {
        let before = extract_run(s, events.drop_last());
        lemma_run_keeps_sound(s, events.drop_last());
        lemma_step_keeps_sound(before, events.last());
    }
}

/// On sound ground a run stays on sound ground, and no nested archive
/// ever fails to get an output directory or a list of stages: a step
/// brings no failure but that of every stage of an archive, that of a
/// scan, or that of archives nested too deep.
pub proof fn lemma_step_keeps_sound(s: ExtractionView, event: EventView)
    requires
        run_sound(s),
    ensures
        run_sound(extract_step(s, event)),
        match extract_result(extract_step(s, event)) {
            Some(Err(e)) => extract_result(s) == Some(Err::<(), RZipErrorView>(e))
                || e is ProcessingErrors || e is Io || e is NestingTooDeep,
            _ => true,
        },
{
    match (extract_status(s), event) {
        (ExtractStatus::Rescanning, EventView::Scanned(listing)) => {
            match scan(s.job.out_dir, listing) {
                Ok(found) => {
                    lemma_scan_finds_archives(s.job.out_dir, listing);
                    lemma_scan_from_root_only_first(s.job.out_dir, listing, 0);
                    if found.len() == 0 {
                        lemma_take_next_sound(s);
                    } else if s.depth_left > 0 {
                        let depth = (s.depth_left - 1) as nat;
                        lemma_found_is_sound(s, found, depth);
                        lemma_take_next_sound(
                            ExtractionView {
                                pending: found_pending(found, depth) + s.pending,
                                ..s
                            },
                        );
                    }
                },
                Err(_) => {},
            }
        },
        _ => {},
    }
}

} // verus!
