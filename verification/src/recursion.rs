//! The run, told as a recursion.
//!
//! Unpacking an archive and all that it holds is most plainly said as a
//! recursion: unpack the archive, scan what came out, and do the same
//! with every archive found, one after another, giving up at the first
//! failure. The engine does not recurse: it takes one event at a time.
//! Here the recursion is written down, for a world that answers every
//! question by a rule, and it is proved that the engine, fed with the
//! answers of that world, ends as the recursion does.

use vstd::prelude::*;
use crate::error::{ProcessingErrorView, RZipErrorView};
use crate::extract::{
    after_scan, extract_action, extract_result, extract_start, extract_status, extract_step,
    found_pending, take_next, ActionView, EventView, ExtractStatus, ExtractionView, PendingView,
};
use crate::path::Part;
use crate::resolve::{out_path_of, ConfigView};
use crate::scan::{scan, DirEntry};
use crate::unpack::{dispatch_new, stages_of_path, DispatchView, UnpackStage};

verus! {

/// A world that answers by rule: what a stage returns when it is run on
/// an archive and an output directory, and what the listing of the output
/// directory is once the archive is unpacked.
pub struct World {
    pub stage_result: spec_fn(Seq<Part>, Seq<Part>, UnpackStage) -> Result<
        (),
        ProcessingErrorView,
    >,
    pub listing: spec_fn(Seq<Part>, Seq<Part>) -> Seq<DirEntry>,
}

/// Trying the stages from place `from` on, in order, up to the first that
/// succeeds: the failures before the success, or the failures of all.
pub open spec fn unpack_rec(
    world: World,
    archive: Seq<Part>,
    out_dir: Seq<Part>,
    stages: Seq<UnpackStage>,
    from: int,
) -> Result<Seq<ProcessingErrorView>, Seq<ProcessingErrorView>>
    decreases stages.len() - from,
{
    if 0 <= from < stages.len() {
        match (world.stage_result)(archive, out_dir, stages[from]) {
            Ok(_) => Ok(Seq::empty()),
            Err(e) => match unpack_rec(world, archive, out_dir, stages, from + 1) {
                Ok(failures) => Ok(seq![e] + failures),
                Err(failures) => Err(seq![e] + failures),
            },
        }
    } else {
        Err(Seq::empty())
    }
}

/// Unpacking an archive and every archive inside it: the stages are
/// tried; what came out is scanned; and every archive found is unpacked in
/// the same way, one level deeper.
pub open spec fn extract_rec(
    world: World,
    archive: Seq<Part>,
    out_dir: Seq<Part>,
    config: ConfigView,
    depth_left: nat,
) -> Result<(), RZipErrorView>
    decreases depth_left, 0nat, 0nat,
{
    match stages_of_path(archive) {
        None => Err(RZipErrorView::UnsupportedArchive(archive)),
        Some(stages) => match unpack_rec(world, archive, out_dir, stages, 0) {
            Err(failures) => Err(RZipErrorView::ProcessingErrors(failures)),
            Ok(_) => match scan(out_dir, (world.listing)(archive, out_dir)) {
                Err(message) => Err(RZipErrorView::Io(message)),
                Ok(found) => if found.len() == 0 {
                    Ok(())
                } else if depth_left == 0 {
                    Err(RZipErrorView::NestingTooDeep(found[0]))
                } else {
                    extract_each(world, found, 0, config, (depth_left - 1) as nat)
                },
            },
        },
    }
}

/// Unpacking the archives of a list from place `from` on, each with the
/// output directory that the settings give it, up to the first failure.
pub open spec fn extract_each(
    world: World,
    found: Seq<Seq<Part>>,
    from: int,
    config: ConfigView,
    depth_left: nat,
) -> Result<(), RZipErrorView>
    decreases depth_left, 1nat, found.len() - from,
{
    if 0 <= from < found.len() {
        match out_path_of(found[from], config) {
            Err(kind) => Err(RZipErrorView::Path(kind, found[from])),
            Ok(out_dir) => match extract_rec(world, found[from], out_dir, config, depth_left) {
                Err(e) => Err(e),
                Ok(_) => extract_each(world, found, from + 1, config, depth_left),
            },
        }
    } else {
        Ok(())
    }
}

/// The event that the world answers the action of a state with; none
/// where the run has ended.
pub open spec fn answer(world: World, s: ExtractionView) -> Option<EventView> {
    match extract_action(s) {
        ActionView::RunStage { stage, archive, out_dir } => Some(
            EventView::StageFinished((world.stage_result)(archive, out_dir, stage)),
        ),
        ActionView::Scan { dir } => Some(EventView::Scanned((world.listing)(s.job.archive, dir))),
        _ => None,
    }
}

/// The state of a run after the world has answered its actions `steps`
/// times, or as often as the run asked.
pub open spec fn drive(world: World, s: ExtractionView, steps: nat) -> ExtractionView
    decreases steps,
{
    if steps == 0 {
        s
    } else {
        match answer(world, s) {
            Some(event) => drive(world, extract_step(s, event), (steps - 1) as nat),
            None => s,
        }
    }
}

/// Driving a run for some steps and then for some more is driving it for
/// all of them.
proof fn lemma_drive_on(world: World, s: ExtractionView, first: nat, then: nat)
    ensures
        drive(world, s, first + then) == drive(world, drive(world, s, first), then),
    decreases first,
{
    if first > 0 {
        match answer(world, s) {
            Some(event) => {
                lemma_drive_on(world, extract_step(s, event), (first - 1) as nat, then);
            },
            None => {
                lemma_drive_ended(world, s, then);
                lemma_drive_ended(world, s, first + then);
            },
        }
    }
}

/// A run that asks for nothing stays as it is.
proof fn lemma_drive_ended(world: World, s: ExtractionView, steps: nat)
    requires
        answer(world, s) is None,
    ensures
        drive(world, s, steps) == s,
{
}

/// A state with a stage due, driven until the stages have come to an end:
/// with the first success, or with the failure of the last stage.
proof fn lemma_unpack(world: World, s: ExtractionView) -> (steps: nat)
    requires
        s.halted is None,
        !s.job.succeeded,
        s.job.errors.len() <= s.job.stages.len(),
    ensures
        match unpack_rec(
            world,
            s.job.archive,
            s.job.out_dir,
            s.job.stages,
            s.job.errors.len() as int,
        ) {
            Ok(failures) => drive(world, s, steps) == (ExtractionView {
                job: DispatchView {
                    succeeded: true,
                    errors: s.job.errors + failures,
                    ..s.job
                },
                ..s
            }) && s.job.errors.len() + failures.len() < s.job.stages.len(),
            Err(failures) => drive(world, s, steps) == (ExtractionView {
                job: DispatchView { errors: s.job.errors + failures, ..s.job },
                ..s
            }) && s.job.errors.len() + failures.len() == s.job.stages.len(),
        },
    decreases s.job.stages.len() - s.job.errors.len(),
{
    let job = s.job;
    if job.errors.len() < job.stages.len() {
        let stage = job.stages[job.errors.len() as int];
        let result = (world.stage_result)(job.archive, job.out_dir, stage);
        assert(answer(world, s) == Some(EventView::StageFinished(result)));
        let next = extract_step(s, EventView::StageFinished(result));
        match result {
            Ok(_) => {
                assert(job.errors + Seq::<ProcessingErrorView>::empty() =~= job.errors);
                assert(drive(world, next, 0) == next);
                1
            },
            Err(e) => {
                let more = lemma_unpack(world, next);
                match unpack_rec(
                    world,
                    job.archive,
                    job.out_dir,
                    job.stages,
                    job.errors.len() as int + 1,
                ) {
                    Ok(failures) => {
                        assert(job.errors.push(e) + failures =~= job.errors + (seq![e]
                            + failures));
                    },
                    Err(failures) => {
                        assert(job.errors.push(e) + failures =~= job.errors + (seq![e]
                            + failures));
                    },
                }
                more + 1
            },
        }
    } else {
        assert(job.errors + Seq::<ProcessingErrorView>::empty() =~= job.errors);
        0
    }
}

/// Whether a state has an archive freshly in hand: its stages looked up,
/// none tried, and the run not ended.
pub open spec fn fresh(s: ExtractionView) -> bool {
    &&& s.halted is None
    &&& stages_of_path(s.job.archive) == Some(s.job.stages)
    &&& s.job == dispatch_new(s.job.archive, s.job.out_dir, s.job.stages)
}

/// How a run goes on once an archive and all that it holds is unpacked:
/// it is done where nothing is pending, and else it has the next pending
/// archive in hand.
pub open spec fn goes_on(after: ExtractionView, before: ExtractionView) -> bool {
    if before.pending.len() == 0 {
        extract_result(after) == Some(Ok::<(), RZipErrorView>(()))
    } else {
        after == take_next(before)
    }
}

/// A run with an archive freshly in hand, driven until that archive and
/// all that it holds is dealt with, has failed as the recursion fails, or
/// goes on with what was pending.
proof fn lemma_extract(world: World, s: ExtractionView) -> (steps: nat)
    requires
        fresh(s),
    ensures
        match extract_rec(world, s.job.archive, s.job.out_dir, s.config, s.depth_left) {
            Err(e) => extract_result(drive(world, s, steps)) == Some(Err::<(), RZipErrorView>(e)),
            Ok(_) => goes_on(drive(world, s, steps), s),
        },
    decreases s.depth_left, 0nat, 0nat,
{
    let archive = s.job.archive;
    let out_dir = s.job.out_dir;
    let unpack_steps = lemma_unpack(world, s);
    let unpacked = drive(world, s, unpack_steps);
    assert(Seq::<ProcessingErrorView>::empty() + unpack_rec(
        world,
        archive,
        out_dir,
        s.job.stages,
        0,
    )->Err_0 =~= unpack_rec(world, archive, out_dir, s.job.stages, 0)->Err_0);
    match unpack_rec(world, archive, out_dir, s.job.stages, 0) {
        Err(failures) => {
            assert(extract_result(unpacked) == Some(
                Err::<(), RZipErrorView>(RZipErrorView::ProcessingErrors(failures)),
            ));
            unpack_steps
        },
        Ok(failures) => {
            let listing = (world.listing)(archive, out_dir);
            assert(extract_status(unpacked) == ExtractStatus::Rescanning);
            assert(answer(world, unpacked) == Some(EventView::Scanned(listing)));
            let scanned = extract_step(unpacked, EventView::Scanned(listing));
            assert(scanned == after_scan(unpacked, listing));
            assert(drive(world, unpacked, 1) == scanned) by {
                assert(drive(world, scanned, 0) == scanned);
            }
            lemma_drive_on(world, s, unpack_steps, 1);
            match scan(out_dir, listing) {
                Err(_) => unpack_steps + 1,
                Ok(found) => {
                    if found.len() == 0 {
                        assert(scanned == take_next(unpacked));
                        lemma_take_next_ignores_job(unpacked, s);
                        unpack_steps + 1
                    } else if s.depth_left == 0 {
                        unpack_steps + 1
                    } else {
                        let depth = (s.depth_left - 1) as nat;
                        let waiting = ExtractionView {
                            pending: found_pending(found, depth) + s.pending,
                            ..unpacked
                        };
                        assert(scanned == take_next(waiting));
                        assert(found.skip(0) =~= found);
                        let each_steps = lemma_each(world, waiting, found, 0, s.pending, depth);
                        lemma_drive_on(world, s, unpack_steps + 1, each_steps);
                        if extract_each(world, found, 0, s.config, depth) is Ok && s.pending.len()
                            > 0 {
                            lemma_take_next_ignores_job(
                                ExtractionView { pending: s.pending, ..waiting },
                                s,
                            );
                        }
                        unpack_steps + 1 + each_steps
                    }
                },
            }
        },
    }
}

/// Taking the next pending archive in hand does not depend on the archive
/// that was in hand before, where something is pending; and where
/// nothing is, the run is done either way.
proof fn lemma_take_next_ignores_job(a: ExtractionView, b: ExtractionView)
    requires
        a.config == b.config,
        a.pending == b.pending,
        a.halted is None,
        b.halted is None,
    ensures
        goes_on(take_next(a), b),
{
}

/// A run that has the archives of a list pending from place `from` on,
/// before what was pending already, driven from the moment it takes the
/// first of them in hand until all of them are dealt with, has failed as
/// the recursion fails, or goes on with what was pending before.
proof fn lemma_each(
    world: World,
    waiting: ExtractionView,
    found: Seq<Seq<Part>>,
    from: int,
    pending: Seq<PendingView>,
    depth: nat,
) -> (steps: nat)
    requires
        0 <= from <= found.len(),
        waiting.halted is None,
        waiting.pending == found_pending(found.skip(from), depth) + pending,
    ensures
        match extract_each(world, found, from, waiting.config, depth) {
            Err(e) => extract_result(drive(world, take_next(waiting), steps)) == Some(
                Err::<(), RZipErrorView>(e),
            ),
            Ok(_) => goes_on(
                drive(world, take_next(waiting), steps),
                (ExtractionView { pending, ..waiting }),
            ),
        },
    decreases depth, 1nat, found.len() - from,
{
    let taken = take_next(waiting);
    let base = ExtractionView { pending, ..waiting };
    if from >= found.len() {
        assert(found.skip(from) =~= Seq::<Seq<Part>>::empty());
        assert(waiting.pending =~= pending);
        assert(waiting == base);
        assert(drive(world, taken, 0) == taken);
        0
    } else {
        let next = found[from];
        let later = found_pending(found.skip(from + 1), depth) + pending;
        assert(waiting.pending[0] == PendingView { path: next, depth_left: depth }) by {
            assert(found.skip(from)[0] == next);
        }
        assert(waiting.pending.skip(1) =~= later) by {
            assert(found.skip(from).skip(1) =~= found.skip(from + 1));
        }
        match out_path_of(next, waiting.config) {
            Err(_) => {
                assert(drive(world, taken, 0) == taken);
                0
            },
            Ok(out_dir) => {
                if stages_of_path(next) is None {
                    assert(drive(world, taken, 0) == taken);
                    0
                } else {
                    assert(fresh(taken));
                    assert(taken.pending == later);
                    assert(taken.depth_left == depth);
                    let first_steps = lemma_extract(world, taken);
                    match extract_rec(world, next, out_dir, waiting.config, depth) {
                        Err(_) => first_steps,
                        Ok(_) => {
                            if later.len() == 0 {
                                assert(found.skip(from + 1).len() == 0);
                                assert(pending.len() == 0);
                                first_steps
                            } else {
                                assert(drive(world, taken, first_steps) == take_next(taken));
                                let rest_steps = lemma_each(
                                    world,
                                    taken,
                                    found,
                                    from + 1,
                                    pending,
                                    depth,
                                );
                                lemma_drive_on(world, taken, first_steps, rest_steps);
                                if pending.len() > 0 && extract_each(
                                    world,
                                    found,
                                    from + 1,
                                    waiting.config,
                                    depth,
                                ) is Ok {
                                    lemma_take_next_ignores_job(
                                        ExtractionView { pending, ..taken },
                                        base,
                                    );
                                }
                                first_steps + rest_steps
                            }
                        },
                    }
                }
            },
        }
    }
}

/// The engine ends, and ends as the recursion does: a run that the world
/// answers, driven for the number of steps that this proof names, has
/// ended with the result of the recursion. So every run comes to an end,
/// whatever the archives hold, and the first failure of the recursion,
/// however deep, is the result of the run.
pub proof fn lemma_run_is_the_recursion(
    world: World,
    archive: Seq<Part>,
    out_dir: Seq<Part>,
    config: ConfigView,
    max_depth: nat,
) -> (steps: nat)
    ensures
        extract_result(
            drive(world, extract_start(archive, out_dir, config, max_depth), steps),
        ) == Some(extract_rec(world, archive, out_dir, config, max_depth)),
{
    let start = extract_start(archive, out_dir, config, max_depth);
    let told = extract_rec(world, archive, out_dir, config, max_depth);
    if stages_of_path(archive) is None {
        assert(drive(world, start, 0) == start);
        0
    } else {
        assert(fresh(start));
        let steps = lemma_extract(world, start);
        match told {
            Err(_) => {},
            Ok(unit) => {
                assert(goes_on(drive(world, start, steps), start));
                assert(unit == ());
            },
        }
        steps
    }
}

} // verus!
