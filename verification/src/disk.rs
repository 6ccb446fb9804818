//! What carrying out a plan comes to when the answers are fixed.
//!
//! A [`Disk`] says, for every path, whether the directories up to it can be
//! made, whether something is there, and whether a move to it succeeds. It
//! stands for a disk that answers each question the same way throughout a
//! run. What becomes of each entry on such a disk is written down directly
//! ([`Disk::carried_out`]); the laws here show that an executor whose
//! requests are answered from the disk arrives at exactly that, and that a
//! dry run and a real run find the same overwrite conflicts.

use vstd::prelude::*;
use crate::executor::{
    downgraded, lemma_seek_lands, seek, ExecutorView, FsEventView, FsRequestView, Stage,
};
use crate::path::PathView;
use crate::plan::{EntryView, ErrorView, MoveView, OutcomeView};

verus! {

/// A disk that gives the same answers throughout a run.
pub struct Disk {
    /// Why the directory cannot be made, if it cannot.
    pub prepare: spec_fn(PathView) -> Option<Seq<char>>,
    /// Whether something is at the path, or why that cannot be told.
    pub probe: spec_fn(PathView) -> Result<bool, Seq<char>>,
    /// Why the file cannot be moved, if it cannot.
    pub rename: spec_fn(PathView, PathView) -> Option<Seq<char>>,
}

/// Whether position (`r`, `e`) comes before position (`rule`, `entry`) in
/// plan order.
pub open spec fn earlier(r: int, e: int, rule: int, entry: int) -> bool {
    r < rule || (r == rule && e < entry)
}

/// Whether an entry is an overwrite conflict.
pub open spec fn is_conflict(entry: EntryView) -> bool {
    entry matches Err(ErrorView::OverwriteConflict { .. })
}

/// The plan with the entry at rule `r`, entry `e` replaced by `entry`.
pub open spec fn replaced(plan: Seq<OutcomeView>, r: int, e: int, entry: EntryView) -> Seq<
    OutcomeView,
> {
    plan.update(
        r,
        OutcomeView::Resolved {
            rule: plan[r].rule(),
            entries: plan[r].entries().update(e, entry),
        },
    )
}

impl Disk {
    /// The report on a step.
    pub open spec fn answer(self, request: FsRequestView) -> FsEventView {
        match request {
            FsRequestView::CreateDirectories(directory) => match (self.prepare)(directory) {
                None => FsEventView::Prepared,
                Some(cause) => FsEventView::PrepareFailed(cause),
            },
            FsRequestView::Probe(path) => match (self.probe)(path) {
                Ok(found) => if found {
                    FsEventView::Present
                } else {
                    FsEventView::Absent
                },
                Err(cause) => FsEventView::ProbeFailed(cause),
            },
            FsRequestView::Rename { from, to } => match (self.rename)(from, to) {
                None => FsEventView::Moved,
                Some(cause) => FsEventView::MoveFailed(cause),
            },
            FsRequestView::Finished => FsEventView::Moved,
        }
    }

    /// Whether making the directory for a move fails in a run of this mode;
    /// a dry run makes none.
    pub open spec fn cannot_prepare(self, dry_run: bool, resolved: MoveView) -> bool {
        !dry_run && resolved.move_to.parent() is Some && (self.prepare)(
            resolved.move_to.parent()->0,
        ) is Some
    }

    /// What becomes of a resolved move: the directory is made unless this is
    /// a dry run, then the destination is looked at, then the file is moved
    /// unless this is a dry run; the first of these that fails decides.
    pub open spec fn settled(self, dry_run: bool, resolved: MoveView) -> EntryView {
        if self.cannot_prepare(dry_run, resolved) {
            Err(
                ErrorView::DirCreateFailed {
                    directory: resolved.move_to.parent()->0,
                    cause: (self.prepare)(resolved.move_to.parent()->0)->0,
                },
            )
        } else {
            match (self.probe)(resolved.move_to) {
                Err(cause) => Err(
                    ErrorView::ProbeFailed { destination: resolved.move_to, cause },
                ),
                Ok(found) => if found {
                    Err(ErrorView::OverwriteConflict { destination: resolved.move_to })
                } else if dry_run {
                    Ok(resolved)
                } else {
                    match (self.rename)(resolved.file, resolved.move_to) {
                        None => Ok(resolved),
                        Some(cause) => Err(
                            ErrorView::MoveFailed {
                                file: resolved.file,
                                destination: resolved.move_to,
                                cause,
                            },
                        ),
                    }
                },
            }
        }
    }

    /// What becomes of an entry: an entry that failed while the plan was
    /// made stays as it is.
    pub open spec fn entry_after(self, dry_run: bool, entry: EntryView) -> EntryView {
        match entry {
            Ok(resolved) => self.settled(dry_run, resolved),
            Err(error) => Err(error),
        }
    }

    /// What becomes of a rule's outcome: a rule that was skipped stays as it
    /// is.
    pub open spec fn outcome_after(self, dry_run: bool, outcome: OutcomeView) -> OutcomeView {
        match outcome {
            OutcomeView::Resolved { rule, entries } => OutcomeView::Resolved {
                rule,
                entries: entries.map_values(|entry: EntryView| self.entry_after(dry_run, entry)),
            },
            other => other,
        }
    }

    /// What becomes of a plan.
    pub open spec fn carried_out(self, dry_run: bool, plan: Seq<OutcomeView>) -> Seq<
        OutcomeView,
    > {
        plan.map_values(|outcome: OutcomeView| self.outcome_after(dry_run, outcome))
    }

    /// The state of an executor after `steps` of its requests were answered
    /// from the disk.
    pub open spec fn drive(self, state: ExecutorView, steps: nat) -> ExecutorView
        decreases steps,
    {
        if steps == 0 {
            state
        } else {
            self.drive(state.step(self.answer(state.request())), (steps - 1) as nat)
        }
    }

    /// Whether the stage of the entry under the cursor is one that the disk
    /// leads to: the destination is looked at only once its directory is
    /// there, and the file is moved only once the destination was found
    /// free.
    pub open spec fn stage_fits(self, state: ExecutorView) -> bool {
        let resolved = state.current();
        match state.stage {
            Stage::Preparing => true,
            Stage::Probing => !self.cannot_prepare(state.dry_run, resolved),
            Stage::Moving => !self.cannot_prepare(state.dry_run, resolved) && (self.probe)(
                resolved.move_to,
            ) == Ok::<bool, Seq<char>>(false),
        }
    }

    /// Whether an executor's state is what the disk gives for the plan
    /// `planned`: the rules are those of the plan, every entry before the
    /// cursor is what the disk makes of it, and every other entry is as
    /// planned.
    pub open spec fn agrees_with(self, planned: Seq<OutcomeView>, state: ExecutorView) -> bool {
        &&& state.wf()
        &&& state.plan.len() == planned.len()
        &&& forall|i: int|
            0 <= i < planned.len() ==> {
                &&& (#[trigger] state.plan[i]).rule() == planned[i].rule()
                &&& state.plan[i].entries().len() == planned[i].entries().len()
                &&& state.plan[i] is Resolved == planned[i] is Resolved
                &&& !(planned[i] is Resolved) ==> state.plan[i] == planned[i]
            }
        &&& forall|i: int, j: int|
            0 <= i < planned.len() && 0 <= j < planned[i].entries().len()
                ==> #[trigger] state.plan[i].entries()[j] == (if earlier(
                i,
                j,
                state.rule,
                state.entry,
            ) {
                self.entry_after(state.dry_run, planned[i].entries()[j])
            } else {
                planned[i].entries()[j]
            })
        &&& !state.finished() ==> self.stage_fits(state)
    }
}

/// Every entry that the cursor passes over without stopping is a failed
/// one.
pub proof fn lemma_seek_skips_failed(plan: Seq<OutcomeView>, r: int, e: int, i: int, j: int)
    requires
        0 <= r,
        0 <= e,
        0 <= i < plan.len(),
        0 <= j < plan[i].entries().len(),
        !earlier(i, j, r, e),
        earlier(i, j, seek(plan, r, e).0, seek(plan, r, e).1),
    ensures
        plan[i].entries()[j] is Err,
    decreases plan.len() - r, plan[r].entries().len() - e,
{
    if r >= plan.len() {
    } else if e >= plan[r].entries().len() {
        lemma_seek_skips_failed(plan, r + 1, 0, i, j);
    } else if plan[r].entries()[e] is Ok {
    } else if i == r && j == e {
    } else {
        lemma_seek_skips_failed(plan, r, e + 1, i, j);
    }
}

/// Once the entry under the cursor is what the disk makes of it, the state
/// that the cursor arrives at next agrees with the disk.
proof fn lemma_arrival_agrees(
    disk: Disk,
    planned: Seq<OutcomeView>,
    state: ExecutorView,
    entry: EntryView,
)
    requires
        disk.agrees_with(planned, state),
        !state.finished(),
        entry == disk.entry_after(state.dry_run, planned[state.rule].entries()[state.entry]),
    ensures
        disk.agrees_with(
            planned,
            ExecutorView::arrive(
                replaced(state.plan, state.rule, state.entry, entry),
                state.dry_run,
                state.rule,
                state.entry + 1,
            ),
        ),
{
    let r = state.rule;
    let e = state.entry;
    let changed = replaced(state.plan, r, e, entry);
    let next = ExecutorView::arrive(changed, state.dry_run, r, e + 1);
    lemma_seek_lands(changed, r, e + 1);
    assert(state.plan[r].entries()[e] == planned[r].entries()[e]);
    assert forall|i: int| 0 <= i < planned.len() implies {
        &&& (#[trigger] next.plan[i]).rule() == planned[i].rule()
        &&& next.plan[i].entries().len() == planned[i].entries().len()
        &&& next.plan[i] is Resolved == planned[i] is Resolved
        &&& !(planned[i] is Resolved) ==> next.plan[i] == planned[i]
    } by {
        assert(state.plan[i].rule() == planned[i].rule());
    }
    assert forall|i: int, j: int|
        0 <= i < planned.len() && 0 <= j < planned[i].entries().len()
            implies #[trigger] next.plan[i].entries()[j] == (if earlier(
            i,
            j,
            next.rule,
            next.entry,
        ) {
            disk.entry_after(next.dry_run, planned[i].entries()[j])
        } else {
            planned[i].entries()[j]
        }) by {
        assert(state.plan[i].entries().len() == planned[i].entries().len()) by {
            assert(state.plan[i].rule() == planned[i].rule());
        }
        if i == r && j == e {
        } else {
            assert(next.plan[i].entries()[j] == state.plan[i].entries()[j]);
            if earlier(i, j, r, e) {
            } else if earlier(i, j, next.rule, next.entry) {
                lemma_seek_skips_failed(changed, r, e + 1, i, j);
            }
        }
    }
}

/// A step answered from the disk keeps the executor in agreement with the
/// disk.
pub proof fn lemma_step_agrees(disk: Disk, planned: Seq<OutcomeView>, state: ExecutorView)
    requires
        disk.agrees_with(planned, state),
    ensures
        disk.agrees_with(planned, state.step(disk.answer(state.request()))),
{
    if !state.finished() {
        let r = state.rule;
        let e = state.entry;
        let resolved = state.current();
        let event = disk.answer(state.request());
        let next = state.step(event);
        let made = disk.settled(state.dry_run, resolved);
        assert(state.plan[r].entries()[e] == planned[r].entries()[e]);
        assert(state.plan[r].rule() == planned[r].rule());
        assert(planned[r].entries()[e] == Ok::<MoveView, ErrorView>(resolved));
        if next.rule == r && next.entry == e && next.plan == state.plan {
            assert(next == state.at_stage(next.stage));
        } else {
            lemma_arrival_agrees(disk, planned, state, made);
            match made {
                Ok(same) => {
                    assert(replaced(state.plan, r, e, made) =~= state.plan) by {
                        assert(state.plan[r].entries().update(e, made)
                            =~= state.plan[r].entries());
                    }
                    assert(next == state.pass());
                },
                Err(error) => {
                    assert(replaced(state.plan, r, e, made) == downgraded(state.plan, r, e, error));
                    assert(next == state.fail(error));
                },
            }
        }
    }
}

/// However many requests are answered from the disk, the executor stays in
/// agreement with it.
pub proof fn lemma_drive_agrees(
    disk: Disk,
    planned: Seq<OutcomeView>,
    state: ExecutorView,
    steps: nat,
)
    requires
        disk.agrees_with(planned, state),
    ensures
        disk.agrees_with(planned, disk.drive(state, steps)),
        disk.drive(state, steps).dry_run == state.dry_run,
    decreases steps,
{
    if steps > 0 {
        lemma_step_agrees(disk, planned, state);
        lemma_drive_agrees(
            disk,
            planned,
            state.step(disk.answer(state.request())),
            (steps - 1) as nat,
        );
    }
}

/// The executor starts in agreement with every disk.
pub proof fn lemma_start_agrees(disk: Disk, plan: Seq<OutcomeView>, dry_run: bool)
    ensures
        disk.agrees_with(plan, ExecutorView::start(plan, dry_run)),
{
    let start = ExecutorView::start(plan, dry_run);
    lemma_seek_lands(plan, 0, 0);
    assert forall|i: int, j: int|
        0 <= i < plan.len() && 0 <= j < plan[i].entries().len()
            implies #[trigger] start.plan[i].entries()[j] == (if earlier(
            i,
            j,
            start.rule,
            start.entry,
        ) {
            disk.entry_after(start.dry_run, plan[i].entries()[j])
        } else {
            plan[i].entries()[j]
        }) by {
        if earlier(i, j, start.rule, start.entry) {
            lemma_seek_skips_failed(plan, 0, 0, i, j);
        }
    }
}

/// The rank of a stage: how many steps an entry at that stage may still
/// take.
pub open spec fn stage_rank(stage: Stage) -> int {
    match stage {
        Stage::Preparing => 2,
        Stage::Probing => 1,
        Stage::Moving => 0,
    }
}

/// An executor whose requests are answered from the disk finishes: the
/// result is a number of steps after which every entry is settled.
pub proof fn lemma_executor_finishes(disk: Disk, state: ExecutorView) -> (steps: nat)
    requires
        state.wf(),
    ensures
        disk.drive(state, steps).finished(),
    decreases
        state.plan.len() - state.rule,
        state.plan[state.rule].entries().len() - state.entry,
        stage_rank(state.stage),
{
    if state.finished() {
        0
    } else {
        let r = state.rule;
        let e = state.entry;
        let event = disk.answer(state.request());
        let next = state.step(event);
        crate::executor::lemma_step_keeps_wf(state, event);
        lemma_seek_lands(state.plan, r, e + 1);
        assert forall|error: ErrorView|
            ({
                let failed = #[trigger] state.fail(error);
                &&& failed.plan.len() == state.plan.len()
                &&& failed.rule > r || (failed.rule == r && failed.entry > e)
                &&& failed.plan[r].entries().len() == state.plan[r].entries().len()
            }) by {
            lemma_seek_lands(downgraded(state.plan, r, e, error), r, e + 1);
        }
        let rest = lemma_executor_finishes(disk, next);
        (rest + 1) as nat
    }
}

/// Carrying out a plan against a disk ends with what the disk makes of the
/// plan: the result is a number of steps after which the executor has
/// finished, and its plan is then, entry for entry, what becomes of the
/// entries on that disk.
pub proof fn lemma_run_gives_the_outcomes(disk: Disk, plan: Seq<OutcomeView>, dry_run: bool) -> (steps:
    nat)
    ensures
        disk.drive(ExecutorView::start(plan, dry_run), steps).finished(),
        disk.drive(ExecutorView::start(plan, dry_run), steps).plan == disk.carried_out(
            dry_run,
            plan,
        ),
{
    let start = ExecutorView::start(plan, dry_run);
    lemma_seek_lands(plan, 0, 0);
    lemma_start_agrees(disk, plan, dry_run);
    let steps = lemma_executor_finishes(disk, start);
    lemma_drive_agrees(disk, plan, start, steps);
    let end = disk.drive(start, steps);
    let wanted = disk.carried_out(dry_run, plan);
    assert forall|i: int| 0 <= i < plan.len() implies end.plan[i] == wanted[i] by {
        assert(end.plan[i].rule() == plan[i].rule());
        if plan[i] is Resolved {
            let entries = plan[i]->Resolved_entries;
            assert(plan[i].entries() == entries);
            assert(end.plan[i].entries() =~= entries.map_values(
                |entry: EntryView| disk.entry_after(dry_run, entry),
            )) by {
                assert forall|j: int| 0 <= j < entries.len() implies end.plan[i].entries()[j]
                    == disk.entry_after(dry_run, entries[j]) by {
                    assert(earlier(i, j, end.rule, end.entry));
                }
            }
        }
    }
    assert(end.plan =~= wanted);
    steps
}

/// Dry-run and real-run parity over a whole run: on a disk that gives the
/// same answers throughout, an entry ends as an overwrite conflict in a dry
/// run exactly when it does in a real run. This holds for every entry whose
/// destination is free or can have its directory made.
pub proof fn lemma_runs_find_the_same_conflicts(
    disk: Disk,
    plan: Seq<OutcomeView>,
    r: int,
    e: int,
)
    requires
        0 <= r < plan.len(),
        0 <= e < plan[r].entries().len(),
        plan[r].entries()[e] matches Ok(resolved) ==> !((disk.probe)(resolved.move_to) == Ok::<
            bool,
            Seq<char>,
        >(true) && disk.cannot_prepare(false, resolved)),
    ensures
        is_conflict(disk.carried_out(true, plan)[r].entries()[e]) == is_conflict(
            disk.carried_out(false, plan)[r].entries()[e],
        ),
        is_conflict(disk.carried_out(true, plan)[r].entries()[e]) ==> is_conflict(
            plan[r].entries()[e],
        ) || (plan[r].entries()[e] is Ok && (disk.probe)(plan[r].entries()[e]->Ok_0.move_to)
            == Ok::<bool, Seq<char>>(true)),
{
}

/// Dry-run and real-run parity, of two runs: carried out against the same
/// disk, once dry and once for real, a plan ends with the same entries as
/// overwrite conflicts. The result is the number of steps that each run
/// takes.
pub proof fn lemma_dry_and_real_runs_agree_on_conflicts(
    disk: Disk,
    plan: Seq<OutcomeView>,
    r: int,
    e: int,
) -> (steps: (nat, nat))
    requires
        0 <= r < plan.len(),
        0 <= e < plan[r].entries().len(),
        plan[r].entries()[e] matches Ok(resolved) ==> !((disk.probe)(resolved.move_to) == Ok::<
            bool,
            Seq<char>,
        >(true) && disk.cannot_prepare(false, resolved)),
    ensures
        disk.drive(ExecutorView::start(plan, true), steps.0).finished(),
        disk.drive(ExecutorView::start(plan, false), steps.1).finished(),
        is_conflict(disk.drive(ExecutorView::start(plan, true), steps.0).plan[r].entries()[e])
            == is_conflict(
            disk.drive(ExecutorView::start(plan, false), steps.1).plan[r].entries()[e],
        ),
{
    let rehearsal = lemma_run_gives_the_outcomes(disk, plan, true);
    let actual = lemma_run_gives_the_outcomes(disk, plan, false);
    lemma_runs_find_the_same_conflicts(disk, plan, r, e);
    (rehearsal, actual)
}

} // verus!
