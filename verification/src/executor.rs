//! Carrying out a plan, one request at a time.
//!
//! The executor never touches the disk. It says which step is due
//! ([`Executor::pending`]), is told how the step went
//! ([`Executor::record`]), and keeps the plan up to date: a resolved entry
//! whose move could not be made becomes an error, every other entry stays as
//! it was.

use vstd::prelude::*;
use vstd::string::*;
use crate::path::{FilePath, PathView};
use crate::plan::{
    entry_view, entry_views, outcome_views, EntryError, ErrorView, MoveView, OutcomeView,
    RuleOutcome,
};

verus! {

/// How far the entry under the cursor has come.
#[derive(Clone, Copy, PartialEq, Eq, Structural, Debug)]
pub enum Stage {
    /// The directory to move into has yet to be created.
    Preparing,
    /// Whether something is at the destination has yet to be found out.
    Probing,
    /// The destination is free; the move has yet to be made.
    Moving,
}

/// The model of an [`FsRequest`].
pub enum FsRequestView {
    CreateDirectories(PathView),
    Probe(PathView),
    Rename { from: PathView, to: PathView },
    Finished,
}

/// The step that is due.
pub enum FsRequest {
    /// Create this directory and those above it.
    CreateDirectories(FilePath),
    /// Find out whether something is at this path.
    Probe(FilePath),
    /// Move the file.
    Rename { from: FilePath, to: FilePath },
    /// Nothing: every entry is settled.
    Finished,
}

impl View for FsRequest {
    type V = FsRequestView;

    open spec fn view(&self) -> FsRequestView {
        match self {
            FsRequest::CreateDirectories(directory) => FsRequestView::CreateDirectories(
                directory@,
            ),
            FsRequest::Probe(path) => FsRequestView::Probe(path@),
            FsRequest::Rename { from, to } => FsRequestView::Rename { from: from@, to: to@ },
            FsRequest::Finished => FsRequestView::Finished,
        }
    }
}

/// The model of an [`FsEvent`].
pub enum FsEventView {
    Prepared,
    PrepareFailed(Seq<char>),
    Present,
    Absent,
    ProbeFailed(Seq<char>),
    Moved,
    MoveFailed(Seq<char>),
}

/// How a step went.
pub enum FsEvent {
    /// The directory exists now.
    Prepared,
    /// The directory could not be created; the text says why.
    PrepareFailed(String),
    /// Something is at the destination.
    Present,
    /// Nothing is at the destination.
    Absent,
    /// The destination could not be looked at; the text says why.
    ProbeFailed(String),
    /// The file was moved.
    Moved,
    /// The file could not be moved; the text says why.
    MoveFailed(String),
}

impl View for FsEvent {
    type V = FsEventView;

    open spec fn view(&self) -> FsEventView {
        match self {
            FsEvent::Prepared => FsEventView::Prepared,
            FsEvent::PrepareFailed(cause) => FsEventView::PrepareFailed(cause@),
            FsEvent::Present => FsEventView::Present,
            FsEvent::Absent => FsEventView::Absent,
            FsEvent::ProbeFailed(cause) => FsEventView::ProbeFailed(cause@),
            FsEvent::Moved => FsEventView::Moved,
            FsEvent::MoveFailed(cause) => FsEventView::MoveFailed(cause@),
        }
    }
}

/// Whether the plan holds a resolved entry at rule `r`, entry `e`.
pub open spec fn is_open(plan: Seq<OutcomeView>, r: int, e: int) -> bool {
    0 <= r < plan.len() && 0 <= e < plan[r].entries().len() && plan[r].entries()[e] is Ok
}

/// The first resolved entry at or after rule `r`, entry `e`, in plan order;
/// the end of the plan where there is none.
pub open spec fn seek(plan: Seq<OutcomeView>, r: int, e: int) -> (int, int)
    decreases plan.len() - r, plan[r].entries().len() - e,
{
    if r < 0 || e < 0 || r >= plan.len() {
        (plan.len() as int, 0)
    } else if e >= plan[r].entries().len() {
        seek(plan, r + 1, 0)
    } else if plan[r].entries()[e] is Ok {
        (r, e)
    } else {
        seek(plan, r, e + 1)
    }
}

/// The stage at which work on a move begins: the directory is created
/// first, unless this is a dry run or the destination has no directory
/// above it.
pub open spec fn first_stage(resolved: MoveView, dry_run: bool) -> Stage {
    if !dry_run && resolved.move_to.parent() is Some {
        Stage::Preparing
    } else {
        Stage::Probing
    }
}

/// The plan with the entry at rule `r`, entry `e` replaced by `error`.
pub open spec fn downgraded(plan: Seq<OutcomeView>, r: int, e: int, error: ErrorView) -> Seq<
    OutcomeView,
> {
    plan.update(
        r,
        OutcomeView::Resolved {
            rule: plan[r].rule(),
            entries: plan[r].entries().update(e, Err(error)),
        },
    )
}

/// The model of an [`Executor`]: the plan as it stands, the mode, the
/// position of the entry being worked on, and how far that work has come.
pub struct ExecutorView {
    pub plan: Seq<OutcomeView>,
    pub dry_run: bool,
    pub rule: int,
    pub entry: int,
    pub stage: Stage,
}

impl ExecutorView {
    /// The state whose cursor rests on the first resolved entry at or after
    /// rule `r`, entry `e`.
    pub open spec fn arrive(plan: Seq<OutcomeView>, dry_run: bool, r: int, e: int)
        -> ExecutorView {
        let at = seek(plan, r, e);
        ExecutorView {
            plan,
            dry_run,
            rule: at.0,
            entry: at.1,
            stage: if at.0 < plan.len() {
                first_stage(plan[at.0].entries()[at.1]->Ok_0, dry_run)
            } else {
                Stage::Probing
            },
        }
    }

    /// The state before anything is done.
    pub open spec fn start(plan: Seq<OutcomeView>, dry_run: bool) -> ExecutorView {
        ExecutorView::arrive(plan, dry_run, 0, 0)
    }

    /// Whether every entry is settled.
    pub open spec fn finished(self) -> bool {
        self.rule >= self.plan.len()
    }

    /// The move under the cursor.
    pub open spec fn current(self) -> MoveView {
        self.plan[self.rule].entries()[self.entry]->Ok_0
    }

    /// The cursor rests on a resolved entry or at the end of the plan, and a
    /// dry run is never at a stage that changes the disk.
    pub open spec fn wf(self) -> bool {
        if self.finished() {
            self.rule == self.plan.len() && self.entry == 0 && self.stage == Stage::Probing
        } else {
            &&& is_open(self.plan, self.rule, self.entry)
            &&& self.stage == Stage::Preparing ==> !self.dry_run
                && self.current().move_to.parent() is Some
            &&& self.stage == Stage::Moving ==> !self.dry_run
        }
    }

    /// The step that is due.
    pub open spec fn request(self) -> FsRequestView {
        if self.finished() {
            FsRequestView::Finished
        } else {
            match self.stage {
                Stage::Preparing => FsRequestView::CreateDirectories(
                    self.current().move_to.parent()->0,
                ),
                Stage::Probing => FsRequestView::Probe(self.current().move_to),
                Stage::Moving => FsRequestView::Rename {
                    from: self.current().file,
                    to: self.current().move_to,
                },
            }
        }
    }

    /// The state with the entry under the cursor left as it is and the
    /// cursor moved on.
    pub open spec fn pass(self) -> ExecutorView {
        ExecutorView::arrive(self.plan, self.dry_run, self.rule, self.entry + 1)
    }

    /// The state with the entry under the cursor turned into `error` and the
    /// cursor moved on.
    pub open spec fn fail(self, error: ErrorView) -> ExecutorView {
        ExecutorView::arrive(
            downgraded(self.plan, self.rule, self.entry, error),
            self.dry_run,
            self.rule,
            self.entry + 1,
        )
    }

    /// The state with the cursor where it is, at another stage.
    pub open spec fn at_stage(self, stage: Stage) -> ExecutorView {
        ExecutorView {
            plan: self.plan,
            dry_run: self.dry_run,
            rule: self.rule,
            entry: self.entry,
            stage,
        }
    }

    /// The state after `event`. An event that does not report on the step
    /// that is due changes nothing.
    pub open spec fn step(self, event: FsEventView) -> ExecutorView {
        if self.finished() {
            self
        } else {
            let resolved = self.current();
            match (self.stage, event) {
                (Stage::Preparing, FsEventView::Prepared) => self.at_stage(Stage::Probing),
                (Stage::Preparing, FsEventView::PrepareFailed(cause)) => self.fail(
                    ErrorView::DirCreateFailed {
                        directory: resolved.move_to.parent()->0,
                        cause,
                    },
                ),
                (Stage::Probing, FsEventView::Present) => self.fail(
                    ErrorView::OverwriteConflict { destination: resolved.move_to },
                ),
                (Stage::Probing, FsEventView::Absent) => if self.dry_run {
                    self.pass()
                } else {
                    self.at_stage(Stage::Moving)
                },
                (Stage::Probing, FsEventView::ProbeFailed(cause)) => self.fail(
                    ErrorView::ProbeFailed { destination: resolved.move_to, cause },
                ),
                (Stage::Moving, FsEventView::Moved) => self.pass(),
                (Stage::Moving, FsEventView::MoveFailed(cause)) => self.fail(
                    ErrorView::MoveFailed {
                        file: resolved.file,
                        destination: resolved.move_to,
                        cause,
                    },
                ),
                _ => self,
            }
        }
    }
}

/// Where `seek` ends: on a resolved entry at or after the place it started
/// from, or at the end of the plan.
pub proof fn lemma_seek_lands(plan: Seq<OutcomeView>, r: int, e: int)
    requires
        0 <= r,
        0 <= e,
    ensures
        ({
            let at = seek(plan, r, e);
            if at.0 < plan.len() {
                is_open(plan, at.0, at.1) && (at.0 > r || (at.0 == r && at.1 >= e))
            } else {
                at.0 == plan.len() && at.1 == 0
            }
        }),
    decreases plan.len() - r, plan[r].entries().len() - e,
{
    if r >= plan.len() {
    } else if e >= plan[r].entries().len() {
        lemma_seek_lands(plan, r + 1, 0);
    } else if plan[r].entries()[e] is Ok {
    } else {
        lemma_seek_lands(plan, r, e + 1);
    }
}

/// `seek` looks only at the entries from its starting place on: two plans of
/// one length that agree on the number of entries of each rule and on
/// whether each later entry is resolved send it to the same place.
pub proof fn lemma_seek_ignores_earlier(
    first: Seq<OutcomeView>,
    second: Seq<OutcomeView>,
    r: int,
    e: int,
)
    requires
        0 <= r,
        0 <= e,
        first.len() == second.len(),
        forall|i: int|
            0 <= i < first.len() ==> (#[trigger] first[i]).entries().len() == second[i].entries().len(),
        forall|i: int, j: int|
            0 <= i < first.len() && 0 <= j < first[i].entries().len() && (i > r || (i == r && j
                >= e)) ==> (#[trigger] first[i].entries()[j] is Ok) == (second[i].entries()[j] is Ok),
    ensures
        seek(first, r, e) == seek(second, r, e),
    decreases first.len() - r, first[r].entries().len() - e,
{
    if r >= first.len() {
    } else if e >= first[r].entries().len() {
        lemma_seek_ignores_earlier(first, second, r + 1, 0);
    } else if first[r].entries()[e] is Ok {
        assert(second[r].entries()[e] is Ok);
    } else {
        assert(!(second[r].entries()[e] is Ok));
        lemma_seek_ignores_earlier(first, second, r, e + 1);
    }
}

/// Every step keeps the executor's state well formed.
pub proof fn lemma_step_keeps_wf(state: ExecutorView, event: FsEventView)
    requires
        state.wf(),
    ensures
        state.step(event).wf(),
{
    if !state.finished() {
        let r = state.rule;
        let e = state.entry;
        lemma_seek_lands(state.plan, r, e + 1);
        assert forall|error: ErrorView| (#[trigger] state.fail(error)).wf() by {
            lemma_seek_lands(downgraded(state.plan, r, e, error), r, e + 1);
        }
    }
}

/// Entry isolation, first half: a step changes at most the entry under the
/// cursor. Every other entry of every rule, and every rule itself, is after
/// the step what it was before, whatever the step reported.
pub proof fn lemma_step_touches_one_entry(state: ExecutorView, event: FsEventView, r: int, e: int)
    requires
        state.wf(),
        0 <= r < state.plan.len(),
        0 <= e < state.plan[r].entries().len(),
        r != state.rule || e != state.entry,
    ensures
        state.step(event).plan.len() == state.plan.len(),
        state.step(event).plan[r].rule() == state.plan[r].rule(),
        state.step(event).plan[r].entries().len() == state.plan[r].entries().len(),
        state.step(event).plan[r].entries()[e] == state.plan[r].entries()[e],
{
}

/// Entry isolation, second half: which entry is worked on next, and from
/// which stage, does not depend on how the entry under the cursor ended.
/// After a failure the cursor rests where it would rest after a success.
pub proof fn lemma_failure_does_not_block(state: ExecutorView, error: ErrorView)
    requires
        state.wf(),
        !state.finished(),
    ensures
        state.fail(error).rule == state.pass().rule,
        state.fail(error).entry == state.pass().entry,
        state.fail(error).stage == state.pass().stage,
        state.fail(error).request() == state.pass().request(),
{
    let r = state.rule;
    let e = state.entry;
    let plan = state.plan;
    let changed = downgraded(plan, r, e, error);
    assert forall|i: int| 0 <= i < plan.len() implies (#[trigger] plan[i]).entries().len()
        == changed[i].entries().len() by {}
    assert forall|i: int, j: int|
        0 <= i < plan.len() && 0 <= j < plan[i].entries().len() && (i > r || (i == r && j >= e
            + 1)) implies (#[trigger] plan[i].entries()[j] is Ok) == (changed[i].entries()[j]
        is Ok) by {}
    lemma_seek_ignores_earlier(plan, changed, r, e + 1);
    lemma_seek_lands(plan, r, e + 1);
    let at = seek(plan, r, e + 1);
    if at.0 < plan.len() {
        assert(changed[at.0].entries()[at.1] == plan[at.0].entries()[at.1]);
    }
}

/// No accidental overwrite: when something is found at the destination, the
/// entry becomes an overwrite conflict, the cursor leaves it, and the step
/// that is due next is not the move of that file. This holds in a dry run
/// and in a real one.
pub proof fn lemma_present_destination_is_never_overwritten(state: ExecutorView)
    requires
        state.wf(),
        !state.finished(),
        state.stage == Stage::Probing,
    ensures
        ({
            let next = state.step(FsEventView::Present);
            &&& next.plan[state.rule].entries()[state.entry] == Err::<MoveView, ErrorView>(
                ErrorView::OverwriteConflict { destination: state.current().move_to },
            )
            &&& next.rule > state.rule || (next.rule == state.rule && next.entry > state.entry)
            &&& next.wf()
        }),
{
    let error = ErrorView::OverwriteConflict { destination: state.current().move_to };
    lemma_seek_lands(downgraded(state.plan, state.rule, state.entry, error), state.rule, state.entry + 1);
}

/// A move is asked for only after its destination was found free: the step
/// that is due is a rename only at the stage that follows an `Absent`
/// report.
pub proof fn lemma_rename_follows_absent(state: ExecutorView, event: FsEventView)
    requires
        state.wf(),
        state.step(event).request() is Rename,
        !(state.request() is Rename),
    ensures
        event is Absent,
        state.stage == Stage::Probing,
        !state.dry_run,
        state.step(event).rule == state.rule,
        state.step(event).entry == state.entry,
{
    if !state.finished() {
        let r = state.rule;
        let e = state.entry;
        lemma_seek_lands(state.plan, r, e + 1);
        assert forall|error: ErrorView| !(#[trigger] state.fail(error).request() is Rename) by {
            lemma_seek_lands(downgraded(state.plan, r, e, error), r, e + 1);
        }
    }
}

/// Dry-run and real-run parity: once the destination is looked at, the
/// entry becomes an overwrite conflict exactly when something is there, in
/// either mode.
pub proof fn lemma_conflicts_do_not_depend_on_mode(
    rehearsal: ExecutorView,
    actual: ExecutorView,
    event: FsEventView,
)
    requires
        rehearsal.wf(),
        actual.wf(),
        rehearsal.dry_run,
        !actual.dry_run,
        rehearsal.plan == actual.plan,
        rehearsal.rule == actual.rule,
        rehearsal.entry == actual.entry,
        !rehearsal.finished(),
        rehearsal.stage == Stage::Probing,
        actual.stage == Stage::Probing,
    ensures
        rehearsal.step(event).plan[rehearsal.rule].entries()[rehearsal.entry] matches Err(
            ErrorView::OverwriteConflict { .. },
        ) <==> event is Present,
        actual.step(event).plan[actual.rule].entries()[actual.entry] matches Err(
            ErrorView::OverwriteConflict { .. },
        ) <==> event is Present,
{
}

/// A dry run asks for nothing that changes the disk: the step that is due is
/// a look at a destination, or nothing.
pub proof fn lemma_dry_run_only_probes(state: ExecutorView)
    requires
        state.wf(),
        state.dry_run,
    ensures
        state.request() is Probe || state.request() is Finished,
{
}

/// A rule whose directory was missing or unreadable is reported as it was
/// planned: no step changes it, and none asks anything for it.
pub proof fn lemma_skipped_rules_stay(state: ExecutorView, event: FsEventView, r: int)
    requires
        state.wf(),
        0 <= r < state.plan.len(),
        !(state.plan[r] is Resolved),
    ensures
        state.step(event).plan[r] == state.plan[r],
        state.rule != r,
{
}

proof fn lemma_entries_fit(outcome: RuleOutcome)
    ensures
        outcome@.entries().len() <= usize::MAX,
{
    match outcome {
        RuleOutcome::Resolved { rule, entries } => {
            assert(entry_views(entries@).len() == entries.len());
        },
        _ => {},
    }
}

fn seek_from(plan: &Vec<RuleOutcome>, r: usize, e: usize) -> (out: (usize, usize))
    ensures
        (out.0 as int, out.1 as int) == seek(outcome_views(plan@), r as int, e as int),
    decreases plan.len() - r, outcome_views(plan@)[r as int].entries().len() - e,
{
    if r >= plan.len() {
        return (plan.len(), 0);
    }
    assert(outcome_views(plan@)[r as int] == plan@[r as int]@);
    match &plan[r] {
        RuleOutcome::Resolved { entries, .. } => {
            assert(outcome_views(plan@)[r as int].entries() == entry_views(entries@));
            if e >= entries.len() {
                seek_from(plan, r + 1, 0)
            } else {
                assert(entry_views(entries@)[e as int] == entry_view(entries@[e as int]));
                match &entries[e] {
                    Ok(_) => (r, e),
                    Err(_) => seek_from(plan, r, e + 1),
                }
            }
        },
        _ => seek_from(plan, r + 1, 0),
    }
}

/// Carries out a plan from the reports it is given.
pub struct Executor {
    plan: Vec<RuleOutcome>,
    dry_run: bool,
    rule: usize,
    entry: usize,
    stage: Stage,
}

impl View for Executor {
    type V = ExecutorView;

    closed spec fn view(&self) -> ExecutorView {
        ExecutorView {
            plan: outcome_views(self.plan@),
            dry_run: self.dry_run,
            rule: self.rule as int,
            entry: self.entry as int,
            stage: self.stage,
        }
    }
}

impl Executor {
    #[verifier::type_invariant]
    spec fn inv(self) -> bool {
        self@.wf()
    }

    fn arrive(plan: Vec<RuleOutcome>, dry_run: bool, r: usize, e: usize) -> (out: Executor)
        ensures
            out@ == ExecutorView::arrive(outcome_views(plan@), dry_run, r as int, e as int),
    {
        let at = seek_from(&plan, r, e);
        proof {
            lemma_seek_lands(outcome_views(plan@), r as int, e as int);
        }
        let mut stage = Stage::Probing;
        if at.0 < plan.len() {
            assert(outcome_views(plan@)[at.0 as int] == plan@[at.0 as int]@);
            match &plan[at.0] {
                RuleOutcome::Resolved { entries, .. } => {
                    assert(entry_views(entries@)[at.1 as int] == entry_view(entries@[at.1 as int]));
                    match &entries[at.1] {
                        Ok(resolved) => {
                            if !dry_run && resolved.move_to().depth() > 0 {
                                stage = Stage::Preparing;
                            }
                        },
                        Err(_) => {},
                    }
                },
                _ => {},
            }
        }
        Executor { plan, dry_run, rule: at.0, entry: at.1, stage }
    }

    /// An executor for `plan`; a dry run leaves the disk alone.
    pub fn new(plan: Vec<RuleOutcome>, dry_run: bool) -> (out: Executor)
        ensures
            out@ == ExecutorView::start(outcome_views(plan@), dry_run),
            out@.wf(),
    {
        let out = Executor::arrive(plan, dry_run, 0, 0);
        proof {
            use_type_invariant(&out);
        }
        out
    }

    /// Whether every entry is settled.
    pub fn is_finished(&self) -> (out: bool)
        ensures
            out == self@.finished(),
    {
        self.rule >= self.plan.len()
    }

    /// Whether this is a dry run.
    pub fn is_dry_run(&self) -> (out: bool)
        ensures
            out == self@.dry_run,
    {
        self.dry_run
    }

    /// The step that is due.
    pub fn pending(&self) -> (out: FsRequest)
        ensures
            out@ == self@.request(),
            self@.wf(),
    {
        proof {
            use_type_invariant(self);
        }
        if self.rule >= self.plan.len() {
            return FsRequest::Finished;
        }
        assert(outcome_views(self.plan@)[self.rule as int] == self.plan@[self.rule as int]@);
        match &self.plan[self.rule] {
            RuleOutcome::Resolved { entries, .. } => {
                assert(entry_views(entries@)[self.entry as int] == entry_view(
                    entries@[self.entry as int],
                ));
                match &entries[self.entry] {
                    Ok(resolved) => match self.stage {
                        Stage::Preparing => match resolved.move_to().parent() {
                            Some(directory) => FsRequest::CreateDirectories(directory),
                            None => FsRequest::Finished,
                        },
                        Stage::Probing => FsRequest::Probe(resolved.move_to().clone()),
                        Stage::Moving => FsRequest::Rename {
                            from: resolved.file().clone(),
                            to: resolved.move_to().clone(),
                        },
                    },
                    Err(_) => FsRequest::Finished,
                }
            },
            _ => FsRequest::Finished,
        }
    }

    fn current(&self) -> (out: (FilePath, FilePath))
        requires
            !self@.finished(),
        ensures
            out.0@ == self@.current().file,
            out.1@ == self@.current().move_to,
    {
        proof {
            use_type_invariant(self);
        }
        assert(outcome_views(self.plan@)[self.rule as int] == self.plan@[self.rule as int]@);
        match &self.plan[self.rule] {
            RuleOutcome::Resolved { entries, .. } => {
                assert(entry_views(entries@)[self.entry as int] == entry_view(
                    entries@[self.entry as int],
                ));
                match &entries[self.entry] {
                    Ok(resolved) => (resolved.file().clone(), resolved.move_to().clone()),
                    Err(_) => (FilePath::empty(), FilePath::empty()),
                }
            },
            _ => (FilePath::empty(), FilePath::empty()),
        }
    }

    fn pass(self) -> (out: Executor)
        requires
            !self@.finished(),
        ensures
            out@ == self@.pass(),
    {
        proof {
            use_type_invariant(&self);
        }
        let Executor { plan, dry_run, rule, entry, stage } = self;
        assert(outcome_views(plan@)[rule as int] == plan@[rule as int]@);
        proof {
            lemma_entries_fit(plan@[rule as int]);
        }
        Executor::arrive(plan, dry_run, rule, entry + 1)
    }

    fn fail(self, error: EntryError) -> (out: Executor)
        requires
            !self@.finished(),
        ensures
            out@ == self@.fail(error@),
    {
        proof {
            use_type_invariant(&self);
        }
        let Executor { mut plan, dry_run, rule, entry, stage } = self;
        let ghost before = outcome_views(plan@);
        let ghost was = plan@[rule as int];
        assert(before[rule as int] == was@);
        proof {
            lemma_entries_fit(was);
        }
        match &mut plan[rule] {
            RuleOutcome::Resolved { entries, .. } => {
                let ghost old_entries = entry_views(entries@);
                entries[entry] = Err(error);
                assert(entry_views(entries@) =~= old_entries.update(entry as int, Err(error@)));
            },
            _ => {},
        }
        assert(plan@[rule as int]@ == (OutcomeView::Resolved {
            rule: was@.rule(),
            entries: was@.entries().update(entry as int, Err(error@)),
        }));
        assert(outcome_views(plan@) =~= downgraded(before, rule as int, entry as int, error@));
        Executor::arrive(plan, dry_run, rule, entry + 1)
    }

    /// Takes in the report on the step that is due. A report on another
    /// step is ignored.
    pub fn record(self, event: FsEvent) -> (out: Executor)
        ensures
            out@ == self@.step(event@),
            out@.wf(),
    {
        proof {
            use_type_invariant(&self);
            lemma_step_keeps_wf(self@, event@);
        }
        if self.is_finished() {
            return self;
        }
        let (file, destination) = self.current();
        let stage = self.stage;
        match (stage, event) {
            (Stage::Preparing, FsEvent::Prepared) => {
                let Executor { plan, dry_run, rule, entry, stage } = self;
                Executor { plan, dry_run, rule, entry, stage: Stage::Probing }
            },
            (Stage::Preparing, FsEvent::PrepareFailed(cause)) => {
                match destination.parent() {
                    Some(directory) => self.fail(EntryError::DirCreateFailed { directory, cause }),
                    None => self,
                }
            },
            (Stage::Probing, FsEvent::Present) => self.fail(
                EntryError::OverwriteConflict { destination },
            ),
            (Stage::Probing, FsEvent::Absent) => {
                if self.dry_run {
                    self.pass()
                } else {
                    let Executor { plan, dry_run, rule, entry, stage } = self;
                    Executor { plan, dry_run, rule, entry, stage: Stage::Moving }
                }
            },
            (Stage::Probing, FsEvent::ProbeFailed(cause)) => self.fail(
                EntryError::ProbeFailed { destination, cause },
            ),
            (Stage::Moving, FsEvent::Moved) => self.pass(),
            (Stage::Moving, FsEvent::MoveFailed(cause)) => self.fail(
                EntryError::MoveFailed { file, destination, cause },
            ),
            _ => self,
        }
    }

    /// The plan as it stands: once the executor has finished, what became of
    /// every entry.
    pub fn into_outcomes(self) -> (out: Vec<RuleOutcome>)
        ensures
            outcome_views(out@) == self@.plan,
    {
        self.plan
    }
}

} // verus!
