//! What planning comes to when the answers are fixed.
//!
//! A [`World`] says, for every directory, what listing it gives, and for
//! every program and file, what the program does. It stands for the disk and
//! the programs at one moment. The plan that such a world determines is
//! written down directly ([`World::plan`]); the laws here show that a planner
//! whose requests are answered from the world arrives at exactly that plan.

use vstd::prelude::*;
use crate::path::PathView;
use crate::plan::{
    child_path, misplaced, resolved_by_script, EntryView, OutcomeView, ReplyView,
};
use crate::planner::{
    listed_outcome, ListingView, PlanEventView, PlanRequestView, PlannerView,
};
use crate::rule::RuleView;

verus! {

/// The disk and the programs at one moment, as far as planning reads them.
pub struct World {
    /// What listing each directory gives.
    pub listing: spec_fn(PathView) -> ListingView,
    /// What each program does for each file.
    pub script: spec_fn(Seq<char>, PathView) -> ReplyView,
}

impl World {
    /// The answer to a request.
    pub open spec fn answer(self, request: PlanRequestView) -> PlanEventView {
        match request {
            PlanRequestView::RunScript { program, file } => PlanEventView::Scripted(
                (self.script)(program, file),
            ),
            PlanRequestView::List(directory) => PlanEventView::Listed((self.listing)(directory)),
            PlanRequestView::Finished => PlanEventView::Listed(ListingView::Missing),
        }
    }

    /// The entry that a rule's program gives for the child `name`.
    pub open spec fn script_entry(self, rule: RuleView, name: Seq<char>) -> EntryView {
        let file = child_path(rule.directory, name);
        resolved_by_script(rule.directory, file, (self.script)(rule.destination->Script_0, file))
    }

    /// The outcome of one rule.
    pub open spec fn outcome(self, rule: RuleView) -> OutcomeView {
        match (self.listing)(rule.directory) {
            ListingView::Children(names) => if rule.uses_script() {
                OutcomeView::Resolved {
                    rule,
                    entries: misplaced(rule.matcher, names).map_values(
                        |name: Seq<char>| self.script_entry(rule, name),
                    ),
                }
            } else {
                listed_outcome(rule, ListingView::Children(names))
            },
            other => listed_outcome(rule, other),
        }
    }

    /// The plan: the outcome of each rule, in declaration order.
    pub open spec fn plan(self, rules: Seq<RuleView>) -> Seq<OutcomeView> {
        rules.map_values(|rule: RuleView| self.outcome(rule))
    }

    /// The state of a planner after `steps` of its requests were answered
    /// from the world.
    pub open spec fn drive(self, state: PlannerView, steps: nat) -> PlannerView
        decreases steps,
    {
        if steps == 0 {
            state
        } else {
            self.drive(state.step(self.answer(state.request())), (steps - 1) as nat)
        }
    }

    /// Whether a planner's state is what the world gives: the outcomes made
    /// so far are the world's, and so are the children that wait for a
    /// program and the entries made for them.
    pub open spec fn agrees_with(self, state: PlannerView) -> bool {
        &&& state.wf()
        &&& forall|i: int|
            0 <= i < state.done.len() ==> #[trigger] state.done[i] == self.outcome(state.rules[i])
        &&& state.waiting.len() > 0 ==> {
            &&& (self.listing)(state.current().directory) is Children
            &&& state.waiting == misplaced(
                state.current().matcher,
                (self.listing)(state.current().directory)->Children_0,
            )
            &&& forall|j: int|
                0 <= j < state.entries.len() ==> #[trigger] state.entries[j] == self.script_entry(
                    state.current(),
                    state.waiting[j],
                )
        }
    }
}

/// An answer from the world is always taken in, and brings the planner
/// forward: a rule is closed, or one more entry is made for the rule at
/// hand.
pub proof fn lemma_answer_makes_progress(world: World, state: PlannerView)
    requires
        state.wf(),
        !state.finished(),
    ensures
        state.accepts(world.answer(state.request())),
        ({
            let next = state.step(world.answer(state.request()));
            next.done.len() == state.done.len() + 1 || (next.done.len() == state.done.len()
                && next.waiting.len() > 0 && (state.waiting.len() == 0 || next.entries.len()
                == state.entries.len() + 1))
        }),
{
}

/// A step answered from the world keeps the planner in agreement with the
/// world.
pub proof fn lemma_step_agrees(world: World, state: PlannerView)
    requires
        world.agrees_with(state),
    ensures
        world.agrees_with(state.step(world.answer(state.request()))),
{
    let event = world.answer(state.request());
    let next = state.step(event);
    if state.finished() {
    } else {
        let rule = state.current();
        let k = state.done.len() as int;
        if state.waiting.len() == 0 {
            let listing = (world.listing)(rule.directory);
            let stray = match listing {
                ListingView::Children(names) => misplaced(rule.matcher, names),
                _ => Seq::empty(),
            };
            if rule.uses_script() && stray.len() > 0 {
            } else {
                let outcome = listed_outcome(rule, listing);
                assert(outcome == world.outcome(rule)) by {
                    if listing is Children && rule.uses_script() {
                        assert(stray.map_values(|name: Seq<char>| world.script_entry(rule, name))
                            =~= Seq::<EntryView>::empty());
                    }
                }
                assert forall|i: int| 0 <= i < next.done.len() implies #[trigger] next.done[i]
                    == world.outcome(next.rules[i]) by {
                    if i < k {
                        assert(next.done[i] == state.done[i]);
                    }
                }
            }
        } else {
            let n = state.entries.len() as int;
            let entries = state.entries.push(world.script_entry(rule, state.waiting[n]));
            assert forall|j: int| 0 <= j < entries.len() implies #[trigger] entries[j]
                == world.script_entry(rule, state.waiting[j]) by {
                if j < n {
                    assert(entries[j] == state.entries[j]);
                }
            }
            if entries.len() == state.waiting.len() {
                assert(entries =~= state.waiting.map_values(
                    |name: Seq<char>| world.script_entry(rule, name),
                ));
                assert(next.done[k] == world.outcome(rule));
                assert forall|i: int| 0 <= i < next.done.len() implies #[trigger] next.done[i]
                    == world.outcome(next.rules[i]) by {
                    if i < k {
                        assert(next.done[i] == state.done[i]);
                    }
                }
            } else {
                assert(next.entries == entries);
            }
        }
    }
}

/// However many requests are answered from the world, the planner stays in
/// agreement with it.
pub proof fn lemma_drive_agrees(world: World, state: PlannerView, steps: nat)
    requires
        world.agrees_with(state),
    ensures
        world.agrees_with(world.drive(state, steps)),
        world.drive(state, steps).rules == state.rules,
    decreases steps,
{
    if steps > 0 {
        lemma_step_agrees(world, state);
        crate::planner::lemma_step_extends_done(state, world.answer(state.request()));
        lemma_drive_agrees(world, state.step(world.answer(state.request())), (steps - 1) as nat);
    }
}

/// A planner whose requests are answered from the world finishes: the
/// result is a number of steps after which every rule has its outcome.
pub proof fn lemma_planner_finishes(world: World, state: PlannerView) -> (steps: nat)
    requires
        state.wf(),
    ensures
        world.drive(state, steps).finished(),
    decreases
        state.rules.len() - state.done.len(),
        (if state.waiting.len() == 0 { 1int } else { 0int }),
        state.waiting.len() - state.entries.len(),
{
    if state.finished() {
        0
    } else {
        let event = world.answer(state.request());
        let next = state.step(event);
        lemma_answer_makes_progress(world, state);
        crate::planner::lemma_step_keeps_wf(state, event);
        crate::planner::lemma_step_extends_done(state, event);
        let rest = lemma_planner_finishes(world, next);
        (rest + 1) as nat
    }
}

/// Planning against a world ends with the plan that the world determines:
/// the result is a number of steps after which the planner has finished, and
/// its outcomes are then the world's plan for the rules, in declaration
/// order.
pub proof fn lemma_planning_gives_the_plan(world: World, rules: Seq<RuleView>) -> (steps: nat)
    ensures
        world.drive(PlannerView::start(rules), steps).finished(),
        world.drive(PlannerView::start(rules), steps).done == world.plan(rules),
{
    let steps = lemma_planner_finishes(world, PlannerView::start(rules));
    lemma_plan_is_determined_by_the_world(world, rules, steps, steps);
    steps
}

/// Idempotent planning: a planner that starts from `rules` and has its
/// requests answered from a world ends, whenever it ends, with the plan that
/// the world determines. So two runs against the same world, with nothing
/// changed between them, give the same outcomes in the same order.
pub proof fn lemma_plan_is_determined_by_the_world(
    world: World,
    rules: Seq<RuleView>,
    first: nat,
    second: nat,
)
    requires
        world.drive(PlannerView::start(rules), first).finished(),
        world.drive(PlannerView::start(rules), second).finished(),
    ensures
        world.drive(PlannerView::start(rules), first).done == world.plan(rules),
        world.drive(PlannerView::start(rules), second).done == world.plan(rules),
{
    let start = PlannerView::start(rules);
    lemma_drive_agrees(world, start, first);
    lemma_drive_agrees(world, start, second);
    let a = world.drive(start, first);
    let b = world.drive(start, second);
    assert(a.done =~= world.plan(rules));
    assert(b.done =~= world.plan(rules));
}

} // verus!
