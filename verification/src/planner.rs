//! Building the plan, one request at a time.
//!
//! The planner never touches the disk and never starts a program. It says
//! what it needs to know next ([`Planner::pending`]), is told the answer
//! ([`Planner::record`]), and ends with one outcome for each rule, in
//! declaration order.

use vstd::prelude::*;
use vstd::string::*;
use crate::path::{FilePath, PathView};
use crate::plan::{
    child_path, entry_view, entry_views, misplaced, misplaced_children, outcome_views,
    resolve_by_script, resolve_plainly, resolved_by_script, resolved_plainly, EntryView,
    OutcomeView, PlanEntry, ReplyView, RuleOutcome, ScriptReply,
};
use crate::rule::{copy_rules, rule_views, DestinationStrategy, Rule, RuleView};
use crate::text::texts;

verus! {

/// The model of a [`Listing`].
pub enum ListingView {
    Missing,
    Failed(Seq<char>),
    Children(Seq<Seq<char>>),
}

/// What came of listing a watched directory.
pub enum Listing {
    /// The directory does not exist.
    Missing,
    /// The directory could not be read; the text says why.
    Failed(String),
    /// The names of the directory's children, in listing order.
    Children(Vec<String>),
}

impl View for Listing {
    type V = ListingView;

    open spec fn view(&self) -> ListingView {
        match self {
            Listing::Missing => ListingView::Missing,
            Listing::Failed(cause) => ListingView::Failed(cause@),
            Listing::Children(names) => ListingView::Children(texts(names@)),
        }
    }
}

/// The model of a [`PlanRequest`].
pub enum PlanRequestView {
    List(PathView),
    RunScript { program: Seq<char>, file: PathView },
    Finished,
}

/// What the planner needs to know next.
pub enum PlanRequest {
    /// The children of this directory.
    List(FilePath),
    /// What this program prints for this file.
    RunScript { program: String, file: FilePath },
    /// Nothing: the plan is complete.
    Finished,
}

impl View for PlanRequest {
    type V = PlanRequestView;

    open spec fn view(&self) -> PlanRequestView {
        match self {
            PlanRequest::List(directory) => PlanRequestView::List(directory@),
            PlanRequest::RunScript { program, file } => PlanRequestView::RunScript {
                program: program@,
                file: file@,
            },
            PlanRequest::Finished => PlanRequestView::Finished,
        }
    }
}

/// The model of a [`PlanEvent`].
pub enum PlanEventView {
    Listed(ListingView),
    Scripted(ReplyView),
}

/// The answer to a request of the planner.
pub enum PlanEvent {
    Listed(Listing),
    Scripted(ScriptReply),
}

impl View for PlanEvent {
    type V = PlanEventView;

    open spec fn view(&self) -> PlanEventView {
        match self {
            PlanEvent::Listed(listing) => PlanEventView::Listed(listing@),
            PlanEvent::Scripted(reply) => PlanEventView::Scripted(reply@),
        }
    }
}

/// The entries of a rule that needs no program, for the misplaced children
/// `names`.
pub open spec fn plain_entries(rule: RuleView, names: Seq<Seq<char>>) -> Seq<EntryView> {
    names.map_values(
        |name: Seq<char>| resolved_plainly(rule, child_path(rule.directory, name))->0,
    )
}

/// The outcome of a rule that needs no program, or of any rule whose
/// directory holds no misplaced child, from the listing of its directory.
pub open spec fn listed_outcome(rule: RuleView, listing: ListingView) -> OutcomeView {
    match listing {
        ListingView::Missing => OutcomeView::DirectoryMissing { rule },
        ListingView::Failed(cause) => OutcomeView::ListingFailed { rule, cause },
        ListingView::Children(names) => OutcomeView::Resolved {
            rule,
            entries: if rule.uses_script() {
                Seq::empty()
            } else {
                plain_entries(rule, misplaced(rule.matcher, names))
            },
        },
    }
}

/// The model of a [`Planner`]: the rules, the outcomes of the rules done so
/// far, and for a rule whose program is being asked the misplaced children
/// and the entries made so far.
pub struct PlannerView {
    pub rules: Seq<RuleView>,
    pub done: Seq<OutcomeView>,
    pub waiting: Seq<Seq<char>>,
    pub entries: Seq<EntryView>,
}

impl PlannerView {
    /// The state before anything is known.
    pub open spec fn start(rules: Seq<RuleView>) -> PlannerView {
        PlannerView { rules, done: Seq::empty(), waiting: Seq::empty(), entries: Seq::empty() }
    }

    /// Outcomes exist for a prefix of the rules, and children wait only for
    /// the program of the rule that comes next.
    pub open spec fn wf(self) -> bool {
        &&& self.done.len() <= self.rules.len()
        &&& self.waiting.len() == 0 ==> self.entries.len() == 0
        &&& self.waiting.len() > 0 ==> {
            &&& self.done.len() < self.rules.len()
            &&& self.rules[self.done.len() as int].uses_script()
            &&& self.entries.len() < self.waiting.len()
        }
    }

    /// Whether every rule has its outcome.
    pub open spec fn finished(self) -> bool {
        self.done.len() >= self.rules.len()
    }

    /// The rule that is being worked on.
    pub open spec fn current(self) -> RuleView {
        self.rules[self.done.len() as int]
    }

    /// What needs to be known next.
    pub open spec fn request(self) -> PlanRequestView {
        if self.finished() {
            PlanRequestView::Finished
        } else if self.waiting.len() == 0 {
            PlanRequestView::List(self.current().directory)
        } else {
            PlanRequestView::RunScript {
                program: self.current().destination->Script_0,
                file: child_path(self.current().directory, self.waiting[self.entries.len() as int]),
            }
        }
    }

    /// Whether `event` answers the pending request.
    pub open spec fn accepts(self, event: PlanEventView) -> bool {
        match (self.request(), event) {
            (PlanRequestView::List(_), PlanEventView::Listed(_)) => true,
            (PlanRequestView::RunScript { .. }, PlanEventView::Scripted(_)) => true,
            _ => false,
        }
    }

    /// The state with the current rule closed by `outcome`.
    pub open spec fn close(self, outcome: OutcomeView) -> PlannerView {
        PlannerView {
            rules: self.rules,
            done: self.done.push(outcome),
            waiting: Seq::empty(),
            entries: Seq::empty(),
        }
    }

    /// The state after `event`. An event that does not answer the pending
    /// request changes nothing.
    pub open spec fn step(self, event: PlanEventView) -> PlannerView {
        if !self.accepts(event) {
            self
        } else {
            let rule = self.current();
            match event {
                PlanEventView::Listed(listing) => {
                    let stray = match listing {
                        ListingView::Children(names) => misplaced(rule.matcher, names),
                        _ => Seq::empty(),
                    };
                    if rule.uses_script() && stray.len() > 0 {
                        PlannerView {
                            rules: self.rules,
                            done: self.done,
                            waiting: stray,
                            entries: Seq::empty(),
                        }
                    } else {
                        self.close(listed_outcome(rule, listing))
                    }
                },
                PlanEventView::Scripted(reply) => {
                    let file = child_path(rule.directory, self.waiting[self.entries.len() as int]);
                    let entries = self.entries.push(
                        resolved_by_script(rule.directory, file, reply),
                    );
                    if entries.len() == self.waiting.len() {
                        self.close(OutcomeView::Resolved { rule, entries })
                    } else {
                        PlannerView {
                            rules: self.rules,
                            done: self.done,
                            waiting: self.waiting,
                            entries,
                        }
                    }
                },
            }
        }
    }
}

/// Builds the plan for a sequence of rules from the answers it is given.
pub struct Planner {
    rules: Vec<Rule>,
    done: Vec<RuleOutcome>,
    waiting: Vec<String>,
    entries: Vec<PlanEntry>,
}

impl View for Planner {
    type V = PlannerView;

    closed spec fn view(&self) -> PlannerView {
        PlannerView {
            rules: rule_views(self.rules@),
            done: outcome_views(self.done@),
            waiting: texts(self.waiting@),
            entries: entry_views(self.entries@),
        }
    }
}

fn resolve_all(rule: &Rule, names: &Vec<String>) -> (out: Vec<PlanEntry>)
    requires
        !rule@.uses_script(),
    ensures
        entry_views(out@) == plain_entries(rule@, texts(names@)),
{
    let mut out: Vec<PlanEntry> = Vec::new();
    let mut i: usize = 0;
    while i < names.len()
        invariant
            i <= names.len(),
            !rule@.uses_script(),
            entry_views(out@) == plain_entries(rule@, texts(names@).subrange(0, i as int)),
        decreases names.len() - i,
    {
        let ghost before = entry_views(out@);
        let file = rule.directory.join(&FilePath::parse(names[i].as_str()));
        match resolve_plainly(rule, &file) {
            Some(entry) => {
                out.push(entry);
                assert(entry_views(out@) =~= before.push(entry_view(entry)));
            },
            None => {},
        }
        i = i + 1;
        assert(before.push(resolved_plainly(rule@, file@)->0) =~= plain_entries(
            rule@,
            texts(names@).subrange(0, i as int),
        ));
    }
    assert(texts(names@).subrange(0, i as int) =~= texts(names@));
    out
}

impl Planner {
    #[verifier::type_invariant]
    spec fn inv(self) -> bool {
        self@.wf()
    }

    /// A planner for `rules`, with nothing known yet.
    pub fn new(rules: &Vec<Rule>) -> (out: Planner)
        ensures
            out@ == PlannerView::start(rule_views(rules@)),
            out@.wf(),
    {
        let done: Vec<RuleOutcome> = Vec::new();
        let waiting: Vec<String> = Vec::new();
        let entries: Vec<PlanEntry> = Vec::new();
        assert(outcome_views(done@) =~= Seq::<OutcomeView>::empty());
        assert(texts(waiting@) =~= Seq::<Seq<char>>::empty());
        assert(entry_views(entries@) =~= Seq::<EntryView>::empty());
        Planner { rules: copy_rules(rules), done, waiting, entries }
    }

    /// What needs to be known next.
    pub fn pending(&self) -> (out: PlanRequest)
        ensures
            out@ == self@.request(),
            self@.wf(),
    {
        proof {
            use_type_invariant(self);
        }
        let k = self.done.len();
        if k >= self.rules.len() {
            PlanRequest::Finished
        } else if self.waiting.len() == 0 {
            PlanRequest::List(self.rules[k].directory.clone())
        } else {
            let rule = &self.rules[k];
            let name = &self.waiting[self.entries.len()];
            let file = rule.directory.join(&FilePath::parse(name.as_str()));
            match &rule.destination {
                DestinationStrategy::Script(program) => PlanRequest::RunScript {
                    program: program.clone(),
                    file,
                },
                _ => PlanRequest::Finished,
            }
        }
    }

    /// Whether every rule has its outcome.
    pub fn is_finished(&self) -> (out: bool)
        ensures
            out == self@.finished(),
    {
        self.done.len() >= self.rules.len()
    }

    /// Takes in the answer to the pending request. An event that does not
    /// answer it is ignored.
    pub fn record(self, event: PlanEvent) -> (out: Planner)
        ensures
            out@ == self@.step(event@),
            out@.wf(),
    {
        proof {
            use_type_invariant(&self);
        }
        let ghost old_view = self@;
        let Planner { rules, mut done, waiting, mut entries } = self;
        let k = done.len();
        if k >= rules.len() {
            return Planner { rules, done, waiting, entries };
        }
        let ghost rule_view = rules@[k as int]@;
        assert(rule_view == old_view.current());
        match event {
            PlanEvent::Listed(listing) => {
                if waiting.len() > 0 {
                    return Planner { rules, done, waiting, entries };
                }
                let rule = rules[k].clone();
                let ghost before = outcome_views(done@);
                let outcome = match listing {
                    Listing::Missing => RuleOutcome::DirectoryMissing { rule },
                    Listing::Failed(cause) => RuleOutcome::ListingFailed { rule, cause },
                    Listing::Children(names) => {
                        let stray = misplaced_children(&rule, &names);
                        if rule.uses_script() {
                            if stray.len() > 0 {
                                let fresh: Vec<PlanEntry> = Vec::new();
                                assert(entry_views(fresh@) =~= Seq::<EntryView>::empty());
                                return Planner { rules, done, waiting: stray, entries: fresh };
                            }
                            let none: Vec<PlanEntry> = Vec::new();
                            assert(entry_views(none@) =~= Seq::<EntryView>::empty());
                            RuleOutcome::Resolved { rule, entries: none }
                        } else {
                            let all = resolve_all(&rule, &stray);
                            RuleOutcome::Resolved { rule, entries: all }
                        }
                    },
                };
                assert(outcome@ == listed_outcome(rule_view, listing@));
                done.push(outcome);
                assert(outcome_views(done@) =~= before.push(outcome@));
                let fresh: Vec<PlanEntry> = Vec::new();
                assert(entry_views(fresh@) =~= Seq::<EntryView>::empty());
                assert(texts(waiting@) =~= Seq::<Seq<char>>::empty());
                let out = Planner { rules, done, waiting, entries: fresh };
                assert(out@ == old_view.close(listed_outcome(rule_view, listing@)));
                assert(old_view.accepts(event@));
                out
            },
            PlanEvent::Scripted(reply) => {
                if waiting.len() == 0 {
                    return Planner { rules, done, waiting, entries };
                }
                let ghost before = entry_views(entries@);
                assert(old_view.accepts(event@));
                assert(texts(waiting@)[entries.len() as int] == waiting@[entries.len() as int]@);
                let file = rules[k].directory.join(&FilePath::parse(waiting[entries.len()].as_str()));
                assert(file@ == child_path(
                    rule_view.directory,
                    old_view.waiting[old_view.entries.len() as int],
                ));
                let entry = resolve_by_script(&rules[k].directory, &file, &reply);
                entries.push(entry);
                assert(entry_views(entries@) =~= before.push(entry_view(entry)));
                if entries.len() == waiting.len() {
                    let ghost closed = outcome_views(done@);
                    let outcome = RuleOutcome::Resolved { rule: rules[k].clone(), entries };
                    done.push(outcome);
                    assert(outcome_views(done@) =~= closed.push(outcome@));
                    let idle: Vec<String> = Vec::new();
                    let fresh: Vec<PlanEntry> = Vec::new();
                    assert(texts(idle@) =~= Seq::<Seq<char>>::empty());
                    assert(entry_views(fresh@) =~= Seq::<EntryView>::empty());
                    Planner { rules, done, waiting: idle, entries: fresh }
                } else {
                    Planner { rules, done, waiting, entries }
                }
            },
        }
    }

    /// The outcomes made so far: one for each rule once the planner has
    /// finished.
    pub fn into_plan(self) -> (out: Vec<RuleOutcome>)
        ensures
            outcome_views(out@) == self@.done,
    {
        self.done
    }
}

/// Every step keeps the planner's state well formed.
pub proof fn lemma_step_keeps_wf(state: PlannerView, event: PlanEventView)
    requires
        state.wf(),
    ensures
        state.step(event).wf(),
{
}

/// A step never changes the outcome of a rule that is already done, and
/// never reorders rules: the outcomes made so far stay a prefix of those
/// made later.
pub proof fn lemma_step_extends_done(state: PlannerView, event: PlanEventView)
    requires
        state.wf(),
    ensures
        state.step(event).rules == state.rules,
        state.done.len() <= state.step(event).done.len() <= state.done.len() + 1,
        state.step(event).done.subrange(0, state.done.len() as int) == state.done,
        state.step(event).done.len() > state.done.len() ==> state.step(event).done.last().rule()
            == state.current(),
{
    let next = state.step(event);
    assert(next.done.subrange(0, state.done.len() as int) =~= state.done);
}

} // verus!
