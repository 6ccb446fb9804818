//! Placement rules: which children of a watched directory stay, and where
//! the others go.

use vstd::prelude::*;
use vstd::string::*;
use crate::path::{FilePath, PathView};
use crate::seqs::lemma_filter_push;
use crate::text::{copy_texts, ends_with, has_suffix, texts};

verus! {

/// The model of a [`MatchStrategy`].
pub enum MatcherView {
    Nothing,
    Names(Seq<Seq<char>>),
    Suffix(Seq<char>),
}

impl MatcherView {
    /// Whether a child of this name is in its place.
    pub open spec fn keeps(self, name: Seq<char>) -> bool {
        match self {
            MatcherView::Nothing => false,
            MatcherView::Names(names) => names.contains(name),
            MatcherView::Suffix(suffix) => has_suffix(name, suffix),
        }
    }
}

/// Which children of a watched directory are in their place.
pub enum MatchStrategy {
    /// No child belongs in the directory.
    Nothing,
    /// The children with one of these names belong in the directory.
    Names(Vec<String>),
    /// The children whose name ends with this text belong in the directory.
    Suffix(String),
}

impl View for MatchStrategy {
    type V = MatcherView;

    open spec fn view(&self) -> MatcherView {
        match self {
            MatchStrategy::Nothing => MatcherView::Nothing,
            MatchStrategy::Names(names) => MatcherView::Names(texts(names@)),
            MatchStrategy::Suffix(suffix) => MatcherView::Suffix(suffix@),
        }
    }
}

impl Clone for MatchStrategy {
    fn clone(&self) -> (out: Self)
        ensures
            out@ == self@,
    {
        match self {
            MatchStrategy::Nothing => MatchStrategy::Nothing,
            MatchStrategy::Names(names) => MatchStrategy::Names(copy_texts(names)),
            MatchStrategy::Suffix(suffix) => MatchStrategy::Suffix(suffix.clone()),
        }
    }
}

impl MatchStrategy {
    /// Whether a child of this name is in its place.
    pub fn keeps(&self, name: &String) -> (out: bool)
        ensures
            out == self@.keeps(name@),
    {
        match self {
            MatchStrategy::Nothing => false,
            MatchStrategy::Names(names) => {
                let mut i: usize = 0;
                while i < names.len()
                    invariant
                        i <= names.len(),
                        self@ == MatcherView::Names(texts(names@)),
                        forall|k: int| 0 <= k < i ==> texts(names@)[k] != name@,
                    decreases names.len() - i,
                {
                    if names[i] == *name {
                        assert(texts(names@).len() == names.len());
                        assert(texts(names@)[i as int] == name@);
                        return true;
                    }
                    i = i + 1;
                }
                false
            },
            MatchStrategy::Suffix(suffix) => ends_with(name.as_str(), suffix.as_str()),
        }
    }
}

/// The model of a [`DestinationStrategy`].
pub enum DestinationView {
    Fixed(PathView),
    ByExtension,
    Script(Seq<char>),
}

/// Where the misplaced children of a watched directory go.
pub enum DestinationStrategy {
    /// Into this directory, taken relative to the watched one.
    Fixed(FilePath),
    /// Into the subdirectory of the watched one that is named after the
    /// child's extension.
    ByExtension,
    /// Into the directory that this program prints for the child.
    Script(String),
}

impl View for DestinationStrategy {
    type V = DestinationView;

    open spec fn view(&self) -> DestinationView {
        match self {
            DestinationStrategy::Fixed(to) => DestinationView::Fixed(to@),
            DestinationStrategy::ByExtension => DestinationView::ByExtension,
            DestinationStrategy::Script(program) => DestinationView::Script(program@),
        }
    }
}

impl Clone for DestinationStrategy {
    fn clone(&self) -> (out: Self)
        ensures
            out@ == self@,
    {
        match self {
            DestinationStrategy::Fixed(to) => DestinationStrategy::Fixed(to.clone()),
            DestinationStrategy::ByExtension => DestinationStrategy::ByExtension,
            DestinationStrategy::Script(program) => DestinationStrategy::Script(program.clone()),
        }
    }
}

/// The model of a [`Rule`].
pub struct RuleView {
    pub directory: PathView,
    pub custom_name: Option<Seq<char>>,
    pub matcher: MatcherView,
    pub destination: DestinationView,
}

impl RuleView {
    /// The watched directory is an absolute, well-formed path.
    pub open spec fn wf(self) -> bool {
        self.directory.absolute && self.directory.wf()
    }

    /// The name under which the rule is reported: its own, or else the
    /// watched directory written out.
    pub open spec fn display_name(self) -> Seq<char> {
        match self.custom_name {
            Some(name) => name,
            None => self.directory.text(),
        }
    }

    /// Whether destinations come from a program.
    pub open spec fn uses_script(self) -> bool {
        self.destination is Script
    }
}

/// One placement rule.
pub struct Rule {
    pub directory: FilePath,
    pub custom_name: Option<String>,
    pub matcher: MatchStrategy,
    pub destination: DestinationStrategy,
}

impl View for Rule {
    type V = RuleView;

    open spec fn view(&self) -> RuleView {
        RuleView {
            directory: self.directory@,
            custom_name: match self.custom_name {
                Some(name) => Some(name@),
                None => None,
            },
            matcher: self.matcher@,
            destination: self.destination@,
        }
    }
}

impl Clone for Rule {
    fn clone(&self) -> (out: Self)
        ensures
            out@ == self@,
    {
        Rule {
            directory: self.directory.clone(),
            custom_name: match &self.custom_name {
                Some(name) => Some(name.clone()),
                None => None,
            },
            matcher: self.matcher.clone(),
            destination: self.destination.clone(),
        }
    }
}

impl Rule {
    /// A rule on `directory`; `None` unless the directory is absolute.
    pub fn new(
        directory: FilePath,
        custom_name: Option<String>,
        matcher: MatchStrategy,
        destination: DestinationStrategy,
    ) -> (out: Option<Rule>)
        ensures
            out is Some == directory@.absolute,
            out is Some ==> out->0.directory == directory && out->0.custom_name == custom_name
                && out->0.matcher == matcher && out->0.destination == destination,
            out is Some && directory@.wf() ==> out->0@.wf(),
    {
        if directory.is_absolute() {
            Some(Rule { directory, custom_name, matcher, destination })
        } else {
            None
        }
    }

    /// The name under which the rule is reported.
    pub fn display_name(&self) -> (out: String)
        ensures
            out@ == self@.display_name(),
    {
        match &self.custom_name {
            Some(name) => name.clone(),
            None => self.directory.to_text(),
        }
    }

    /// Whether destinations come from a program.
    pub fn uses_script(&self) -> (out: bool)
        ensures
            out == self@.uses_script(),
    {
        match &self.destination {
            DestinationStrategy::Script(_) => true,
            _ => false,
        }
    }
}

/// The settings that hold for a whole run.
#[derive(Clone, Copy, Debug)]
pub struct Settings {
    /// Style the report for a terminal.
    pub color: bool,
    /// Use glyphs instead of their plain stand-ins.
    pub unicode: bool,
    /// Warn before evaluation when a rule calls a program.
    pub script_warning: bool,
}

/// The models of a sequence of rules.
pub open spec fn rule_views(rules: Seq<Rule>) -> Seq<RuleView> {
    rules.map_values(|r: Rule| r@)
}

/// The rules to evaluate for a target: all of them without one, else those
/// whose watched directory lies at or below it.
pub open spec fn selected(rules: Seq<RuleView>, target: Option<PathView>) -> Seq<RuleView> {
    match target {
        None => rules,
        Some(parent) => rules.filter(|r: RuleView| r.directory.starts_with(parent)),
    }
}

/// A copy of a sequence of rules.
pub fn copy_rules(rules: &Vec<Rule>) -> (out: Vec<Rule>)
    ensures
        rule_views(out@) == rule_views(rules@),
{
    let mut out: Vec<Rule> = Vec::new();
    let mut i: usize = 0;
    while i < rules.len()
        invariant
            i <= rules.len(),
            rule_views(out@) == rule_views(rules@).subrange(0, i as int),
        decreases rules.len() - i,
    {
        let ghost before = rule_views(out@);
        let rule = rules[i].clone();
        out.push(rule);
        assert(rule_views(out@) =~= before.push(rules@[i as int]@));
        i = i + 1;
        assert(before.push(rules@[i - 1]@) =~= rule_views(rules@).subrange(0, i as int));
    }
    assert(rule_views(rules@).subrange(0, i as int) =~= rule_views(rules@));
    out
}

/// Picks the rules to evaluate for a target, in declaration order.
pub fn select_rules(rules: &Vec<Rule>, target: Option<&FilePath>) -> (out: Vec<Rule>)
    ensures
        rule_views(out@) == selected(
            rule_views(rules@),
            match target {
                Some(parent) => Some(parent@),
                None => None,
            },
        ),
{
    match target {
        None => copy_rules(rules),
        Some(parent) => {
            let ghost keep = |r: RuleView| r.directory.starts_with(parent@);
            let mut out: Vec<Rule> = Vec::new();
            let mut i: usize = 0;
            while i < rules.len()
                invariant
                    i <= rules.len(),
                    keep == |r: RuleView| r.directory.starts_with(parent@),
                    rule_views(out@) == rule_views(rules@).subrange(0, i as int).filter(keep),
                decreases rules.len() - i,
            {
                let ghost seen = rule_views(rules@).subrange(0, i as int);
                let ghost before = rule_views(out@);
                proof {
                    lemma_filter_push(seen, rules@[i as int]@, keep);
                    assert(seen.push(rules@[i as int]@) =~= rule_views(rules@).subrange(
                        0,
                        i + 1,
                    ));
                }
                if rules[i].directory.starts_with(parent) {
                    let rule = rules[i].clone();
                    out.push(rule);
                    assert(rule_views(out@) =~= before.push(rules@[i as int]@));
                }
                i = i + 1;
            }
            assert(rule_views(rules@).subrange(0, i as int) =~= rule_views(rules@));
            out
        },
    }
}

/// Whether some rule takes its destinations from a program.
pub open spec fn any_script(rules: Seq<RuleView>) -> bool {
    exists|i: int| 0 <= i < rules.len() && (#[trigger] rules[i]).uses_script()
}

/// Whether a run over `rules` starts with the notice that programs make it
/// slow: the setting asks for it and some rule calls a program.
pub fn warns_about_scripts(settings: &Settings, rules: &Vec<Rule>) -> (out: bool)
    ensures
        out == (settings.script_warning && any_script(rule_views(rules@))),
{
    if !settings.script_warning {
        return false;
    }
    let mut i: usize = 0;
    while i < rules.len()
        invariant
            i <= rules.len(),
            settings.script_warning,
            forall|k: int| 0 <= k < i ==> !(#[trigger] rule_views(rules@)[k]).uses_script(),
        decreases rules.len() - i,
    {
        if rules[i].uses_script() {
            assert(rule_views(rules@).len() == rules.len());
            assert(rule_views(rules@)[i as int].uses_script());
            return true;
        }
        i = i + 1;
    }
    false
}

} // verus!
