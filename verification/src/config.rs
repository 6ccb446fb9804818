//! Rules as a configuration file states them, and how they become rules to
//! run.

use vstd::prelude::*;
use vstd::string::*;
use crate::path::{parsed, FilePath, PathView};
use crate::rule::{
    rule_views, DestinationStrategy, DestinationView, MatchStrategy, MatcherView, Rule, RuleView,
};
use crate::text::{copy_texts, texts};

verus! {

/// The model of a [`RuleConfig`].
pub struct RuleConfigView {
    pub directory: Seq<char>,
    pub name: Option<Seq<char>>,
    pub keep_names: Seq<Seq<char>>,
    pub keep_suffix: Option<Seq<char>>,
    pub to: Option<Seq<char>>,
    pub to_script: Option<Seq<char>>,
}

/// One rule as the configuration states it.
pub struct RuleConfig {
    /// The watched directory.
    pub directory: String,
    /// The name to report the rule under.
    pub name: Option<String>,
    /// The names of the children that belong in the directory.
    pub keep_names: Vec<String>,
    /// The ending of the names of the children that belong in the directory.
    pub keep_suffix: Option<String>,
    /// The directory that misplaced children go to.
    pub to: Option<String>,
    /// The program that says where a misplaced child goes; a relative path
    /// is taken from the directory of the configuration file.
    pub to_script: Option<String>,
}

/// The view of an optional string.
pub open spec fn optional_text(text: Option<String>) -> Option<Seq<char>> {
    match text {
        Some(text) => Some(text@),
        None => None,
    }
}

impl View for RuleConfig {
    type V = RuleConfigView;

    open spec fn view(&self) -> RuleConfigView {
        RuleConfigView {
            directory: self.directory@,
            name: optional_text(self.name),
            keep_names: texts(self.keep_names@),
            keep_suffix: optional_text(self.keep_suffix),
            to: optional_text(self.to),
            to_script: optional_text(self.to_script),
        }
    }
}

/// Why a configured rule cannot be run.
#[derive(Clone, Copy, PartialEq, Eq, Structural, Debug)]
pub enum ConfigError {
    /// The watched directory is not an absolute path.
    RelativeDirectory,
    /// Both names and an ending say which children stay.
    TwoMatchers,
    /// Both a directory and a program say where children go.
    TwoDestinations,
}

impl RuleConfigView {
    /// How the rule matches: by the ending where one is given, by the names
    /// where some are given, else nothing stays.
    pub open spec fn matcher(self) -> MatcherView {
        match self.keep_suffix {
            Some(suffix) => MatcherView::Suffix(suffix),
            None => if self.keep_names.len() > 0 {
                MatcherView::Names(self.keep_names)
            } else {
                MatcherView::Nothing
            },
        }
    }

    /// Where the rule sends children: to the directory or by the program
    /// where one is given, else by extension.
    pub open spec fn destination(self, config_dir: PathView) -> DestinationView {
        match (self.to, self.to_script) {
            (Some(to), _) => DestinationView::Fixed(parsed(to)),
            (None, Some(script)) => DestinationView::Script(
                config_dir.join(parsed(script)).text(),
            ),
            (None, None) => DestinationView::ByExtension,
        }
    }

    /// What is wrong with the rule, if anything; the first that applies.
    pub open spec fn fault(self) -> Option<ConfigError> {
        if !parsed(self.directory).absolute {
            Some(ConfigError::RelativeDirectory)
        } else if self.keep_suffix is Some && self.keep_names.len() > 0 {
            Some(ConfigError::TwoMatchers)
        } else if self.to is Some && self.to_script is Some {
            Some(ConfigError::TwoDestinations)
        } else {
            None
        }
    }

    /// The rule to run.
    pub open spec fn rule(self, config_dir: PathView) -> RuleView {
        RuleView {
            directory: parsed(self.directory),
            custom_name: self.name,
            matcher: self.matcher(),
            destination: self.destination(config_dir),
        }
    }
}

/// Turns a configured rule into a rule to run, or says what is wrong with
/// it.
pub fn rule_from_config(config: &RuleConfig, config_dir: &FilePath) -> (out: Result<
    Rule,
    ConfigError,
>)
    ensures
        match config@.fault() {
            Some(error) => out == Err::<Rule, ConfigError>(error),
            None => out is Ok && out->Ok_0@ == config@.rule(config_dir@) && out->Ok_0@.wf(),
        },
{
    let directory = FilePath::parse(config.directory.as_str());
    if !directory.is_absolute() {
        return Err(ConfigError::RelativeDirectory);
    }
    if config.keep_suffix.is_some() && config.keep_names.len() > 0 {
        return Err(ConfigError::TwoMatchers);
    }
    if config.to.is_some() && config.to_script.is_some() {
        return Err(ConfigError::TwoDestinations);
    }
    let matcher = match &config.keep_suffix {
        Some(suffix) => MatchStrategy::Suffix(suffix.clone()),
        None => if config.keep_names.len() > 0 {
            MatchStrategy::Names(copy_texts(&config.keep_names))
        } else {
            MatchStrategy::Nothing
        },
    };
    let destination = match &config.to {
        Some(to) => DestinationStrategy::Fixed(FilePath::parse(to.as_str())),
        None => match &config.to_script {
            Some(script) => DestinationStrategy::Script(
                config_dir.join(&FilePath::parse(script.as_str())).to_text(),
            ),
            None => DestinationStrategy::ByExtension,
        },
    };
    let custom_name = match &config.name {
        Some(name) => Some(name.clone()),
        None => None,
    };
    Ok(Rule { directory, custom_name, matcher, destination })
}

/// The models of a sequence of configured rules.
pub open spec fn config_views(configs: Seq<RuleConfig>) -> Seq<RuleConfigView> {
    configs.map_values(|c: RuleConfig| c@)
}

/// The first configured rule that cannot be run, with what is wrong with
/// it.
pub open spec fn first_fault(configs: Seq<RuleConfigView>) -> Option<(int, ConfigError)>
    decreases configs.len(),
{
    if configs.len() == 0 {
        None
    } else {
        match first_fault(configs.drop_last()) {
            Some(found) => Some(found),
            None => match configs.last().fault() {
                Some(error) => Some((configs.len() - 1, error)),
                None => None,
            },
        }
    }
}

/// Turns the configured rules into rules to run, in declaration order; or
/// names the first that cannot be run, by its position, with what is wrong
/// with it.
pub fn rules_from_config(configs: &Vec<RuleConfig>, config_dir: &FilePath) -> (out: Result<
    Vec<Rule>,
    (usize, ConfigError),
>)
    ensures
        match first_fault(config_views(configs@)) {
            Some(found) => out == Err::<Vec<Rule>, (usize, ConfigError)>(
                (found.0 as usize, found.1),
            ) && 0 <= found.0 < configs.len(),
            None => out is Ok && rule_views(out->Ok_0@) == config_views(configs@).map_values(
                |c: RuleConfigView| c.rule(config_dir@),
            ),
        },
{
    let mut rules: Vec<Rule> = Vec::new();
    let mut i: usize = 0;
    let ghost all = config_views(configs@);
    let ghost to_rule = |c: RuleConfigView| c.rule(config_dir@);
    assert(all.subrange(0, 0) =~= Seq::<RuleConfigView>::empty());
    assert(rule_views(rules@) =~= all.subrange(0, 0).map_values(to_rule));
    while i < configs.len()
        invariant
            i <= configs.len(),
            all == config_views(configs@),
            to_rule == |c: RuleConfigView| c.rule(config_dir@),
            first_fault(all.subrange(0, i as int)) is None,
            rule_views(rules@) == all.subrange(0, i as int).map_values(to_rule),
        decreases configs.len() - i,
    {
        let ghost seen = all.subrange(0, i + 1);
        let ghost before = rule_views(rules@);
        assert(seen.drop_last() =~= all.subrange(0, i as int));
        assert(seen.last() == configs@[i as int]@);
        match rule_from_config(&configs[i], config_dir) {
            Ok(rule) => {
                rules.push(rule);
                assert(rule_views(rules@) =~= before.push(rule@));
                assert(before.push(rule@) =~= seen.map_values(to_rule));
            },
            Err(error) => {
                proof {
                    lemma_fault_stays_first(all, i + 1);
                }
                return Err((i, error));
            },
        }
        i = i + 1;
    }
    assert(all.subrange(0, i as int) =~= all);
    Ok(rules)
}

/// A fault found among the first `n` configured rules is the first fault of
/// all of them.
pub proof fn lemma_fault_stays_first(configs: Seq<RuleConfigView>, n: int)
    requires
        0 <= n <= configs.len(),
        first_fault(configs.subrange(0, n)) is Some,
    ensures
        first_fault(configs) == first_fault(configs.subrange(0, n)),
    decreases configs.len() - n,
{
    if n < configs.len() {
        let longer = configs.subrange(0, n + 1);
        assert(longer.drop_last() =~= configs.subrange(0, n));
        lemma_fault_stays_first(configs, n + 1);
    } else {
        assert(configs.subrange(0, n) =~= configs);
    }
}

} // verus!
