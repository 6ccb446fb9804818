use shinydir::config::{rule_from_config, rules_from_config, ConfigError, RuleConfig};
use shinydir::path::FilePath;
use shinydir::plan::{
    fragment_of, misplaced_children, resolve_by_script, resolve_plainly, EntryError, PlanEntry,
    ResolvedMove, RuleOutcome, ScriptReply,
};
use shinydir::planner::{Listing, PlanEvent, PlanRequest, Planner};
use shinydir::rule::{
    select_rules, warns_about_scripts, DestinationStrategy, MatchStrategy, Rule, Settings,
};

fn path(text: &str) -> FilePath {
    FilePath::parse(text)
}

fn names(list: &[&str]) -> Vec<String> {
    list.iter().map(|s| String::from(*s)).collect()
}

fn rule(dir: &str, matcher: MatchStrategy, destination: DestinationStrategy) -> Rule {
    Rule::new(path(dir), None, matcher, destination).expect("absolute directory")
}

fn images_rule() -> Rule {
    rule(
        "/watch",
        MatchStrategy::Suffix(String::from(".txt")),
        DestinationStrategy::Fixed(path("Images")),
    )
}

fn script_rule() -> Rule {
    rule(
        "/inbox",
        MatchStrategy::Nothing,
        DestinationStrategy::Script(String::from("/bin/sorter")),
    )
}

fn show(entry: &PlanEntry) -> String {
    match entry {
        Ok(resolved) => format!(
            "{} -> {}",
            resolved.file().to_text(),
            resolved.move_to().to_text()
        ),
        Err(error) => format!("error: {}", error.message()),
    }
}

fn exited(success: bool, output: &str) -> ScriptReply {
    ScriptReply::Exited { success, output: String::from(output) }
}

fn plan_with(rules: &Vec<Rule>, events: Vec<PlanEvent>) -> Vec<RuleOutcome> {
    let mut planner = Planner::new(rules);
    for event in events {
        planner = planner.record(event);
    }
    assert!(planner.is_finished());
    planner.into_plan()
}

fn show_plan(plan: &Vec<RuleOutcome>) -> Vec<String> {
    let mut out = Vec::new();
    for outcome in plan {
        match outcome {
            RuleOutcome::DirectoryMissing { rule } => {
                out.push(format!("{}: missing", rule.display_name()))
            }
            RuleOutcome::ListingFailed { rule, cause } => {
                out.push(format!("{}: unreadable: {}", rule.display_name(), cause))
            }
            RuleOutcome::Resolved { rule, entries } => {
                out.push(format!("{}: {} entries", rule.display_name(), entries.len()));
                for entry in entries {
                    out.push(show(entry));
                }
            }
        }
    }
    out
}

#[test]
fn rule_needs_an_absolute_directory() {
    assert!(Rule::new(
        path("relative/dir"),
        None,
        MatchStrategy::Nothing,
        DestinationStrategy::ByExtension
    )
    .is_none());
    assert!(Rule::new(
        path("/abs"),
        None,
        MatchStrategy::Nothing,
        DestinationStrategy::ByExtension
    )
    .is_some());
}

#[test]
fn display_name_prefers_the_custom_name() {
    let mut named = images_rule();
    assert_eq!(named.display_name(), "/watch");
    named.custom_name = Some(String::from("Downloads"));
    assert_eq!(named.display_name(), "Downloads");
    assert_eq!(named.clone().display_name(), "Downloads");
}

#[test]
fn matchers_decide_which_children_stay() {
    let name = String::from("notes.txt");
    assert!(!MatchStrategy::Nothing.keeps(&name));
    assert!(MatchStrategy::Suffix(String::from(".txt")).keeps(&name));
    assert!(!MatchStrategy::Suffix(String::from(".png")).keeps(&name));
    assert!(MatchStrategy::Names(names(&["a", "notes.txt"])).keeps(&name));
    assert!(!MatchStrategy::Names(names(&["a", "b"])).keeps(&name));
    assert!(!MatchStrategy::Names(Vec::new()).keeps(&name));
}

#[test]
fn select_rules_keeps_those_under_the_target_in_order() {
    let rules = vec![
        rule("/home/u/Downloads", MatchStrategy::Nothing, DestinationStrategy::ByExtension),
        rule("/srv/inbox", MatchStrategy::Nothing, DestinationStrategy::ByExtension),
        rule("/home/u/Desktop", MatchStrategy::Nothing, DestinationStrategy::ByExtension),
        rule("/home/user2/x", MatchStrategy::Nothing, DestinationStrategy::ByExtension),
    ];
    let all: Vec<String> = select_rules(&rules, None).iter().map(|r| r.display_name()).collect();
    assert_eq!(all, names(&["/home/u/Downloads", "/srv/inbox", "/home/u/Desktop", "/home/user2/x"]));
    let target = path("/home/u");
    let some: Vec<String> =
        select_rules(&rules, Some(&target)).iter().map(|r| r.display_name()).collect();
    assert_eq!(some, names(&["/home/u/Downloads", "/home/u/Desktop"]));
    let none = path("/nowhere");
    assert!(select_rules(&rules, Some(&none)).is_empty());
}

#[test]
fn script_warning_needs_the_setting_and_a_script_rule() {
    let on = Settings { color: false, unicode: false, script_warning: true };
    let off = Settings { color: false, unicode: false, script_warning: false };
    let with_script = vec![images_rule(), script_rule()];
    let without = vec![images_rule()];
    assert!(warns_about_scripts(&on, &with_script));
    assert!(!warns_about_scripts(&off, &with_script));
    assert!(!warns_about_scripts(&on, &without));
    assert!(!warns_about_scripts(&on, &Vec::new()));
}

#[test]
fn misplaced_children_keep_listing_order() {
    let found = misplaced_children(&images_rule(), &names(&["z.png", "a.txt", "m.jpg", "b.png"]));
    assert_eq!(found, names(&["z.png", "m.jpg", "b.png"]));
}

#[test]
fn fixed_destination_is_relative_to_the_watched_directory() {
    let entry = resolve_plainly(&images_rule(), &path("/watch/cat.png")).expect("no script");
    assert_eq!(show(&entry), "/watch/cat.png -> /watch/Images/cat.png");
    let absolute = rule(
        "/watch",
        MatchStrategy::Nothing,
        DestinationStrategy::Fixed(path("/archive/2024")),
    );
    let entry = resolve_plainly(&absolute, &path("/watch/cat.png")).expect("no script");
    assert_eq!(show(&entry), "/watch/cat.png -> /archive/2024/cat.png");
}

#[test]
fn destination_by_extension_uses_the_text_after_the_last_dot() {
    let by_ext = rule("/watch", MatchStrategy::Nothing, DestinationStrategy::ByExtension);
    let entry = resolve_plainly(&by_ext, &path("/watch/a.tar.gz")).expect("no script");
    assert_eq!(show(&entry), "/watch/a.tar.gz -> /watch/gz/a.tar.gz");
    let entry = resolve_plainly(&by_ext, &path("/watch/README")).expect("no script");
    assert!(matches!(entry, Err(EntryError::NoExtension { .. })));
    assert_eq!(show(&entry), "error: /watch/README has no extension to sort it by");
}

#[test]
fn a_move_to_the_same_place_is_refused() {
    let stay = rule("/watch", MatchStrategy::Nothing, DestinationStrategy::Fixed(path("")));
    let entry = resolve_plainly(&stay, &path("/watch/cat.png")).expect("no script");
    assert!(matches!(entry, Err(EntryError::SamePlace { .. })));
    assert_eq!(show(&entry), "error: /watch/cat.png is already where it belongs");
    assert!(ResolvedMove::new(path("/a/b"), path("/a//b")).is_none());
    assert!(ResolvedMove::new(path("/a/b"), path("/a/c")).is_some());
}

#[test]
fn a_script_rule_is_not_resolved_plainly() {
    assert!(resolve_plainly(&script_rule(), &path("/inbox/x")).is_none());
}

#[test]
fn fragment_is_the_single_line_of_the_output() {
    assert_eq!(fragment_of("Images\n"), Some(String::from("Images")));
    assert_eq!(fragment_of("Images/2024\r\n"), Some(String::from("Images/2024")));
    assert_eq!(fragment_of("Images"), Some(String::from("Images")));
    assert_eq!(fragment_of("with space\n\n"), Some(String::from("with space")));
    assert_eq!(fragment_of(""), None);
    assert_eq!(fragment_of("\n"), None);
    assert_eq!(fragment_of("one\ntwo\n"), None);
}

#[test]
fn script_replies_give_a_move_or_the_matching_error() {
    let dir = path("/inbox");
    let file = path("/inbox/report.pdf");
    let ok = resolve_by_script(&dir, &file, &exited(true, "Documents/work\n"));
    assert_eq!(show(&ok), "/inbox/report.pdf -> /inbox/Documents/work/report.pdf");
    let absolute = resolve_by_script(&dir, &file, &exited(true, "/srv/docs\n"));
    assert_eq!(show(&absolute), "/inbox/report.pdf -> /srv/docs/report.pdf");
    let failed = resolve_by_script(&dir, &file, &exited(false, "Documents\n"));
    assert!(matches!(failed, Err(EntryError::ScriptFailed { .. })));
    assert_eq!(show(&failed), "error: The script failed for /inbox/report.pdf");
    let silent = resolve_by_script(&dir, &file, &exited(true, "\n"));
    assert!(matches!(silent, Err(EntryError::ScriptOutput { .. })));
    assert_eq!(show(&silent), "error: The script named no destination for /inbox/report.pdf");
    let chatty = resolve_by_script(&dir, &file, &exited(true, "a\nb\n"));
    assert!(matches!(chatty, Err(EntryError::ScriptOutput { .. })));
    let not_run = resolve_by_script(&dir, &file, &ScriptReply::NotRun(String::from("not found")));
    assert!(matches!(not_run, Err(EntryError::ScriptNotRun { .. })));
    assert_eq!(show(&not_run), "error: Couldn't run the script for /inbox/report.pdf: not found");
    let same = resolve_by_script(&dir, &file, &exited(true, ".\n"));
    assert!(matches!(same, Err(EntryError::SamePlace { .. })));
}

#[test]
fn execution_errors_have_their_sentences() {
    let created = EntryError::DirCreateFailed {
        directory: path("/watch/Images"),
        cause: String::from("permission denied"),
    };
    assert_eq!(created.message(), "Couldn't create directory /watch/Images: permission denied");
    let conflict = EntryError::OverwriteConflict { destination: path("/watch/Images/a.png") };
    assert_eq!(conflict.message(), "Moving to /watch/Images/a.png would overwrite a file");
    let probe = EntryError::ProbeFailed {
        destination: path("/watch/Images/a.png"),
        cause: String::from("io"),
    };
    assert_eq!(probe.message(), "Cannot check overwrite status for /watch/Images/a.png: io");
    let moved = EntryError::MoveFailed {
        file: path("/watch/a.png"),
        destination: path("/watch/Images/a.png"),
        cause: String::from("cross-device link"),
    };
    assert_eq!(
        moved.message(),
        "Couldn't move /watch/a.png to /watch/Images/a.png: cross-device link"
    );
}

#[test]
fn missing_directory_is_reported_and_planning_goes_on() {
    let rules = vec![images_rule(), images_rule()];
    let planner = Planner::new(&rules);
    assert!(matches!(planner.pending(), PlanRequest::List(dir) if dir.to_text() == "/watch"));
    let planner = planner.record(PlanEvent::Listed(Listing::Missing));
    assert!(!planner.is_finished());
    let planner = planner.record(PlanEvent::Listed(Listing::Failed(String::from("denied"))));
    assert!(planner.is_finished());
    assert!(matches!(planner.pending(), PlanRequest::Finished));
    let plan = planner.into_plan();
    assert_eq!(show_plan(&plan), names(&["/watch: missing", "/watch: unreadable: denied"]));
}

#[test]
fn matching_child_is_dropped_and_the_other_resolved() {
    let rules = vec![images_rule()];
    let plan = plan_with(
        &rules,
        vec![PlanEvent::Listed(Listing::Children(names(&["keep.txt", "stray.png"])))],
    );
    assert_eq!(
        show_plan(&plan),
        names(&["/watch: 1 entries", "/watch/stray.png -> /watch/Images/stray.png"])
    );
}

#[test]
fn tidy_directory_gives_a_rule_without_entries() {
    let rules = vec![images_rule(), script_rule()];
    let plan = plan_with(
        &rules,
        vec![
            PlanEvent::Listed(Listing::Children(names(&["a.txt"]))),
            PlanEvent::Listed(Listing::Children(Vec::new())),
        ],
    );
    assert_eq!(show_plan(&plan), names(&["/watch: 0 entries", "/inbox: 0 entries"]));
}

#[test]
fn script_is_asked_once_for_each_misplaced_child_and_one_failure_stays_alone() {
    let rules = vec![script_rule()];
    let planner = Planner::new(&rules);
    let planner = planner.record(PlanEvent::Listed(Listing::Children(names(&["a.pdf", "b.pdf"]))));
    match planner.pending() {
        PlanRequest::RunScript { program, file } => {
            assert_eq!(program, "/bin/sorter");
            assert_eq!(file.to_text(), "/inbox/a.pdf");
        }
        _ => panic!("a script run is due"),
    }
    let planner = planner.record(PlanEvent::Scripted(exited(false, "")));
    match planner.pending() {
        PlanRequest::RunScript { file, .. } => assert_eq!(file.to_text(), "/inbox/b.pdf"),
        _ => panic!("a script run is due"),
    }
    let planner = planner.record(PlanEvent::Scripted(exited(true, "Docs\n")));
    assert!(planner.is_finished());
    let plan = planner.into_plan();
    assert_eq!(
        show_plan(&plan),
        names(&[
            "/inbox: 2 entries",
            "error: The script failed for /inbox/a.pdf",
            "/inbox/b.pdf -> /inbox/Docs/b.pdf",
        ])
    );
}

#[test]
fn an_answer_to_another_question_is_ignored() {
    let rules = vec![images_rule()];
    let planner = Planner::new(&rules);
    let planner = planner.record(PlanEvent::Scripted(exited(true, "x\n")));
    assert!(matches!(planner.pending(), PlanRequest::List(_)));
    let planner = planner.record(PlanEvent::Listed(Listing::Children(names(&["s.png"]))));
    assert!(planner.is_finished());
    let planner = planner.record(PlanEvent::Listed(Listing::Missing));
    let plan = planner.into_plan();
    assert_eq!(plan.len(), 1);
    let scripted = vec![script_rule()];
    let planner = Planner::new(&scripted);
    let planner = planner.record(PlanEvent::Listed(Listing::Children(names(&["a"]))));
    let planner = planner.record(PlanEvent::Listed(Listing::Missing));
    assert!(matches!(planner.pending(), PlanRequest::RunScript { .. }));
}

#[test]
fn planning_twice_gives_the_same_plan() {
    let rules = vec![images_rule(), script_rule(), images_rule()];
    let events = || {
        vec![
            PlanEvent::Listed(Listing::Children(names(&["b.png", "a.txt", "a.png"]))),
            PlanEvent::Listed(Listing::Children(names(&["x.pdf", "y.pdf"]))),
            PlanEvent::Scripted(exited(true, "Docs\n")),
            PlanEvent::Scripted(ScriptReply::NotRun(String::from("gone"))),
            PlanEvent::Listed(Listing::Missing),
        ]
    };
    let first = show_plan(&plan_with(&rules, events()));
    let second = show_plan(&plan_with(&rules, events()));
    assert_eq!(first, second);
    assert_eq!(
        first,
        names(&[
            "/watch: 2 entries",
            "/watch/b.png -> /watch/Images/b.png",
            "/watch/a.png -> /watch/Images/a.png",
            "/inbox: 2 entries",
            "/inbox/x.pdf -> /inbox/Docs/x.pdf",
            "error: Couldn't run the script for /inbox/y.pdf: gone",
            "/watch: missing",
        ])
    );
}

#[test]
fn configured_rules_become_rules_to_run() {
    let base = |directory: &str| RuleConfig {
        directory: String::from(directory),
        name: None,
        keep_names: Vec::new(),
        keep_suffix: None,
        to: None,
        to_script: None,
    };
    let config_dir = path("/etc/shinydir");
    let by_extension = rule_from_config(&base("/home/u/dl"), &config_dir).ok().expect("usable");
    assert_eq!(by_extension.display_name(), "/home/u/dl");
    assert!(matches!(by_extension.matcher, MatchStrategy::Nothing));
    assert!(matches!(by_extension.destination, DestinationStrategy::ByExtension));

    let mut fixed = base("/home/u/dl");
    fixed.name = Some(String::from("Downloads"));
    fixed.keep_names = names(&["keep.me"]);
    fixed.to = Some(String::from("Sorted/"));
    let fixed = rule_from_config(&fixed, &config_dir).ok().expect("usable");
    assert_eq!(fixed.display_name(), "Downloads");
    assert!(fixed.matcher.keeps(&String::from("keep.me")));
    assert!(matches!(&fixed.destination, DestinationStrategy::Fixed(to) if to.to_text() == "Sorted"));

    let mut scripted = base("/home/u/dl");
    scripted.keep_suffix = Some(String::from(".part"));
    scripted.to_script = Some(String::from("scripts/sort.sh"));
    let relative = rule_from_config(&scripted, &config_dir).ok().expect("usable");
    assert!(relative.matcher.keeps(&String::from("x.part")));
    assert!(matches!(&relative.destination,
        DestinationStrategy::Script(p) if p == "/etc/shinydir/scripts/sort.sh"));
    scripted.to_script = Some(String::from("/usr/bin/sort-files"));
    let absolute = rule_from_config(&scripted, &config_dir).ok().expect("usable");
    assert!(matches!(&absolute.destination,
        DestinationStrategy::Script(p) if p == "/usr/bin/sort-files"));

    assert!(matches!(
        rule_from_config(&base("home/u"), &config_dir),
        Err(ConfigError::RelativeDirectory)
    ));
    let mut both = base("/x");
    both.keep_names = names(&["a"]);
    both.keep_suffix = Some(String::from(".b"));
    both.to = Some(String::from("t"));
    both.to_script = Some(String::from("s"));
    assert!(matches!(rule_from_config(&both, &config_dir), Err(ConfigError::TwoMatchers)));
    both.keep_suffix = None;
    assert!(matches!(rule_from_config(&both, &config_dir), Err(ConfigError::TwoDestinations)));

    let good = vec![base("/a"), base("/b")];
    let rules = rules_from_config(&good, &config_dir).ok().expect("all usable");
    let shown: Vec<String> = rules.iter().map(|r| r.display_name()).collect();
    assert_eq!(shown, names(&["/a", "/b"]));
    let bad = vec![base("/a"), base("b"), both, base("c")];
    assert!(matches!(
        rules_from_config(&bad, &config_dir),
        Err((1, ConfigError::RelativeDirectory))
    ));
    assert!(rules_from_config(&Vec::new(), &config_dir).ok().expect("empty").is_empty());
}
