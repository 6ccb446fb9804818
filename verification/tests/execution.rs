use shinydir::executor::{Executor, FsEvent, FsRequest};
use shinydir::path::FilePath;
use shinydir::plan::{EntryError, PlanEntry, ResolvedMove, RuleOutcome};
use shinydir::rule::{DestinationStrategy, MatchStrategy, Rule};

fn path(text: &str) -> FilePath {
    FilePath::parse(text)
}

fn rule(dir: &str) -> Rule {
    Rule::new(path(dir), None, MatchStrategy::Nothing, DestinationStrategy::ByExtension)
        .expect("absolute directory")
}

fn mv(file: &str, to: &str) -> PlanEntry {
    Ok(ResolvedMove::new(path(file), path(to)).expect("different places"))
}

fn failed(file: &str) -> PlanEntry {
    Err(EntryError::ScriptFailed { file: path(file) })
}

fn resolved(dir: &str, entries: Vec<PlanEntry>) -> RuleOutcome {
    RuleOutcome::Resolved { rule: rule(dir), entries }
}

fn show_request(request: &FsRequest) -> String {
    match request {
        FsRequest::CreateDirectories(dir) => format!("mkdir {}", dir.to_text()),
        FsRequest::Probe(p) => format!("probe {}", p.to_text()),
        FsRequest::Rename { from, to } => format!("rename {} {}", from.to_text(), to.to_text()),
        FsRequest::Finished => String::from("finished"),
    }
}

fn show_entry(entry: &PlanEntry) -> String {
    match entry {
        Ok(m) => format!("ok {}", m.move_to().to_text()),
        Err(e) => format!("error {}", e.message()),
    }
}

fn show_outcomes(plan: &Vec<RuleOutcome>) -> Vec<String> {
    let mut out = Vec::new();
    for outcome in plan {
        match outcome {
            RuleOutcome::DirectoryMissing { .. } => out.push(String::from("missing")),
            RuleOutcome::ListingFailed { .. } => out.push(String::from("unreadable")),
            RuleOutcome::Resolved { entries, .. } => {
                out.push(String::from("resolved"));
                for entry in entries {
                    out.push(show_entry(entry));
                }
            }
        }
    }
    out
}

fn strings(list: &[&str]) -> Vec<String> {
    list.iter().map(|s| String::from(*s)).collect()
}

/// Runs the executor against answers given by `answer`, and returns the
/// requests it made and the outcomes it ended with.
fn drive(
    plan: Vec<RuleOutcome>,
    dry_run: bool,
    answer: &dyn Fn(&FsRequest) -> FsEvent,
) -> (Vec<String>, Vec<String>) {
    let mut executor = Executor::new(plan, dry_run);
    let mut requests = Vec::new();
    loop {
        let request = executor.pending();
        if let FsRequest::Finished = request {
            break;
        }
        requests.push(show_request(&request));
        assert!(requests.len() < 100);
        executor = executor.record(answer(&request));
    }
    assert!(executor.is_finished());
    (requests, show_outcomes(&executor.into_outcomes()))
}

fn all_goes_well(request: &FsRequest) -> FsEvent {
    match request {
        FsRequest::CreateDirectories(_) => FsEvent::Prepared,
        FsRequest::Probe(_) => FsEvent::Absent,
        _ => FsEvent::Moved,
    }
}

#[test]
fn missing_directory_asks_for_nothing() {
    let plan = vec![RuleOutcome::DirectoryMissing { rule: rule("/gone") }];
    let (requests, outcomes) = drive(plan, false, &all_goes_well);
    assert!(requests.is_empty());
    assert_eq!(outcomes, strings(&["missing"]));
    let executor = Executor::new(vec![RuleOutcome::DirectoryMissing { rule: rule("/gone") }], true);
    assert!(executor.is_finished());
    assert!(executor.is_dry_run());
}

#[test]
fn one_move_is_prepared_probed_and_made() {
    let plan = vec![resolved("/watch", vec![mv("/watch/stray.png", "/watch/Images/stray.png")])];
    let (requests, outcomes) = drive(plan, false, &all_goes_well);
    assert_eq!(
        requests,
        strings(&[
            "mkdir /watch/Images",
            "probe /watch/Images/stray.png",
            "rename /watch/stray.png /watch/Images/stray.png",
        ])
    );
    assert_eq!(outcomes, strings(&["resolved", "ok /watch/Images/stray.png"]));
}

#[test]
fn dry_run_only_probes() {
    let plan = vec![resolved(
        "/watch",
        vec![mv("/watch/a.png", "/watch/png/a.png"), mv("/watch/b.jpg", "/watch/jpg/b.jpg")],
    )];
    let (requests, outcomes) = drive(plan, true, &all_goes_well);
    assert_eq!(requests, strings(&["probe /watch/png/a.png", "probe /watch/jpg/b.jpg"]));
    assert_eq!(outcomes, strings(&["resolved", "ok /watch/png/a.png", "ok /watch/jpg/b.jpg"]));
}

#[test]
fn occupied_destination_is_a_conflict_in_both_modes() {
    let occupied = |request: &FsRequest| match request {
        FsRequest::CreateDirectories(_) => FsEvent::Prepared,
        FsRequest::Probe(_) => FsEvent::Present,
        _ => FsEvent::Moved,
    };
    for dry_run in [true, false] {
        let plan = vec![resolved("/watch", vec![mv("/watch/a.png", "/watch/png/a.png")])];
        let (requests, outcomes) = drive(plan, dry_run, &occupied);
        assert!(requests.iter().all(|r| !r.starts_with("rename")));
        assert_eq!(requests.last().map(|r| r.as_str()), Some("probe /watch/png/a.png"));
        assert_eq!(
            outcomes,
            strings(&["resolved", "error Moving to /watch/png/a.png would overwrite a file"])
        );
    }
}

#[test]
fn a_failure_leaves_the_other_entries_alone() {
    let answer = |request: &FsRequest| match request {
        FsRequest::CreateDirectories(dir) if dir.to_text() == "/w/b" => {
            FsEvent::PrepareFailed(String::from("denied"))
        }
        FsRequest::CreateDirectories(_) => FsEvent::Prepared,
        FsRequest::Probe(p) if p.to_text() == "/w/c/3" => FsEvent::ProbeFailed(String::from("io")),
        FsRequest::Probe(_) => FsEvent::Absent,
        FsRequest::Rename { from, .. } if from.to_text() == "/w/4" => {
            FsEvent::MoveFailed(String::from("busy"))
        }
        _ => FsEvent::Moved,
    };
    let plan = vec![
        resolved("/w", vec![mv("/w/1", "/w/a/1"), mv("/w/2", "/w/b/2"), failed("/w/x")]),
        RuleOutcome::ListingFailed { rule: rule("/u"), cause: String::from("denied") },
        resolved("/w", vec![mv("/w/3", "/w/c/3"), mv("/w/4", "/w/d/4"), mv("/w/5", "/w/e/5")]),
    ];
    let (requests, outcomes) = drive(plan, false, &answer);
    assert_eq!(
        requests,
        strings(&[
            "mkdir /w/a",
            "probe /w/a/1",
            "rename /w/1 /w/a/1",
            "mkdir /w/b",
            "mkdir /w/c",
            "probe /w/c/3",
            "mkdir /w/d",
            "probe /w/d/4",
            "rename /w/4 /w/d/4",
            "mkdir /w/e",
            "probe /w/e/5",
            "rename /w/5 /w/e/5",
        ])
    );
    assert_eq!(
        outcomes,
        strings(&[
            "resolved",
            "ok /w/a/1",
            "error Couldn't create directory /w/b: denied",
            "error The script failed for /w/x",
            "unreadable",
            "resolved",
            "error Cannot check overwrite status for /w/c/3: io",
            "error Couldn't move /w/4 to /w/d/4: busy",
            "ok /w/e/5",
        ])
    );
}

#[test]
fn only_the_resolved_file_of_a_script_rule_is_moved() {
    let plan = vec![resolved("/inbox", vec![failed("/inbox/a.pdf"), mv("/inbox/b.pdf", "/inbox/Docs/b.pdf")])];
    let (requests, outcomes) = drive(plan, false, &all_goes_well);
    assert_eq!(
        requests,
        strings(&["mkdir /inbox/Docs", "probe /inbox/Docs/b.pdf", "rename /inbox/b.pdf /inbox/Docs/b.pdf"])
    );
    assert_eq!(
        outcomes,
        strings(&["resolved", "error The script failed for /inbox/a.pdf", "ok /inbox/Docs/b.pdf"])
    );
}

#[test]
fn a_report_on_another_step_changes_nothing() {
    let plan = vec![resolved("/watch", vec![mv("/watch/a.png", "/watch/png/a.png")])];
    let executor = Executor::new(plan, false);
    assert_eq!(show_request(&executor.pending()), "mkdir /watch/png");
    let executor = executor.record(FsEvent::Moved);
    assert_eq!(show_request(&executor.pending()), "mkdir /watch/png");
    let executor = executor.record(FsEvent::Present);
    assert_eq!(show_request(&executor.pending()), "mkdir /watch/png");
    let executor = executor.record(FsEvent::Prepared);
    assert_eq!(show_request(&executor.pending()), "probe /watch/png/a.png");
    let executor = executor.record(FsEvent::Prepared);
    assert_eq!(show_request(&executor.pending()), "probe /watch/png/a.png");
    let executor = executor.record(FsEvent::Absent);
    assert_eq!(show_request(&executor.pending()), "rename /watch/a.png /watch/png/a.png");
    let executor = executor.record(FsEvent::Moved);
    assert!(executor.is_finished());
    let executor = executor.record(FsEvent::Present);
    assert_eq!(show_outcomes(&executor.into_outcomes()), strings(&["resolved", "ok /watch/png/a.png"]));
}

#[test]
fn a_destination_at_the_root_needs_no_directory() {
    let plan = vec![resolved("/watch", vec![mv("/watch/a", "b")])];
    let (requests, _) = drive(plan, false, &all_goes_well);
    assert_eq!(requests, strings(&["mkdir ", "probe b", "rename /watch/a b"]));
    let plan = vec![resolved("/watch", vec![mv("/watch/a", "/")])];
    let (requests, _) = drive(plan, false, &all_goes_well);
    assert_eq!(requests, strings(&["probe /", "rename /watch/a /"]));
}

#[test]
fn dry_and_real_runs_find_the_same_conflicts() {
    let disk = |request: &FsRequest| match request {
        FsRequest::CreateDirectories(_) => FsEvent::Prepared,
        FsRequest::Probe(p) if p.to_text().ends_with("taken") => FsEvent::Present,
        FsRequest::Probe(p) if p.to_text().ends_with("hidden") => {
            FsEvent::ProbeFailed(String::from("denied"))
        }
        FsRequest::Probe(_) => FsEvent::Absent,
        FsRequest::Rename { from, .. } if from.to_text() == "/w/5" => {
            FsEvent::MoveFailed(String::from("busy"))
        }
        _ => FsEvent::Moved,
    };
    let plan = || {
        vec![
            resolved("/w", vec![mv("/w/1", "/w/a/taken"), mv("/w/2", "/w/a/free"), failed("/w/x")]),
            RuleOutcome::DirectoryMissing { rule: rule("/gone") },
            resolved("/w", vec![mv("/w/3", "/w/b/hidden"), mv("/w/4", "/w/c/taken"), mv("/w/5", "/w/d/5")]),
        ]
    };
    let conflicts = |outcomes: &Vec<String>| -> Vec<usize> {
        outcomes
            .iter()
            .enumerate()
            .filter(|(_, line)| line.ends_with("would overwrite a file"))
            .map(|(at, _)| at)
            .collect()
    };
    let (dry_requests, dry) = drive(plan(), true, &disk);
    let (_, real) = drive(plan(), false, &disk);
    assert_eq!(conflicts(&dry), vec![1, 7]);
    assert_eq!(conflicts(&dry), conflicts(&real));
    assert!(dry_requests.iter().all(|request| request.starts_with("probe")));
    assert_eq!(
        dry,
        strings(&[
            "resolved",
            "error Moving to /w/a/taken would overwrite a file",
            "ok /w/a/free",
            "error The script failed for /w/x",
            "missing",
            "resolved",
            "error Cannot check overwrite status for /w/b/hidden: denied",
            "error Moving to /w/c/taken would overwrite a file",
            "ok /w/d/5",
        ])
    );
    assert_eq!(real[8], "error Couldn't move /w/5 to /w/d/5: busy");
    assert_eq!(real[..8], dry[..8]);
}
