use colored::Colorize;
use shinydir::cli::{Commands, RunMode, CLI};
use shinydir::grouping::{
    count_of, destinations_of, insert_sorted, name_precedes, precedes, sort_distinct, text_precedes,
};
use shinydir::path::FilePath;
use shinydir::plan::{EntryError, PlanEntry, ResolvedMove, RuleOutcome};
use shinydir::report::{count_resolved, list_lines_of, notices_of, outcome_report, report_of, summarize};
use shinydir::rule::{DestinationStrategy, MatchStrategy, Rule, Settings};
use shinydir::style::{assemble, paint_once, Line, Look, Span, Stream};

fn path(text: &str) -> FilePath {
    FilePath::parse(text)
}

fn rule(dir: &str, name: Option<&str>) -> Rule {
    Rule::new(
        path(dir),
        name.map(String::from),
        MatchStrategy::Nothing,
        DestinationStrategy::ByExtension,
    )
    .expect("absolute directory")
}

fn mv(file: &str, to: &str) -> PlanEntry {
    Ok(ResolvedMove::new(path(file), path(to)).expect("different places"))
}

fn conflict(to: &str) -> PlanEntry {
    Err(EntryError::OverwriteConflict { destination: path(to) })
}

fn settings(color: bool, unicode: bool) -> Settings {
    Settings { color, unicode, script_warning: true }
}

fn strings(list: &[&str]) -> Vec<String> {
    list.iter().map(|s| String::from(*s)).collect()
}

fn rendered(lines: &Vec<Line>) -> Vec<String> {
    lines
        .iter()
        .map(|line| {
            let mark = match line.stream {
                Stream::Output => "out",
                Stream::Error => "err",
            };
            format!("{}|{}", mark, line.render())
        })
        .collect()
}

fn red_italic(text: &str) -> String {
    format!("{}", text.bright_red().italic())
}

#[test]
fn list_mode_gives_one_bare_line_for_each_resolved_file() {
    let entries = vec![
        mv("/dl/my file.txt", "/dl/Docs/my file.txt"),
        conflict("/dl/Docs/x"),
        mv("/dl/a.png", "/dl/My Images/a.png"),
        mv("/dl/b", "/dl/c/b"),
    ];
    let lines = list_lines_of(&entries);
    assert_eq!(
        rendered(&lines),
        strings(&[
            "out|/dl/my\\ file.txt /dl/Docs/my\\ file.txt",
            "out|/dl/a.png /dl/My\\ Images/a.png",
            "out|/dl/b /dl/c/b",
        ])
    );
    assert_eq!(count_resolved(&entries), 3);
}

#[test]
fn list_mode_report_holds_no_headers_and_no_errors() {
    let plan = vec![
        RuleOutcome::DirectoryMissing { rule: rule("/gone", None) },
        RuleOutcome::Resolved {
            rule: rule("/dl", None),
            entries: vec![mv("/dl/a", "/dl/x/a"), conflict("/dl/x/b")],
        },
        RuleOutcome::ListingFailed { rule: rule("/u", None), cause: String::from("denied") },
        RuleOutcome::Resolved { rule: rule("/tidy", None), entries: Vec::new() },
        RuleOutcome::Resolved { rule: rule("/dl2", None), entries: vec![mv("/dl2/c", "/dl2/y/c")] },
    ];
    for color in [false, true] {
        let lines = report_of(&settings(color, true), &plan, true);
        assert_eq!(rendered(&lines), strings(&["out|/dl/a /dl/x/a", "out|/dl2/c /dl2/y/c"]));
    }
}

#[test]
fn plain_summary_counts_and_groups() {
    colored::control::set_override(true);
    let plain_lines = summarize(
        &settings(false, false),
        &rule("/dl", None),
        &vec![conflict("/dl/x/a"), mv("/dl/b", "/dl/y/b")],
    );
    for line in &plain_lines {
        assert!(line.spans.iter().all(|span| span.looks.is_empty()));
        assert!(!line.render().contains('\u{1b}'));
    }
    let watched = rule("/dl", Some("Downloads"));
    let entries = vec![
        mv("/dl/b.png", "/dl/Images/b.png"),
        conflict("/dl/Images/x.png"),
        mv("/dl/r.pdf", "/srv/docs/r.pdf"),
        mv("/dl/a.png", "/dl/Images/a.png"),
    ];
    let lines = summarize(&settings(false, false), &watched, &entries);
    assert_eq!(
        rendered(&lines),
        vec![
            String::from("out|Downloads - 3 files moved, 1 errors"),
            String::from("out|=> Moved To: Images 2, /srv/docs 1"),
            String::from("err|Moving to /dl/Images/x.png would overwrite a file"),
        ]
    );
}

#[test]
fn summary_of_a_tidy_directory() {
    let watched = rule("/dl", None);
    let entries: Vec<PlanEntry> = Vec::new();
    let plain = summarize(&settings(false, false), &watched, &entries);
    assert_eq!(rendered(&plain), strings(&["out|/dl OK"]));
    let glyph = summarize(&settings(false, true), &watched, &entries);
    assert_eq!(rendered(&glyph), strings(&["out|/dl \u{f00c}"]));
}

#[test]
fn summary_with_errors_only_names_no_directories() {
    colored::control::set_override(true);
    let watched = rule("/dl", None);
    let entries = vec![conflict("/dl/x/a"), conflict("/dl/x/b")];
    let lines = summarize(&settings(false, true), &watched, &entries);
    assert_eq!(
        rendered(&lines),
        vec![
            String::from("out|/dl \u{f444} 2 errors"),
            String::from("err|Moving to /dl/x/a would overwrite a file"),
            String::from("err|Moving to /dl/x/b would overwrite a file"),
        ]
    );
    let coloured = summarize(&settings(true, true), &watched, &entries);
    let name = format!("{}", format!("{}", "/dl".italic()).blue());
    assert_eq!(
        rendered(&coloured),
        vec![
            format!("out|{} {} {}", name, "\u{f444}".white().dimmed(), "2 errors".bright_red()),
            format!("err|{}", red_italic("Moving to /dl/x/a would overwrite a file")),
            format!("err|{}", red_italic("Moving to /dl/x/b would overwrite a file")),
        ]
    );
}

#[test]
fn coloured_summary_is_styled_as_the_terminal_library_styles_it() {
    colored::control::set_override(true);
    let watched = rule("/dl", None);
    let entries = vec![mv("/dl/a.png", "/dl/png/a.png"), mv("/dl/b.jpg", "/dl/jpg/b.jpg")];
    let lines = summarize(&settings(true, false), &watched, &entries);
    let name = format!("{}", format!("{}", "/dl".italic()).blue());
    let header = format!(
        "out|{} {} {}",
        name,
        "-".white().dimmed(),
        "2 files moved".bright_yellow()
    );
    let moved = format!(
        "out|{} {} {} {}{}{} {}",
        "=>".black(),
        "Moved To".bold(),
        "jpg".bright_blue(),
        "(1)".dimmed(),
        ", ".bright_black(),
        "png".bright_blue(),
        "(1)".dimmed()
    );
    assert_eq!(rendered(&lines), vec![header, moved]);
    let named = rule("/dl", Some("Downloads"));
    let tidy = summarize(&settings(true, false), &named, &Vec::new());
    assert_eq!(
        rendered(&tidy),
        vec![format!("out|{} {}", "Downloads".blue(), "OK".green().bold())]
    );
}

#[test]
fn skipped_rules_are_reported_on_standard_error() {
    colored::control::set_override(true);
    let missing = RuleOutcome::DirectoryMissing { rule: rule("/gone", None) };
    let plain = outcome_report(&settings(false, false), &missing, false);
    assert_eq!(rendered(&plain), strings(&["err|/gone: Directory does not exist!"]));
    let coloured = outcome_report(&settings(true, false), &missing, false);
    let name = format!("{}", format!("{}", "/gone".italic()).red());
    assert_eq!(rendered(&coloured), vec![format!("err|{} Directory does not exist!", name)]);
    let unreadable =
        RuleOutcome::ListingFailed { rule: rule("/u", Some("U")), cause: String::from("denied") };
    let plain = outcome_report(&settings(false, false), &unreadable, false);
    assert_eq!(rendered(&plain), strings(&["err|U: denied"]));
    assert!(outcome_report(&settings(false, false), &missing, true).is_empty());
    assert!(outcome_report(&settings(false, false), &unreadable, true).is_empty());
}

#[test]
fn report_separates_rules_by_an_empty_line() {
    let plan = vec![
        RuleOutcome::Resolved { rule: rule("/a", None), entries: Vec::new() },
        RuleOutcome::DirectoryMissing { rule: rule("/gone", None) },
        RuleOutcome::Resolved { rule: rule("/b", None), entries: vec![mv("/b/x", "/b/y/x")] },
    ];
    let lines = report_of(&settings(false, false), &plan, false);
    assert_eq!(
        rendered(&lines),
        strings(&[
            "out|/a OK",
            "out|",
            "err|/gone: Directory does not exist!",
            "out|",
            "out|/b - 1 files moved",
            "out|=> Moved To: y 1",
        ])
    );
    assert!(report_of(&settings(false, false), &Vec::new(), false).is_empty());
}

#[test]
fn notices_come_before_a_run() {
    let plain = settings(false, false);
    assert!(notices_of(&plain, false, false, false).is_empty());
    assert!(notices_of(&plain, false, false, true).is_empty());
    assert_eq!(
        rendered(&notices_of(&plain, true, true, false)),
        strings(&[
            "err|Heads up! Your auto-move rules are configured to call scripts (to_script). If execution time gets too long, scripts are the cause.",
            "err|Info! Auto-move running in dry mode, no files will actually be moved.",
            "err|",
        ])
    );
    assert_eq!(
        rendered(&notices_of(&plain, false, true, true)),
        strings(&["err|Info! Auto-move running in dry mode, no files will actually be moved."])
    );
    assert_eq!(rendered(&notices_of(&plain, true, false, false)).len(), 2);
}

#[test]
fn coloured_notices_are_styled_as_the_terminal_library_styles_them() {
    colored::control::set_override(true);
    let lines = notices_of(&settings(true, false), true, true, true);
    let heads_up = format!(
        "err|{} Your auto-move rules are configured to call scripts {}. If execution time gets too long, {}.",
        "Heads up!".bright_red().bold(),
        "(to_script)".white().dimmed(),
        "scripts are the cause".bold()
    );
    let info = format!(
        "err|{} Auto-move running in {}, no files will actually be moved.",
        "Info!".bright_blue().bold(),
        "dry mode".white().bold()
    );
    assert_eq!(rendered(&lines), vec![heads_up, info]);
}

#[test]
fn painting_adds_escape_codes_and_leaves_plain_text_alone() {
    colored::control::set_override(true);
    assert_eq!(Span::plain(String::from("as is")).paint(), "as is");
    let looks = [
        (Look::Bold, "1"),
        (Look::Dimmed, "2"),
        (Look::Italic, "3"),
        (Look::Black, "30"),
        (Look::Red, "31"),
        (Look::Blue, "34"),
        (Look::BrightBlack, "90"),
        (Look::BrightRed, "91"),
        (Look::BrightYellow, "93"),
        (Look::BrightBlue, "94"),
        (Look::GreenBold, "1;32"),
        (Look::WhiteBold, "1;37"),
        (Look::WhiteDimmed, "2;37"),
        (Look::BrightRedBold, "1;91"),
        (Look::BrightRedItalic, "3;91"),
        (Look::BrightBlueBold, "1;94"),
    ];
    for (look, code) in looks {
        let expected = format!("\u{1b}[{}mx y\u{1b}[0m", code);
        assert_eq!(paint_once("x y", look), expected);
        assert_eq!(Span::styled(String::from("x y"), look).paint(), expected);
        assert_ne!(paint_once("x y", look), "x y");
    }
    assert_eq!(paint_once("x", Look::BrightRedItalic), format!("{}", "x".bright_red().italic()));
    assert_eq!(paint_once("x", Look::WhiteDimmed), format!("{}", "x".white().dimmed()));
    let nested = Span::styled(String::from("x"), Look::Italic).wrapped(Look::Blue);
    assert_eq!(nested.paint(), format!("{}", format!("{}", "x".italic()).blue()));
    assert_eq!(nested.paint(), "\u{1b}[34m\u{1b}[3mx\u{1b}[0m\u{1b}[34m\u{1b}[0m");
    assert_eq!(assemble(&strings(&["a", "", "bc"])), "abc");
}

#[test]
fn paths_sort_by_names_then_characters() {
    assert!(text_precedes("a", "b"));
    assert!(text_precedes("a", "ab"));
    assert!(!text_precedes("ab", "a"));
    assert!(!text_precedes("a", "a"));
    assert!(text_precedes("", "a"));
    assert!(!text_precedes("", ""));
    assert!(text_precedes("Z", "a"));
    let name = |text: &str| String::from(text);
    assert!(name_precedes(&name(".."), &name("-b")));
    assert!(name_precedes(&name(".."), &name("!")));
    assert!(name_precedes(&name(".."), &name("a")));
    assert!(!name_precedes(&name("-b"), &name("..")));
    assert!(!name_precedes(&name(".."), &name("..")));
    assert!(name_precedes(&name("-b"), &name("a")));
    assert!(name_precedes(&name("..."), &name("a")));
    assert!(!name_precedes(&name("..."), &name("..")));
    assert!(precedes(&path("/.."), &path("/-b")));
    assert!(!precedes(&path("/-b"), &path("/..")));
    assert!(precedes(&path("/a/../z"), &path("/a/!")));
    assert!(precedes(&path("/a"), &path("/a/..")));
    assert!(precedes(&path("/a/b"), &path("/a-b")));
    assert!(!precedes(&path("/a-b"), &path("/a/b")));
    assert!(precedes(&path("/a"), &path("/a/b")));
    assert!(precedes(&path(""), &path("/")));
    assert!(precedes(&path("/z"), &path("a")));
    assert!(!precedes(&path("/a"), &path("/a")));
}

#[test]
fn directories_are_listed_once_in_ascending_order() {
    let entries = vec![
        mv("/w/1", "/w/b/1"),
        conflict("/w/zz/9"),
        mv("/w/2", "/w/a/2"),
        mv("/w/3", "/w/b/3"),
        mv("/w/4", "/w/a/sub/4"),
        mv("/w/5", "/"),
    ];
    let all = destinations_of(&entries);
    let shown: Vec<String> = all.iter().map(|p| p.to_text()).collect();
    assert_eq!(shown, strings(&["/w/b", "/w/a", "/w/b", "/w/a/sub"]));
    let sorted = sort_distinct(&all);
    let shown: Vec<String> = sorted.iter().map(|p| p.to_text()).collect();
    assert_eq!(shown, strings(&["/w/a", "/w/a/sub", "/w/b"]));
    assert_eq!(count_of(&all, &path("/w/b")), 2);
    assert_eq!(count_of(&all, &path("/w/a")), 1);
    assert_eq!(count_of(&all, &path("/w/none")), 0);
    let mut list = sorted;
    insert_sorted(&mut list, path("/w/a/sub"));
    insert_sorted(&mut list, path("/w/0"));
    insert_sorted(&mut list, path("/w/c"));
    let shown: Vec<String> = list.iter().map(|p| p.to_text()).collect();
    assert_eq!(shown, strings(&["/w/0", "/w/a", "/w/a/sub", "/w/b", "/w/c"]));
}

#[test]
fn commands_say_what_a_run_does() {
    let check = Commands::Check { target: Some(String::from("/home//u/")), list: true };
    assert_eq!(check.mode(), RunMode { execute: false, dry_run: false, list: true });
    assert_eq!(check.target().map(|p| p.to_text()), Some(String::from("/home/u")));
    let dry = Commands::AutoMove { target: None, dry_run: true };
    assert_eq!(dry.mode(), RunMode { execute: true, dry_run: true, list: false });
    assert!(dry.target().is_none());
    let cli = CLI { config: None, command: Commands::AutoMove { target: None, dry_run: false } };
    assert_eq!(cli.command.mode(), RunMode { execute: true, dry_run: false, list: false });
    assert!(cli.config.is_none());
}

#[test]
fn a_directory_above_is_listed_before_any_named_one() {
    let watched = rule("/w", None);
    let entries = vec![mv("/w/1", "/-b/1"), mv("/w/2", "/../2"), mv("/w/3", "/w/../up/3")];
    let lines = summarize(&settings(false, false), &watched, &entries);
    assert_eq!(
        rendered(&lines),
        strings(&["out|/w - 3 files moved", "out|=> Moved To: /.. 1, /-b 1, ../up 1"])
    );
}
