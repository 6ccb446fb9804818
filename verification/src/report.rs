//! What a run tells its user: the notices before it starts, and the report
//! on each rule afterwards, for people or as bare lines for another
//! program.

use vstd::prelude::*;
use vstd::string::*;
use crate::grouping::{
    count_of, destinations, destinations_of, occurrences, path_views, sort_distinct,
    sorted_distinct,
};
use crate::path::{FilePath, PathView};
use crate::plan::{
    entry_view, entry_views, outcome_views, EntryView, ErrorView, MoveView, OutcomeView,
    PlanEntry, RuleOutcome,
};
use crate::rule::{Rule, RuleView, Settings};
use crate::style::{line_views, span_views, Line, LineView, Look, Span, SpanView, Stream};
use crate::text::{decimal, decimal_text, escape_spaces, escaped, owned};

verus! {

/// A span that is written as it is.
pub open spec fn plain_span(text: Seq<char>) -> SpanView {
    SpanView { text, looks: Seq::empty() }
}

/// A span with one look.
pub open spec fn styled_span(text: Seq<char>, look: Look) -> SpanView {
    SpanView { text, looks: seq![look] }
}

/// A span that takes `look` where colour is on and none where it is off.
pub open spec fn toned_span(text: Seq<char>, color: bool, look: Look) -> SpanView {
    if color {
        styled_span(text, look)
    } else {
        plain_span(text)
    }
}

/// An empty line.
pub open spec fn blank(stream: Stream) -> LineView {
    LineView { stream, spans: Seq::empty() }
}

/// The rule's name as reports show it: in the given colour where colour is
/// on, and italic inside that where the name was derived from the directory.
pub open spec fn name_span(rule: RuleView, color: bool, tint: Look) -> SpanView {
    if !color {
        plain_span(rule.display_name())
    } else if rule.custom_name is None {
        SpanView {
            text: rule.display_name(),
            looks: seq![Look::Italic, tint],
        }
    } else {
        styled_span(rule.display_name(), tint)
    }
}

/// The notice that programs make a run slow.
pub open spec fn script_notice(color: bool) -> LineView {
    LineView {
        stream: Stream::Error,
        spans: seq![
            toned_span("Heads up!"@, color, Look::BrightRedBold),
            plain_span(" Your auto-move rules are configured to call scripts "@),
            toned_span("(to_script)"@, color, Look::WhiteDimmed),
            plain_span(". If execution time gets too long, "@),
            toned_span("scripts are the cause"@, color, Look::Bold),
            plain_span("."@),
        ],
    }
}

/// The notice that nothing will be moved.
pub open spec fn dry_notice(color: bool) -> LineView {
    LineView {
        stream: Stream::Error,
        spans: seq![
            toned_span("Info!"@, color, Look::BrightBlueBold),
            plain_span(" Auto-move running in "@),
            toned_span("dry mode"@, color, Look::WhiteBold),
            plain_span(", no files will actually be moved."@),
        ],
    }
}

/// The notices that precede a run: the one on programs where `warn` holds,
/// the one on the dry run where `dry_run` holds, and after either an empty
/// line unless bare lines were asked for. All go to standard error.
pub open spec fn notices(color: bool, warn: bool, dry_run: bool, list: bool) -> Seq<LineView> {
    (if warn {
        seq![script_notice(color)]
    } else {
        Seq::empty()
    }) + (if dry_run {
        seq![dry_notice(color)]
    } else {
        Seq::empty()
    }) + (if (warn || dry_run) && !list {
        seq![blank(Stream::Error)]
    } else {
        Seq::empty()
    })
}

/// The line for a rule whose directory does not exist.
pub open spec fn missing_line(color: bool, rule: RuleView) -> LineView {
    LineView {
        stream: Stream::Error,
        spans: seq![
            name_span(rule, color, Look::Red),
            plain_span(if color { " "@ } else { ": "@ }),
            plain_span("Directory does not exist!"@),
        ],
    }
}

/// The line for a rule whose directory could not be listed.
pub open spec fn unreadable_line(color: bool, rule: RuleView, cause: Seq<char>) -> LineView {
    LineView {
        stream: Stream::Error,
        spans: seq![
            name_span(rule, color, Look::Red),
            plain_span(if color { " "@ } else { ": "@ }),
            plain_span(cause),
        ],
    }
}

/// The bare line for one move: source, a space, destination, with the spaces
/// inside either escaped.
pub open spec fn list_line(resolved: MoveView) -> LineView {
    LineView {
        stream: Stream::Output,
        spans: seq![
            plain_span(escaped(resolved.file.text())),
            plain_span(" "@),
            plain_span(escaped(resolved.move_to.text())),
        ],
    }
}

/// The bare lines of a rule: one for each resolved entry, in order, and
/// nothing for the others.
pub open spec fn list_lines(entries: Seq<EntryView>) -> Seq<LineView>
    decreases entries.len(),
{
    if entries.len() == 0 {
        Seq::empty()
    } else {
        let rest = list_lines(entries.drop_last());
        match entries.last() {
            Ok(resolved) => rest.push(list_line(resolved)),
            Err(_) => rest,
        }
    }
}

/// The line that reports one error: on standard error, bright red and
/// italic where colour is on, as it is where colour is off.
pub open spec fn error_line(color: bool, error: ErrorView) -> LineView {
    LineView {
        stream: Stream::Error,
        spans: seq![toned_span(error.message(), color, Look::BrightRedItalic)],
    }
}

/// The error lines of a rule: one for each failed entry, in order.
pub open spec fn error_lines(color: bool, entries: Seq<EntryView>) -> Seq<LineView>
    decreases entries.len(),
{
    if entries.len() == 0 {
        Seq::empty()
    } else {
        let rest = error_lines(color, entries.drop_last());
        match entries.last() {
            Ok(_) => rest,
            Err(error) => rest.push(error_line(color, error)),
        }
    }
}

/// The number of resolved entries.
pub open spec fn count_ok(entries: Seq<EntryView>) -> nat
    decreases entries.len(),
{
    if entries.len() == 0 {
        0
    } else if entries.last() is Ok {
        count_ok(entries.drop_last()) + 1
    } else {
        count_ok(entries.drop_last())
    }
}

/// The mark for a rule with nothing to move.
pub open spec fn check_mark(unicode: bool) -> Seq<char> {
    if unicode {
        "\u{f00c}"@
    } else {
        "OK"@
    }
}

/// The mark between a rule's name and its counts.
pub open spec fn dot_mark(unicode: bool) -> Seq<char> {
    if unicode {
        "\u{f444}"@
    } else {
        "-"@
    }
}

/// The line for a rule with nothing to move.
pub open spec fn tidy_line(settings: Settings, rule: RuleView) -> LineView {
    LineView {
        stream: Stream::Output,
        spans: seq![
            name_span(rule, settings.color, Look::Blue),
            plain_span(" "@),
            toned_span(
                check_mark(settings.unicode),
                settings.color,
                Look::GreenBold,
            ),
        ],
    }
}

/// The counts of a rule: the files moved, where there are any, then the
/// errors, where there are any.
pub open spec fn count_spans(color: bool, moved: nat, failed: nat) -> Seq<SpanView> {
    (if moved > 0 {
        seq![
            toned_span(
                decimal_text(moved) + " files moved"@,
                color,
                Look::BrightYellow,
            ),
        ]
    } else {
        Seq::empty()
    }) + (if moved > 0 && failed > 0 {
        seq![plain_span(if color { " "@ } else { ", "@ })]
    } else {
        Seq::empty()
    }) + (if failed > 0 {
        seq![toned_span(decimal_text(failed) + " errors"@, color, Look::BrightRed)]
    } else {
        Seq::empty()
    })
}

/// The first line for a rule with entries: its name, the mark, the counts.
pub open spec fn header_line(settings: Settings, rule: RuleView, moved: nat, failed: nat)
    -> LineView {
    LineView {
        stream: Stream::Output,
        spans: seq![
            name_span(rule, settings.color, Look::Blue),
            plain_span(" "@),
            toned_span(
                dot_mark(settings.unicode),
                settings.color,
                Look::WhiteDimmed,
            ),
            plain_span(" "@),
        ] + count_spans(settings.color, moved, failed),
    }
}

/// A directory as the report shows it: relative to the watched directory
/// where it lies at or below it, else in full.
pub open spec fn shown_directory(base: PathView, directory: PathView) -> Seq<char> {
    match directory.strip_prefix(base) {
        Some(relative) => relative.text(),
        None => directory.text(),
    }
}

/// The spans for one directory that files are moved into: how it is shown,
/// and how many files go there.
pub open spec fn group_spans(color: bool, base: PathView, directory: PathView, count: nat)
    -> Seq<SpanView> {
    seq![
        toned_span(shown_directory(base, directory), color, Look::BrightBlue),
        plain_span(" "@),
        if color {
            styled_span("("@ + decimal_text(count) + ")"@, Look::Dimmed)
        } else {
            plain_span(decimal_text(count))
        },
    ]
}

/// The spans for the directories `dirs`, with a comma between neighbours;
/// the counts are taken from `all`, the directory of every moved file.
pub open spec fn groups_spans(
    color: bool,
    base: PathView,
    dirs: Seq<PathView>,
    all: Seq<PathView>,
) -> Seq<SpanView>
    decreases dirs.len(),
{
    if dirs.len() == 0 {
        Seq::empty()
    } else {
        groups_spans(color, base, dirs.drop_last(), all) + (if dirs.len() > 1 {
            seq![toned_span(", "@, color, Look::BrightBlack)]
        } else {
            Seq::empty()
        }) + group_spans(color, base, dirs.last(), occurrences(all, dirs.last()))
    }
}

/// The line that names the directories that files are moved into.
pub open spec fn moved_line(settings: Settings, base: PathView, all: Seq<PathView>) -> LineView {
    LineView {
        stream: Stream::Output,
        spans: (if settings.color {
            seq![
                styled_span("=>"@, Look::Black),
                plain_span(" "@),
                styled_span("Moved To"@, Look::Bold),
                plain_span(" "@),
            ]
        } else {
            seq![plain_span("=> Moved To: "@)]
        }) + groups_spans(settings.color, base, sorted_distinct(all), all),
    }
}

/// The report on a rule whose directory was listed: the line for a tidy
/// directory where there are no entries; else the header, the directories
/// moved into where there are any, and the errors.
pub open spec fn summary(settings: Settings, rule: RuleView, entries: Seq<EntryView>) -> Seq<
    LineView,
> {
    if entries.len() == 0 {
        seq![tidy_line(settings, rule)]
    } else {
        let all = destinations(entries);
        seq![
            header_line(
                settings,
                rule,
                count_ok(entries),
                (entries.len() - count_ok(entries)) as nat,
            ),
        ] + (if all.len() == 0 {
            Seq::empty()
        } else {
            seq![moved_line(settings, rule.directory, all)]
        }) + error_lines(settings.color, entries)
    }
}

/// The report on one rule. Where bare lines are asked for, a rule that was
/// skipped says nothing and a rule that was listed gives its bare lines.
pub open spec fn outcome_lines(settings: Settings, outcome: OutcomeView, list: bool) -> Seq<
    LineView,
> {
    match outcome {
        OutcomeView::DirectoryMissing { rule } => if list {
            Seq::empty()
        } else {
            seq![missing_line(settings.color, rule)]
        },
        OutcomeView::ListingFailed { rule, cause } => if list {
            Seq::empty()
        } else {
            seq![unreadable_line(settings.color, rule, cause)]
        },
        OutcomeView::Resolved { rule, entries } => if list {
            list_lines(entries)
        } else {
            summary(settings, rule, entries)
        },
    }
}

/// The report on a whole plan: the report on each rule in plan order, with
/// an empty line between rules unless bare lines are asked for.
pub open spec fn report(settings: Settings, plan: Seq<OutcomeView>, list: bool) -> Seq<LineView>
    decreases plan.len(),
{
    if plan.len() == 0 {
        Seq::empty()
    } else {
        report(settings, plan.drop_last(), list) + (if plan.len() > 1 && !list {
            seq![blank(Stream::Output)]
        } else {
            Seq::empty()
        }) + outcome_lines(settings, plan.last(), list)
    }
}

/// The number of resolved entries in a plan.
pub open spec fn resolved_in(plan: Seq<OutcomeView>) -> nat
    decreases plan.len(),
{
    if plan.len() == 0 {
        0
    } else {
        resolved_in(plan.drop_last()) + count_ok(plan.last().entries())
    }
}

/// The bare lines of a rule are as many as its resolved entries, all go to
/// standard output, and none has a look.
pub proof fn lemma_list_lines_are_bare(entries: Seq<EntryView>)
    ensures
        list_lines(entries).len() == count_ok(entries),
        forall|i: int|
            0 <= i < list_lines(entries).len() ==> (#[trigger] list_lines(entries)[i]).stream
                == Stream::Output && list_lines(entries)[i].is_plain(),
    decreases entries.len(),
{
    if entries.len() > 0 {
        lemma_list_lines_are_bare(entries.drop_last());
    }
}

/// List-mode purity: where bare lines are asked for, the report holds
/// exactly one line for each resolved entry of the plan and nothing else;
/// every line goes to standard output and is written as it is, whatever the
/// settings.
pub proof fn lemma_list_mode_is_pure(settings: Settings, plan: Seq<OutcomeView>)
    ensures
        report(settings, plan, true).len() == resolved_in(plan),
        forall|i: int|
            0 <= i < report(settings, plan, true).len() ==> (#[trigger] report(
                settings,
                plan,
                true,
            )[i]).stream == Stream::Output && report(settings, plan, true)[i].is_plain(),
    decreases plan.len(),
{
    if plan.len() > 0 {
        lemma_list_mode_is_pure(settings, plan.drop_last());
        lemma_list_lines_are_bare(plan.last().entries());
        let front = report(settings, plan.drop_last(), true);
        let tail = outcome_lines(settings, plan.last(), true);
        assert(tail == list_lines(plan.last().entries()));
        let all = report(settings, plan, true);
        assert(all =~= front + tail);
        assert forall|i: int| 0 <= i < all.len() implies (#[trigger] all[i]).stream
            == Stream::Output && all[i].is_plain() by {
            if i < front.len() {
                assert(all[i] == front[i]);
            } else {
                assert(all[i] == tail[i - front.len()]);
            }
        }
    }
}

/// Whether every span is written as it is.
pub open spec fn spans_plain(spans: Seq<SpanView>) -> bool {
    forall|i: int| 0 <= i < spans.len() ==> (#[trigger] spans[i]).is_plain()
}

/// Whether every line is written as it is.
pub open spec fn lines_plain(lines: Seq<LineView>) -> bool {
    forall|i: int| 0 <= i < lines.len() ==> (#[trigger] lines[i]).is_plain()
}

proof fn lemma_spans_plain_joined(first: Seq<SpanView>, second: Seq<SpanView>)
    requires
        spans_plain(first),
        spans_plain(second),
    ensures
        spans_plain(first + second),
{
    let all = first + second;
    assert forall|i: int| 0 <= i < all.len() implies (#[trigger] all[i]).is_plain() by {
        if i < first.len() {
            assert(all[i] == first[i]);
        } else {
            assert(all[i] == second[i - first.len()]);
        }
    }
}

proof fn lemma_lines_plain_joined(first: Seq<LineView>, second: Seq<LineView>)
    requires
        lines_plain(first),
        lines_plain(second),
    ensures
        lines_plain(first + second),
{
    let all = first + second;
    assert forall|i: int| 0 <= i < all.len() implies (#[trigger] all[i]).is_plain() by {
        if i < first.len() {
            assert(all[i] == first[i]);
        } else {
            assert(all[i] == second[i - first.len()]);
        }
    }
}

proof fn lemma_colourless_groups_are_plain(base: PathView, dirs: Seq<PathView>, all: Seq<PathView>)
    ensures
        spans_plain(groups_spans(false, base, dirs, all)),
    decreases dirs.len(),
{
    if dirs.len() > 0 {
        lemma_colourless_groups_are_plain(base, dirs.drop_last(), all);
        let front = groups_spans(false, base, dirs.drop_last(), all);
        let comma: Seq<SpanView> = if dirs.len() > 1 {
            seq![toned_span(", "@, false, Look::BrightBlack)]
        } else {
            Seq::empty()
        };
        let group = group_spans(false, base, dirs.last(), occurrences(all, dirs.last()));
        lemma_spans_plain_joined(front, comma);
        lemma_spans_plain_joined(front + comma, group);
    }
}

proof fn lemma_colourless_errors_are_plain(entries: Seq<EntryView>)
    ensures
        lines_plain(error_lines(false, entries)),
    decreases entries.len(),
{
    if entries.len() > 0 {
        lemma_colourless_errors_are_plain(entries.drop_last());
    }
}

/// With colour off, no line of the report on a rule carries a look: the
/// name, the counts, the directories and the errors are all written as they
/// are.
pub proof fn lemma_colourless_summary_is_plain(
    settings: Settings,
    rule: RuleView,
    entries: Seq<EntryView>,
)
    requires
        !settings.color,
    ensures
        lines_plain(summary(settings, rule, entries)),
{
    if entries.len() > 0 {
        let all = destinations(entries);
        let moved = count_ok(entries);
        let failed = (entries.len() - count_ok(entries)) as nat;
        let header = header_line(settings, rule, moved, failed);
        let head = seq![
            name_span(rule, false, Look::Blue),
            plain_span(" "@),
            toned_span(dot_mark(settings.unicode), false, Look::WhiteDimmed),
            plain_span(" "@),
        ];
        let first: Seq<SpanView> = if moved > 0 {
            seq![toned_span(decimal_text(moved) + " files moved"@, false, Look::BrightYellow)]
        } else {
            Seq::empty()
        };
        let comma: Seq<SpanView> = if moved > 0 && failed > 0 {
            seq![plain_span(", "@)]
        } else {
            Seq::empty()
        };
        let second: Seq<SpanView> = if failed > 0 {
            seq![toned_span(decimal_text(failed) + " errors"@, false, Look::BrightRed)]
        } else {
            Seq::empty()
        };
        lemma_spans_plain_joined(first, comma);
        lemma_spans_plain_joined(first + comma, second);
        lemma_spans_plain_joined(head, first + comma + second);
        assert(header.spans == head + (first + comma + second));
        assert(header.is_plain());
        let middle: Seq<LineView> = if all.len() == 0 {
            Seq::empty()
        } else {
            seq![moved_line(settings, rule.directory, all)]
        };
        if all.len() > 0 {
            lemma_colourless_groups_are_plain(rule.directory, sorted_distinct(all), all);
            lemma_spans_plain_joined(
                seq![plain_span("=> Moved To: "@)],
                groups_spans(false, rule.directory, sorted_distinct(all), all),
            );
            assert(moved_line(settings, rule.directory, all).is_plain());
        }
        lemma_colourless_errors_are_plain(entries);
        lemma_lines_plain_joined(seq![header], middle);
        lemma_lines_plain_joined(seq![header] + middle, error_lines(false, entries));
    }
}

/// With colour off, no line of a report carries a look, whether it is made
/// for people or in bare lines: both streams get plain text only.
pub proof fn lemma_colourless_report_is_plain(
    settings: Settings,
    plan: Seq<OutcomeView>,
    list: bool,
)
    requires
        !settings.color,
    ensures
        lines_plain(report(settings, plan, list)),
    decreases plan.len(),
{
    if plan.len() > 0 {
        lemma_colourless_report_is_plain(settings, plan.drop_last(), list);
        let front = report(settings, plan.drop_last(), list);
        let gap: Seq<LineView> = if plan.len() > 1 && !list {
            seq![blank(Stream::Output)]
        } else {
            Seq::empty()
        };
        let last = outcome_lines(settings, plan.last(), list);
        assert(lines_plain(last)) by {
            match plan.last() {
                OutcomeView::Resolved { rule, entries } => {
                    if list {
                        lemma_list_lines_are_bare(entries);
                    } else {
                        lemma_colourless_summary_is_plain(settings, rule, entries);
                    }
                },
                _ => {},
            }
        }
        lemma_lines_plain_joined(front, gap);
        lemma_lines_plain_joined(front + gap, last);
    }
}

/// With colour off, no notice carries a look.
pub proof fn lemma_colourless_notices_are_plain(warn: bool, dry_run: bool, list: bool)
    ensures
        lines_plain(notices(false, warn, dry_run, list)),
{
    let first: Seq<LineView> = if warn {
        seq![script_notice(false)]
    } else {
        Seq::empty()
    };
    let second: Seq<LineView> = if dry_run {
        seq![dry_notice(false)]
    } else {
        Seq::empty()
    };
    let third: Seq<LineView> = if (warn || dry_run) && !list {
        seq![blank(Stream::Error)]
    } else {
        Seq::empty()
    };
    lemma_lines_plain_joined(first, second);
    lemma_lines_plain_joined(first + second, third);
}

fn push_span(spans: &mut Vec<Span>, span: Span)
    ensures
        span_views(final(spans)@) == span_views(old(spans)@).push(span@),
{
    let ghost before = span_views(spans@);
    spans.push(span);
    assert(span_views(spans@) =~= before.push(span@));
}

fn append_spans(spans: &mut Vec<Span>, extra: Vec<Span>)
    ensures
        span_views(final(spans)@) == span_views(old(spans)@) + span_views(extra@),
{
    let ghost before = span_views(spans@);
    let ghost added = span_views(extra@);
    let mut extra = extra;
    spans.append(&mut extra);
    assert(span_views(spans@) =~= before + added);
}

fn push_line(lines: &mut Vec<Line>, line: Line)
    ensures
        line_views(final(lines)@) == line_views(old(lines)@).push(line@),
{
    let ghost before = line_views(lines@);
    lines.push(line);
    assert(line_views(lines@) =~= before.push(line@));
}

fn append_lines(lines: &mut Vec<Line>, extra: Vec<Line>)
    ensures
        line_views(final(lines)@) == line_views(old(lines)@) + line_views(extra@),
{
    let ghost before = line_views(lines@);
    let ghost added = line_views(extra@);
    let mut extra = extra;
    lines.append(&mut extra);
    assert(line_views(lines@) =~= before + added);
}

fn no_spans() -> (out: Vec<Span>)
    ensures
        span_views(out@) == Seq::<SpanView>::empty(),
{
    let out: Vec<Span> = Vec::new();
    assert(span_views(out@) =~= Seq::<SpanView>::empty());
    out
}

fn no_lines() -> (out: Vec<Line>)
    ensures
        line_views(out@) == Seq::<LineView>::empty(),
{
    let out: Vec<Line> = Vec::new();
    assert(line_views(out@) =~= Seq::<LineView>::empty());
    out
}

fn plain(text: &str) -> (out: Span)
    ensures
        out@ == plain_span(text@),
{
    Span::plain(owned(text))
}

fn toned(text: String, color: bool, look: Look) -> (out: Span)
    ensures
        out@ == toned_span(text@, color, look),
{
    if color {
        Span::styled(text, look)
    } else {
        Span::plain(text)
    }
}

fn name_span_of(rule: &Rule, color: bool, tint: Look) -> (out: Span)
    ensures
        out@ == name_span(rule@, color, tint),
{
    let name = rule.display_name();
    if !color {
        Span::plain(name)
    } else if rule.custom_name.is_none() {
        let inner = Span::styled(name, Look::Italic);
        let out = inner.wrapped(tint);
        assert(out@.looks =~= seq![Look::Italic, tint]);
        out
    } else {
        Span::styled(name, tint)
    }
}

/// The notices that precede a run.
pub fn notices_of(settings: &Settings, warn: bool, dry_run: bool, list: bool) -> (out: Vec<Line>)
    ensures
        line_views(out@) == notices(settings.color, warn, dry_run, list),
{
    let color = settings.color;
    let mut out = no_lines();
    if warn {
        let mut spans = no_spans();
        push_span(&mut spans, toned(owned("Heads up!"), color, Look::BrightRedBold));
        push_span(&mut spans, plain(" Your auto-move rules are configured to call scripts "));
        push_span(&mut spans, toned(owned("(to_script)"), color, Look::WhiteDimmed));
        push_span(&mut spans, plain(". If execution time gets too long, "));
        push_span(&mut spans, toned(owned("scripts are the cause"), color, Look::Bold));
        push_span(&mut spans, plain("."));
        let line = Line { stream: Stream::Error, spans };
        assert(line@.spans =~= script_notice(color).spans);
        push_line(&mut out, line);
    }
    let ghost first = line_views(out@);
    if dry_run {
        let mut spans = no_spans();
        push_span(&mut spans, toned(owned("Info!"), color, Look::BrightBlueBold));
        push_span(&mut spans, plain(" Auto-move running in "));
        push_span(&mut spans, toned(owned("dry mode"), color, Look::WhiteBold));
        push_span(&mut spans, plain(", no files will actually be moved."));
        let line = Line { stream: Stream::Error, spans };
        assert(line@.spans =~= dry_notice(color).spans);
        push_line(&mut out, line);
    }
    if (warn || dry_run) && !list {
        push_line(&mut out, Line { stream: Stream::Error, spans: no_spans() });
    }
    assert(line_views(out@) =~= notices(color, warn, dry_run, list));
    out
}

fn skipped_line_of(color: bool, rule: &Rule, cause: &str) -> (out: Line)
    ensures
        out@.stream == Stream::Error,
        out@.spans == seq![
            name_span(rule@, color, Look::Red),
            plain_span(if color { " "@ } else { ": "@ }),
            plain_span(cause@),
        ],
{
    let mut spans = no_spans();
    push_span(&mut spans, name_span_of(rule, color, Look::Red));
    if color {
        push_span(&mut spans, plain(" "));
    } else {
        push_span(&mut spans, plain(": "));
    }
    push_span(&mut spans, plain(cause));
    let out = Line { stream: Stream::Error, spans };
    assert(out@.spans =~= seq![
        name_span(rule@, color, Look::Red),
        plain_span(if color { " "@ } else { ": "@ }),
        plain_span(cause@),
    ]);
    out
}

/// The bare lines of a rule.
pub fn list_lines_of(entries: &Vec<PlanEntry>) -> (out: Vec<Line>)
    ensures
        line_views(out@) == list_lines(entry_views(entries@)),
{
    let mut out = no_lines();
    let mut i: usize = 0;
    assert(entry_views(entries@).subrange(0, 0) =~= Seq::<EntryView>::empty());
    while i < entries.len()
        invariant
            i <= entries.len(),
            line_views(out@) == list_lines(entry_views(entries@).subrange(0, i as int)),
        decreases entries.len() - i,
    {
        let ghost seen = entry_views(entries@).subrange(0, i + 1);
        assert(seen.drop_last() =~= entry_views(entries@).subrange(0, i as int));
        assert(seen.last() == entry_view(entries@[i as int]));
        match &entries[i] {
            Ok(resolved) => {
                let mut spans = no_spans();
                push_span(
                    &mut spans,
                    Span::plain(escape_spaces(resolved.file().to_text().as_str())),
                );
                push_span(&mut spans, plain(" "));
                push_span(
                    &mut spans,
                    Span::plain(escape_spaces(resolved.move_to().to_text().as_str())),
                );
                let line = Line { stream: Stream::Output, spans };
                assert(line@.spans =~= list_line(resolved@).spans);
                push_line(&mut out, line);
            },
            Err(_) => {},
        }
        i = i + 1;
    }
    assert(entry_views(entries@).subrange(0, i as int) =~= entry_views(entries@));
    out
}

fn error_lines_of(color: bool, entries: &Vec<PlanEntry>) -> (out: Vec<Line>)
    ensures
        line_views(out@) == error_lines(color, entry_views(entries@)),
{
    let mut out = no_lines();
    let mut i: usize = 0;
    assert(entry_views(entries@).subrange(0, 0) =~= Seq::<EntryView>::empty());
    while i < entries.len()
        invariant
            i <= entries.len(),
            line_views(out@) == error_lines(color, entry_views(entries@).subrange(0, i as int)),
        decreases entries.len() - i,
    {
        let ghost seen = entry_views(entries@).subrange(0, i + 1);
        assert(seen.drop_last() =~= entry_views(entries@).subrange(0, i as int));
        assert(seen.last() == entry_view(entries@[i as int]));
        match &entries[i] {
            Ok(_) => {},
            Err(error) => {
                let mut spans = no_spans();
                push_span(&mut spans, toned(error.message(), color, Look::BrightRedItalic));
                let line = Line { stream: Stream::Error, spans };
                assert(line@.spans =~= error_line(color, error@).spans);
                push_line(&mut out, line);
            },
        }
        i = i + 1;
    }
    assert(entry_views(entries@).subrange(0, i as int) =~= entry_views(entries@));
    out
}

/// The resolved entries are no more than the entries.
pub proof fn lemma_count_ok_bounded(entries: Seq<EntryView>)
    ensures
        count_ok(entries) <= entries.len(),
    decreases entries.len(),
{
    if entries.len() > 0 {
        lemma_count_ok_bounded(entries.drop_last());
    }
}

/// Counts the resolved entries.
pub fn count_resolved(entries: &Vec<PlanEntry>) -> (out: usize)
    ensures
        out == count_ok(entry_views(entries@)),
        out <= entries.len(),
{
    let mut out: usize = 0;
    let mut i: usize = 0;
    assert(entry_views(entries@).subrange(0, 0) =~= Seq::<EntryView>::empty());
    while i < entries.len()
        invariant
            i <= entries.len(),
            out <= i,
            out == count_ok(entry_views(entries@).subrange(0, i as int)),
        decreases entries.len() - i,
    {
        let ghost seen = entry_views(entries@).subrange(0, i + 1);
        assert(seen.drop_last() =~= entry_views(entries@).subrange(0, i as int));
        assert(seen.last() == entry_view(entries@[i as int]));
        match &entries[i] {
            Ok(_) => {
                out = out + 1;
            },
            Err(_) => {},
        }
        i = i + 1;
    }
    assert(entry_views(entries@).subrange(0, i as int) =~= entry_views(entries@));
    out
}

fn check_mark_of(unicode: bool) -> (out: String)
    ensures
        out@ == check_mark(unicode),
{
    if unicode {
        owned("\u{f00c}")
    } else {
        owned("OK")
    }
}

fn dot_mark_of(unicode: bool) -> (out: String)
    ensures
        out@ == dot_mark(unicode),
{
    if unicode {
        owned("\u{f444}")
    } else {
        owned("-")
    }
}

fn count_spans_of(color: bool, moved: usize, failed: usize) -> (out: Vec<Span>)
    ensures
        span_views(out@) == count_spans(color, moved as nat, failed as nat),
{
    let mut out = no_spans();
    if moved > 0 {
        let mut text = decimal(moved);
        text.append(" files moved");
        push_span(&mut out, toned(text, color, Look::BrightYellow));
    }
    if moved > 0 && failed > 0 {
        if color {
            push_span(&mut out, plain(" "));
        } else {
            push_span(&mut out, plain(", "));
        }
    }
    if failed > 0 {
        let mut text = decimal(failed);
        text.append(" errors");
        push_span(&mut out, toned(text, color, Look::BrightRed));
    }
    assert(span_views(out@) =~= count_spans(color, moved as nat, failed as nat));
    out
}

fn header_line_of(settings: &Settings, rule: &Rule, moved: usize, failed: usize) -> (out: Line)
    ensures
        out@ == header_line(*settings, rule@, moved as nat, failed as nat),
{
    let mut spans = no_spans();
    push_span(&mut spans, name_span_of(rule, settings.color, Look::Blue));
    push_span(&mut spans, plain(" "));
    push_span(
        &mut spans,
        toned(dot_mark_of(settings.unicode), settings.color, Look::WhiteDimmed),
    );
    push_span(&mut spans, plain(" "));
    let ghost head = span_views(spans@);
    assert(head =~= seq![
        name_span(rule@, settings.color, Look::Blue),
        plain_span(" "@),
        toned_span(
            dot_mark(settings.unicode),
            settings.color,
            Look::WhiteDimmed,
        ),
        plain_span(" "@),
    ]);
    append_spans(&mut spans, count_spans_of(settings.color, moved, failed));
    Line { stream: Stream::Output, spans }
}

fn tidy_line_of(settings: &Settings, rule: &Rule) -> (out: Line)
    ensures
        out@ == tidy_line(*settings, rule@),
{
    let mut spans = no_spans();
    push_span(&mut spans, name_span_of(rule, settings.color, Look::Blue));
    push_span(&mut spans, plain(" "));
    push_span(
        &mut spans,
        toned(check_mark_of(settings.unicode), settings.color, Look::GreenBold),
    );
    let out = Line { stream: Stream::Output, spans };
    assert(out@.spans =~= tidy_line(*settings, rule@).spans);
    out
}

fn shown_directory_of(base: &FilePath, directory: &FilePath) -> (out: String)
    ensures
        out@ == shown_directory(base@, directory@),
{
    match directory.strip_prefix(base) {
        Some(relative) => relative.to_text(),
        None => directory.to_text(),
    }
}

fn group_spans_of(color: bool, base: &FilePath, directory: &FilePath, count: usize) -> (out: Vec<
    Span,
>)
    ensures
        span_views(out@) == group_spans(color, base@, directory@, count as nat),
{
    let mut out = no_spans();
    push_span(
        &mut out,
        toned(shown_directory_of(base, directory), color, Look::BrightBlue),
    );
    push_span(&mut out, plain(" "));
    if color {
        let mut text = owned("(");
        text.append(decimal(count).as_str());
        text.append(")");
        push_span(&mut out, Span::styled(text, Look::Dimmed));
    } else {
        push_span(&mut out, Span::plain(decimal(count)));
    }
    assert(span_views(out@) =~= group_spans(color, base@, directory@, count as nat));
    out
}

fn moved_line_of(settings: &Settings, base: &FilePath, all: &Vec<FilePath>) -> (out: Line)
    ensures
        out@ == moved_line(*settings, base@, path_views(all@)),
{
    let color = settings.color;
    let mut spans = no_spans();
    if color {
        push_span(&mut spans, Span::styled(owned("=>"), Look::Black));
        push_span(&mut spans, plain(" "));
        push_span(&mut spans, Span::styled(owned("Moved To"), Look::Bold));
        push_span(&mut spans, plain(" "));
    } else {
        push_span(&mut spans, plain("=> Moved To: "));
    }
    let ghost head = span_views(spans@);
    assert(head =~= if color {
        seq![
            styled_span("=>"@, Look::Black),
            plain_span(" "@),
            styled_span("Moved To"@, Look::Bold),
            plain_span(" "@),
        ]
    } else {
        seq![plain_span("=> Moved To: "@)]
    });
    let dirs = sort_distinct(all);
    let ghost dir_views = path_views(dirs@);
    let mut i: usize = 0;
    assert(dir_views.subrange(0, 0) =~= Seq::<PathView>::empty());
    assert(head + Seq::<SpanView>::empty() =~= head);
    while i < dirs.len()
        invariant
            i <= dirs.len(),
            dir_views == path_views(dirs@),
            span_views(spans@) == head + groups_spans(
                color,
                base@,
                dir_views.subrange(0, i as int),
                path_views(all@),
            ),
        decreases dirs.len() - i,
    {
        let ghost seen = dir_views.subrange(0, i + 1);
        let ghost before = groups_spans(
            color,
            base@,
            dir_views.subrange(0, i as int),
            path_views(all@),
        );
        assert(seen.drop_last() =~= dir_views.subrange(0, i as int));
        assert(seen.last() == dirs@[i as int]@);
        let ghost comma: Seq<SpanView> = if i > 0 {
            seq![toned_span(", "@, color, Look::BrightBlack)]
        } else {
            Seq::empty()
        };
        if i > 0 {
            push_span(&mut spans, toned(owned(", "), color, Look::BrightBlack));
        }
        assert(span_views(spans@) =~= head + (before + comma));
        let count = count_of(all, &dirs[i]);
        let group = group_spans_of(color, base, &dirs[i], count);
        let ghost group_view = span_views(group@);
        append_spans(&mut spans, group);
        assert(span_views(spans@) =~= head + (before + comma + group_view));
        i = i + 1;
    }
    assert(dir_views.subrange(0, i as int) =~= dir_views);
    Line { stream: Stream::Output, spans }
}

/// The report on a rule whose directory was listed.
pub fn summarize(settings: &Settings, rule: &Rule, entries: &Vec<PlanEntry>) -> (out: Vec<Line>)
    ensures
        line_views(out@) == summary(*settings, rule@, entry_views(entries@)),
{
    let mut out = no_lines();
    if entries.len() == 0 {
        push_line(&mut out, tidy_line_of(settings, rule));
        assert(line_views(out@) =~= seq![tidy_line(*settings, rule@)]);
        return out;
    }
    let moved = count_resolved(entries);
    let failed = entries.len() - moved;
    push_line(&mut out, header_line_of(settings, rule, moved, failed));
    let all = destinations_of(entries);
    if all.len() > 0 {
        push_line(&mut out, moved_line_of(settings, &rule.directory, &all));
    }
    append_lines(&mut out, error_lines_of(settings.color, entries));
    assert(line_views(out@) =~= summary(*settings, rule@, entry_views(entries@)));
    out
}

/// The report on one rule.
pub fn outcome_report(settings: &Settings, outcome: &RuleOutcome, list: bool) -> (out: Vec<Line>)
    ensures
        line_views(out@) == outcome_lines(*settings, outcome@, list),
{
    match outcome {
        RuleOutcome::DirectoryMissing { rule } => {
            let mut out = no_lines();
            if !list {
                let line = skipped_line_of(settings.color, rule, "Directory does not exist!");
                assert(line@ == missing_line(settings.color, rule@));
                push_line(&mut out, line);
                assert(line_views(out@) =~= seq![missing_line(settings.color, rule@)]);
            }
            out
        },
        RuleOutcome::ListingFailed { rule, cause } => {
            let mut out = no_lines();
            if !list {
                let line = skipped_line_of(settings.color, rule, cause.as_str());
                assert(line@ == unreadable_line(settings.color, rule@, cause@));
                push_line(&mut out, line);
                assert(line_views(out@) =~= seq![
                    unreadable_line(settings.color, rule@, cause@),
                ]);
            }
            out
        },
        RuleOutcome::Resolved { rule, entries } => {
            if list {
                list_lines_of(entries)
            } else {
                summarize(settings, rule, entries)
            }
        },
    }
}

/// The report on a whole plan.
pub fn report_of(settings: &Settings, plan: &Vec<RuleOutcome>, list: bool) -> (out: Vec<Line>)
    ensures
        line_views(out@) == report(*settings, outcome_views(plan@), list),
{
    let mut out = no_lines();
    let mut i: usize = 0;
    assert(outcome_views(plan@).subrange(0, 0) =~= Seq::<OutcomeView>::empty());
    while i < plan.len()
        invariant
            i <= plan.len(),
            line_views(out@) == report(
                *settings,
                outcome_views(plan@).subrange(0, i as int),
                list,
            ),
        decreases plan.len() - i,
    {
        let ghost seen = outcome_views(plan@).subrange(0, i + 1);
        assert(seen.drop_last() =~= outcome_views(plan@).subrange(0, i as int));
        assert(seen.last() == plan@[i as int]@);
        if i > 0 && !list {
            push_line(&mut out, Line { stream: Stream::Output, spans: no_spans() });
        }
        let ghost middle = line_views(out@);
        let lines = outcome_report(settings, &plan[i], list);
        append_lines(&mut out, lines);
        assert(line_views(out@) =~= report(*settings, seen, list));
        i = i + 1;
    }
    assert(outcome_views(plan@).subrange(0, i as int) =~= outcome_views(plan@));
    out
}

} // verus!
