//! The plan: for each rule what was found, and for each misplaced child
//! where it goes or why that could not be told.

use vstd::prelude::*;
use vstd::string::*;
use crate::path::{parsed, FilePath, PathView};
use crate::rule::{DestinationStrategy, DestinationView, MatcherView, Rule, RuleView};
use crate::seqs::lemma_filter_push;
use crate::text::{chars_of, extension, extension_of, owned, texts};

verus! {

/// The model of a [`ResolvedMove`].
pub struct MoveView {
    pub file: PathView,
    pub move_to: PathView,
}

impl MoveView {
    /// A move goes somewhere else.
    pub open spec fn wf(self) -> bool {
        self.file != self.move_to
    }
}

/// A file and the place it is to be moved to; the two always differ.
pub struct ResolvedMove {
    file: FilePath,
    move_to: FilePath,
}

impl View for ResolvedMove {
    type V = MoveView;

    closed spec fn view(&self) -> MoveView {
        MoveView { file: self.file@, move_to: self.move_to@ }
    }
}

impl Clone for ResolvedMove {
    fn clone(&self) -> (out: Self)
        ensures
            out@ == self@,
    {
        proof {
            use_type_invariant(self);
        }
        ResolvedMove { file: self.file.clone(), move_to: self.move_to.clone() }
    }
}

impl ResolvedMove {
    #[verifier::type_invariant]
    spec fn distinct(self) -> bool {
        self.file@ != self.move_to@
    }

    /// The move of `file` to `move_to`; `None` where the two are the same
    /// place.
    pub fn new(file: FilePath, move_to: FilePath) -> (out: Option<ResolvedMove>)
        ensures
            out is Some == (file@ != move_to@),
            out is Some ==> out->0@ == (MoveView { file: file@, move_to: move_to@ }),
    {
        if file.same_as(&move_to) {
            None
        } else {
            Some(ResolvedMove { file, move_to })
        }
    }

    /// The file to move.
    pub fn file(&self) -> (out: &FilePath)
        ensures
            out@ == self@.file,
            self@.wf(),
    {
        proof {
            use_type_invariant(self);
        }
        &self.file
    }

    /// The place to move it to.
    pub fn move_to(&self) -> (out: &FilePath)
        ensures
            out@ == self@.move_to,
            self@.wf(),
    {
        proof {
            use_type_invariant(self);
        }
        &self.move_to
    }
}

/// The model of an [`EntryError`].
pub enum ErrorView {
    SamePlace { file: PathView },
    NoExtension { file: PathView },
    ScriptNotRun { file: PathView, cause: Seq<char> },
    ScriptFailed { file: PathView },
    ScriptOutput { file: PathView },
    DirCreateFailed { directory: PathView, cause: Seq<char> },
    OverwriteConflict { destination: PathView },
    ProbeFailed { destination: PathView, cause: Seq<char> },
    MoveFailed { file: PathView, destination: PathView, cause: Seq<char> },
}

impl ErrorView {
    /// The sentence that reports the error.
    pub open spec fn message(self) -> Seq<char> {
        match self {
            ErrorView::SamePlace { file } => file.text() + " is already where it belongs"@,
            ErrorView::NoExtension { file } => file.text() + " has no extension to sort it by"@,
            ErrorView::ScriptNotRun { file, cause } => "Couldn't run the script for "@
                + file.text() + ": "@ + cause,
            ErrorView::ScriptFailed { file } => "The script failed for "@ + file.text(),
            ErrorView::ScriptOutput { file } => "The script named no destination for "@
                + file.text(),
            ErrorView::DirCreateFailed { directory, cause } => "Couldn't create directory "@
                + directory.text() + ": "@ + cause,
            ErrorView::OverwriteConflict { destination } => "Moving to "@ + destination.text()
                + " would overwrite a file"@,
            ErrorView::ProbeFailed { destination, cause } => "Cannot check overwrite status for "@
                + destination.text() + ": "@ + cause,
            ErrorView::MoveFailed { file, destination, cause } => "Couldn't move "@ + file.text()
                + " to "@ + destination.text() + ": "@ + cause,
        }
    }
}

/// Why a misplaced child has no destination, or why its move was not made.
pub enum EntryError {
    /// The destination is the place where the file already is.
    SamePlace { file: FilePath },
    /// The rule sorts by extension and the file has none.
    NoExtension { file: FilePath },
    /// The rule's program could not be started.
    ScriptNotRun { file: FilePath, cause: String },
    /// The rule's program ended with a failure status.
    ScriptFailed { file: FilePath },
    /// The rule's program printed nothing usable.
    ScriptOutput { file: FilePath },
    /// The directory to move into could not be created.
    DirCreateFailed { directory: FilePath, cause: String },
    /// Something already is at the destination.
    OverwriteConflict { destination: FilePath },
    /// Whether something is at the destination could not be found out.
    ProbeFailed { destination: FilePath, cause: String },
    /// The move itself failed.
    MoveFailed { file: FilePath, destination: FilePath, cause: String },
}

impl View for EntryError {
    type V = ErrorView;

    open spec fn view(&self) -> ErrorView {
        match self {
            EntryError::SamePlace { file } => ErrorView::SamePlace { file: file@ },
            EntryError::NoExtension { file } => ErrorView::NoExtension { file: file@ },
            EntryError::ScriptNotRun { file, cause } => ErrorView::ScriptNotRun {
                file: file@,
                cause: cause@,
            },
            EntryError::ScriptFailed { file } => ErrorView::ScriptFailed { file: file@ },
            EntryError::ScriptOutput { file } => ErrorView::ScriptOutput { file: file@ },
            EntryError::DirCreateFailed { directory, cause } => ErrorView::DirCreateFailed {
                directory: directory@,
                cause: cause@,
            },
            EntryError::OverwriteConflict { destination } => ErrorView::OverwriteConflict {
                destination: destination@,
            },
            EntryError::ProbeFailed { destination, cause } => ErrorView::ProbeFailed {
                destination: destination@,
                cause: cause@,
            },
            EntryError::MoveFailed { file, destination, cause } => ErrorView::MoveFailed {
                file: file@,
                destination: destination@,
                cause: cause@,
            },
        }
    }
}

impl EntryError {
    /// The sentence that reports the error.
    pub fn message(&self) -> (out: String)
        ensures
            out@ == self@.message(),
    {
        match self {
            EntryError::SamePlace { file } => {
                let mut out = file.to_text();
                out.append(" is already where it belongs");
                out
            },
            EntryError::NoExtension { file } => {
                let mut out = file.to_text();
                out.append(" has no extension to sort it by");
                out
            },
            EntryError::ScriptNotRun { file, cause } => {
                let mut out = owned("Couldn't run the script for ");
                out.append(file.to_text().as_str());
                out.append(": ");
                out.append(cause.as_str());
                out
            },
            EntryError::ScriptFailed { file } => {
                let mut out = owned("The script failed for ");
                out.append(file.to_text().as_str());
                out
            },
            EntryError::ScriptOutput { file } => {
                let mut out = owned("The script named no destination for ");
                out.append(file.to_text().as_str());
                out
            },
            EntryError::DirCreateFailed { directory, cause } => {
                let mut out = owned("Couldn't create directory ");
                out.append(directory.to_text().as_str());
                out.append(": ");
                out.append(cause.as_str());
                out
            },
            EntryError::OverwriteConflict { destination } => {
                let mut out = owned("Moving to ");
                out.append(destination.to_text().as_str());
                out.append(" would overwrite a file");
                out
            },
            EntryError::ProbeFailed { destination, cause } => {
                let mut out = owned("Cannot check overwrite status for ");
                out.append(destination.to_text().as_str());
                out.append(": ");
                out.append(cause.as_str());
                out
            },
            EntryError::MoveFailed { file, destination, cause } => {
                let mut out = owned("Couldn't move ");
                out.append(file.to_text().as_str());
                out.append(" to ");
                out.append(destination.to_text().as_str());
                out.append(": ");
                out.append(cause.as_str());
                out
            },
        }
    }
}

/// The model of a [`PlanEntry`].
pub type EntryView = Result<MoveView, ErrorView>;

/// What became of one misplaced child.
pub type PlanEntry = Result<ResolvedMove, EntryError>;

/// The model of one entry.
pub open spec fn entry_view(entry: PlanEntry) -> EntryView {
    match entry {
        Ok(resolved) => Ok(resolved@),
        Err(error) => Err(error@),
    }
}

/// The models of a sequence of entries.
pub open spec fn entry_views(entries: Seq<PlanEntry>) -> Seq<EntryView> {
    entries.map_values(|e: PlanEntry| entry_view(e))
}

/// The model of a [`RuleOutcome`].
pub enum OutcomeView {
    DirectoryMissing { rule: RuleView },
    ListingFailed { rule: RuleView, cause: Seq<char> },
    Resolved { rule: RuleView, entries: Seq<EntryView> },
}

impl OutcomeView {
    /// The rule that the outcome belongs to.
    pub open spec fn rule(self) -> RuleView {
        match self {
            OutcomeView::DirectoryMissing { rule } => rule,
            OutcomeView::ListingFailed { rule, .. } => rule,
            OutcomeView::Resolved { rule, .. } => rule,
        }
    }

    /// The entries of the outcome; none where the rule was skipped.
    pub open spec fn entries(self) -> Seq<EntryView> {
        match self {
            OutcomeView::Resolved { entries, .. } => entries,
            _ => Seq::empty(),
        }
    }
}

/// What was found for one rule.
pub enum RuleOutcome {
    /// The watched directory does not exist.
    DirectoryMissing { rule: Rule },
    /// The watched directory could not be listed.
    ListingFailed { rule: Rule, cause: String },
    /// The watched directory was listed; one entry for each misplaced child,
    /// in listing order.
    Resolved { rule: Rule, entries: Vec<PlanEntry> },
}

impl View for RuleOutcome {
    type V = OutcomeView;

    open spec fn view(&self) -> OutcomeView {
        match self {
            RuleOutcome::DirectoryMissing { rule } => OutcomeView::DirectoryMissing { rule: rule@ },
            RuleOutcome::ListingFailed { rule, cause } => OutcomeView::ListingFailed {
                rule: rule@,
                cause: cause@,
            },
            RuleOutcome::Resolved { rule, entries } => OutcomeView::Resolved {
                rule: rule@,
                entries: entry_views(entries@),
            },
        }
    }
}

/// The models of a sequence of outcomes.
pub open spec fn outcome_views(plan: Seq<RuleOutcome>) -> Seq<OutcomeView> {
    plan.map_values(|o: RuleOutcome| o@)
}

/// The children that are not in their place, in listing order.
pub open spec fn misplaced(matcher: MatcherView, names: Seq<Seq<char>>) -> Seq<Seq<char>> {
    names.filter(|name: Seq<char>| !matcher.keeps(name))
}

/// Picks the children of a watched directory that are not in their place.
pub fn misplaced_children(rule: &Rule, children: &Vec<String>) -> (out: Vec<String>)
    ensures
        texts(out@) == misplaced(rule@.matcher, texts(children@)),
{
    let ghost stray = |name: Seq<char>| !rule@.matcher.keeps(name);
    let mut out: Vec<String> = Vec::new();
    let mut i: usize = 0;
    while i < children.len()
        invariant
            i <= children.len(),
            stray == |name: Seq<char>| !rule@.matcher.keeps(name),
            texts(out@) == texts(children@).subrange(0, i as int).filter(stray),
        decreases children.len() - i,
    {
        let ghost seen = texts(children@).subrange(0, i as int);
        let ghost before = texts(out@);
        proof {
            lemma_filter_push(seen, children@[i as int]@, stray);
            assert(seen.push(children@[i as int]@) =~= texts(children@).subrange(0, i + 1));
        }
        if !rule.matcher.keeps(&children[i]) {
            let name = children[i].clone();
            out.push(name);
            assert(texts(out@) =~= before.push(children@[i as int]@));
        }
        i = i + 1;
    }
    assert(texts(children@).subrange(0, i as int) =~= texts(children@));
    out
}

/// The path of the child `name` of a watched directory.
pub open spec fn child_path(directory: PathView, name: Seq<char>) -> PathView {
    directory.join(parsed(name))
}

/// The move of `file` to `move_to`, refused where the two are the same.
pub open spec fn settled(file: PathView, move_to: PathView) -> EntryView {
    if file == move_to {
        Err(ErrorView::SamePlace { file })
    } else {
        Ok(MoveView { file, move_to })
    }
}

/// The entry for `file` when it goes into the directory `to`, taken relative
/// to the watched directory.
pub open spec fn resolved_into(directory: PathView, file: PathView, to: PathView) -> EntryView {
    settled(file, file.placed_in(directory.join(to)))
}

/// The entry for `file` by the file's extension.
pub open spec fn resolved_by_extension(directory: PathView, file: PathView) -> EntryView {
    match file.file_name() {
        Some(name) => match extension(name) {
            Some(ext) => resolved_into(directory, file, parsed(ext)),
            None => Err(ErrorView::NoExtension { file }),
        },
        None => Err(ErrorView::NoExtension { file }),
    }
}

/// The entry for `file` under a rule that needs no program; `None` for a
/// rule that does.
pub open spec fn resolved_plainly(rule: RuleView, file: PathView) -> Option<EntryView> {
    match rule.destination {
        DestinationView::Fixed(to) => Some(resolved_into(rule.directory, file, to)),
        DestinationView::ByExtension => Some(resolved_by_extension(rule.directory, file)),
        DestinationView::Script(_) => None,
    }
}

fn settle(file: FilePath, move_to: FilePath) -> (out: PlanEntry)
    ensures
        entry_view(out) == settled(file@, move_to@),
{
    if file.same_as(&move_to) {
        Err(EntryError::SamePlace { file })
    } else {
        match ResolvedMove::new(file.clone(), move_to) {
            Some(resolved) => Ok(resolved),
            None => Err(EntryError::SamePlace { file }),
        }
    }
}

fn resolve_into(directory: &FilePath, file: &FilePath, to: &FilePath) -> (out: PlanEntry)
    ensures
        entry_view(out) == resolved_into(directory@, file@, to@),
{
    let target = directory.join(to);
    let move_to = file.placed_in(&target);
    settle(file.clone(), move_to)
}

/// Resolves `file` under a rule that needs no program; `None` for a rule
/// that does.
pub fn resolve_plainly(rule: &Rule, file: &FilePath) -> (out: Option<PlanEntry>)
    ensures
        out is Some == resolved_plainly(rule@, file@) is Some,
        out is Some ==> entry_view(out->0) == resolved_plainly(rule@, file@)->0,
{
    match &rule.destination {
        DestinationStrategy::Fixed(to) => Some(resolve_into(&rule.directory, file, to)),
        DestinationStrategy::ByExtension => {
            match file.file_name() {
                Some(name) => match extension_of(name.as_str()) {
                    Some(ext) => {
                        let to = FilePath::parse(ext.as_str());
                        Some(resolve_into(&rule.directory, file, &to))
                    },
                    None => Some(Err(EntryError::NoExtension { file: file.clone() })),
                },
                None => Some(Err(EntryError::NoExtension { file: file.clone() })),
            }
        },
        DestinationStrategy::Script(_) => None,
    }
}

/// The model of a [`ScriptReply`].
pub enum ReplyView {
    NotRun(Seq<char>),
    Exited { success: bool, output: Seq<char> },
}

/// What came of running a rule's program for one file.
pub enum ScriptReply {
    /// The program could not be started; the text says why.
    NotRun(String),
    /// The program ran: whether it ended with success, and what it printed.
    Exited { success: bool, output: String },
}

impl View for ScriptReply {
    type V = ReplyView;

    open spec fn view(&self) -> ReplyView {
        match self {
            ScriptReply::NotRun(cause) => ReplyView::NotRun(cause@),
            ScriptReply::Exited { success, output } => ReplyView::Exited {
                success: *success,
                output: output@,
            },
        }
    }
}

/// Whether a character ends a line.
pub open spec fn is_line_end(c: char) -> bool {
    c == '\n' || c == '\r'
}

/// `output` without the line ends at its end.
pub open spec fn trimmed(output: Seq<char>) -> Seq<char>
    decreases output.len(),
{
    if output.len() > 0 && is_line_end(output.last()) {
        trimmed(output.drop_last())
    } else {
        output
    }
}

/// The destination that a program's output names: its one line, which must
/// not be empty. Output of several lines names none.
pub open spec fn fragment(output: Seq<char>) -> Option<Seq<char>> {
    let line = trimmed(output);
    if line.len() > 0 && !line.contains('\n') {
        Some(line)
    } else {
        None
    }
}

/// Reads the destination that a program's output names.
pub fn fragment_of(output: &str) -> (out: Option<String>)
    ensures
        out is Some == fragment(output@) is Some,
        out is Some ==> out->0@ == fragment(output@)->0,
{
    let chars = chars_of(output);
    let mut end: usize = chars.len();
    assert(output@.subrange(0, end as int) =~= output@);
    while end > 0 && (chars[end - 1] == '\n' || chars[end - 1] == '\r')
        invariant
            chars@ == output@,
            end <= chars.len(),
            trimmed(output@) == trimmed(output@.subrange(0, end as int)),
        decreases end,
    {
        assert(output@.subrange(0, end as int).drop_last() =~= output@.subrange(0, end - 1));
        end = end - 1;
    }
    let ghost line = output@.subrange(0, end as int);
    assert(trimmed(output@) == line);
    if end == 0 {
        return None;
    }
    let mut i: usize = 0;
    while i < end
        invariant
            chars@ == output@,
            0 < end,
            i <= end <= chars.len(),
            line == output@.subrange(0, end as int),
            trimmed(output@) == line,
            forall|k: int| 0 <= k < i ==> line[k] != '\n',
        decreases end - i,
    {
        if chars[i] == '\n' {
            assert(line[i as int] == '\n');
            return None;
        }
        i = i + 1;
    }
    Some(owned(output.substring_char(0, end)))
}

/// The entry for `file` from what the rule's program did.
pub open spec fn resolved_by_script(directory: PathView, file: PathView, reply: ReplyView)
    -> EntryView {
    match reply {
        ReplyView::NotRun(cause) => Err(ErrorView::ScriptNotRun { file, cause }),
        ReplyView::Exited { success, output } => if !success {
            Err(ErrorView::ScriptFailed { file })
        } else {
            match fragment(output) {
                Some(line) => resolved_into(directory, file, parsed(line)),
                None => Err(ErrorView::ScriptOutput { file }),
            }
        },
    }
}

/// Resolves `file` from what the rule's program did for it.
pub fn resolve_by_script(directory: &FilePath, file: &FilePath, reply: &ScriptReply) -> (out:
    PlanEntry)
    ensures
        entry_view(out) == resolved_by_script(directory@, file@, reply@),
{
    match reply {
        ScriptReply::NotRun(cause) => Err(
            EntryError::ScriptNotRun { file: file.clone(), cause: cause.clone() },
        ),
        ScriptReply::Exited { success, output } => {
            if !*success {
                Err(EntryError::ScriptFailed { file: file.clone() })
            } else {
                match fragment_of(output.as_str()) {
                    Some(line) => {
                        let to = FilePath::parse(line.as_str());
                        resolve_into(directory, file, &to)
                    },
                    None => Err(EntryError::ScriptOutput { file: file.clone() }),
                }
            }
        },
    }
}

} // verus!
