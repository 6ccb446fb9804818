//! Styled text: what is written, to which stream, and how it looks.
//!
//! A report is a sequence of [`Line`]s, each a sequence of [`Span`]s. What a
//! span says and how it is to look is decided by verified code. Turning a
//! look into terminal escape codes is left to the `colored` crate, which
//! consults the environment before it writes any: so a painted text is known
//! to be one of two things, the text itself or the text wrapped in codes, and
//! not which of the two.

use vstd::prelude::*;
use vstd::string::*;
use colored::Colorize;
use crate::text::{join, joined, texts};

verus! {

/// The looks that reports use.
#[derive(Clone, Copy, PartialEq, Eq, Structural, Debug)]
pub enum Look {
    /// Bold.
    Bold,
    /// Dimmed.
    Dimmed,
    /// Italic.
    Italic,
    /// Black.
    Black,
    /// Red.
    Red,
    /// Blue.
    Blue,
    /// Bright black.
    BrightBlack,
    /// Bright red.
    BrightRed,
    /// Bright yellow.
    BrightYellow,
    /// Bright blue.
    BrightBlue,
    /// Green and bold.
    GreenBold,
    /// White and bold.
    WhiteBold,
    /// White and dimmed.
    WhiteDimmed,
    /// Bright red and bold.
    BrightRedBold,
    /// Bright red and italic.
    BrightRedItalic,
    /// Bright blue and bold.
    BrightBlueBold,
}

impl Look {
    /// The escape code that starts the look on a terminal.
    pub open spec fn code(self) -> Seq<char> {
        match self {
            Look::Bold => "\u{1b}[1m"@,
            Look::Dimmed => "\u{1b}[2m"@,
            Look::Italic => "\u{1b}[3m"@,
            Look::Black => "\u{1b}[30m"@,
            Look::Red => "\u{1b}[31m"@,
            Look::Blue => "\u{1b}[34m"@,
            Look::BrightBlack => "\u{1b}[90m"@,
            Look::BrightRed => "\u{1b}[91m"@,
            Look::BrightYellow => "\u{1b}[93m"@,
            Look::BrightBlue => "\u{1b}[94m"@,
            Look::GreenBold => "\u{1b}[1;32m"@,
            Look::WhiteBold => "\u{1b}[1;37m"@,
            Look::WhiteDimmed => "\u{1b}[2;37m"@,
            Look::BrightRedBold => "\u{1b}[1;91m"@,
            Look::BrightRedItalic => "\u{1b}[3;91m"@,
            Look::BrightBlueBold => "\u{1b}[1;94m"@,
        }
    }
}

/// The escape code that ends every look.
pub open spec fn reset_code() -> Seq<char> {
    "\u{1b}[0m"@
}

/// Whether the characters of `text` occur in `out`, in order.
pub open spec fn embeds(out: Seq<char>, text: Seq<char>) -> bool
    decreases out.len(),
{
    if text.len() == 0 {
        true
    } else if out.len() == 0 {
        false
    } else if out.last() == text.last() {
        embeds(out.drop_last(), text.drop_last())
    } else {
        embeds(out.drop_last(), text)
    }
}

/// Whether `out` can be what is written for `text` under the look that
/// starts with `code`: the characters of the text are all there, in order;
/// and a text that holds no escape character is written as it is or between
/// the start code and the reset code.
pub open spec fn written(text: Seq<char>, code: Seq<char>, out: Seq<char>) -> bool {
    &&& embeds(out, text)
    &&& !text.contains('\u{1b}') ==> out == text || out == code + text + reset_code()
}

/// `Colorize::bold` on a string slice, written out through `Display`: the text
/// as it is, or between the start code of the look and the reset code, with
/// the start code repeated after each reset code inside the text.
#[verifier::external_body]
fn write_bold(text: &str) -> (out: String)
    ensures
        written(text@, Look::Bold.code(), out@),
{
    format!("{}", text.bold())
}

/// `Colorize::dimmed` on a string slice, written out through `Display`: the text
/// as it is, or between the start code of the look and the reset code, with
/// the start code repeated after each reset code inside the text.
#[verifier::external_body]
fn write_dimmed(text: &str) -> (out: String)
    ensures
        written(text@, Look::Dimmed.code(), out@),
{
    format!("{}", text.dimmed())
}

/// `Colorize::italic` on a string slice, written out through `Display`: the text
/// as it is, or between the start code of the look and the reset code, with
/// the start code repeated after each reset code inside the text.
#[verifier::external_body]
fn write_italic(text: &str) -> (out: String)
    ensures
        written(text@, Look::Italic.code(), out@),
{
    format!("{}", text.italic())
}

/// `Colorize::black` on a string slice, written out through `Display`: the text
/// as it is, or between the start code of the look and the reset code, with
/// the start code repeated after each reset code inside the text.
#[verifier::external_body]
fn write_black(text: &str) -> (out: String)
    ensures
        written(text@, Look::Black.code(), out@),
{
    format!("{}", text.black())
}

/// `Colorize::red` on a string slice, written out through `Display`: the text
/// as it is, or between the start code of the look and the reset code, with
/// the start code repeated after each reset code inside the text.
#[verifier::external_body]
fn write_red(text: &str) -> (out: String)
    ensures
        written(text@, Look::Red.code(), out@),
{
    format!("{}", text.red())
}

/// `Colorize::blue` on a string slice, written out through `Display`: the text
/// as it is, or between the start code of the look and the reset code, with
/// the start code repeated after each reset code inside the text.
#[verifier::external_body]
fn write_blue(text: &str) -> (out: String)
    ensures
        written(text@, Look::Blue.code(), out@),
{
    format!("{}", text.blue())
}

/// `Colorize::bright_black` on a string slice, written out through `Display`: the text
/// as it is, or between the start code of the look and the reset code, with
/// the start code repeated after each reset code inside the text.
#[verifier::external_body]
fn write_bright_black(text: &str) -> (out: String)
    ensures
        written(text@, Look::BrightBlack.code(), out@),
{
    format!("{}", text.bright_black())
}

/// `Colorize::bright_red` on a string slice, written out through `Display`: the text
/// as it is, or between the start code of the look and the reset code, with
/// the start code repeated after each reset code inside the text.
#[verifier::external_body]
fn write_bright_red(text: &str) -> (out: String)
    ensures
        written(text@, Look::BrightRed.code(), out@),
{
    format!("{}", text.bright_red())
}

/// `Colorize::bright_yellow` on a string slice, written out through `Display`: the text
/// as it is, or between the start code of the look and the reset code, with
/// the start code repeated after each reset code inside the text.
#[verifier::external_body]
fn write_bright_yellow(text: &str) -> (out: String)
    ensures
        written(text@, Look::BrightYellow.code(), out@),
{
    format!("{}", text.bright_yellow())
}

/// `Colorize::bright_blue` on a string slice, written out through `Display`: the text
/// as it is, or between the start code of the look and the reset code, with
/// the start code repeated after each reset code inside the text.
#[verifier::external_body]
fn write_bright_blue(text: &str) -> (out: String)
    ensures
        written(text@, Look::BrightBlue.code(), out@),
{
    format!("{}", text.bright_blue())
}

/// `Colorize::green` then `Colorize::bold` on a string slice, written out through `Display`: the text
/// as it is, or between the start code of the look and the reset code, with
/// the start code repeated after each reset code inside the text.
#[verifier::external_body]
fn write_green_bold(text: &str) -> (out: String)
    ensures
        written(text@, Look::GreenBold.code(), out@),
{
    format!("{}", text.green().bold())
}

/// `Colorize::white` then `Colorize::bold` on a string slice, written out through `Display`: the text
/// as it is, or between the start code of the look and the reset code, with
/// the start code repeated after each reset code inside the text.
#[verifier::external_body]
fn write_white_bold(text: &str) -> (out: String)
    ensures
        written(text@, Look::WhiteBold.code(), out@),
{
    format!("{}", text.white().bold())
}

/// `Colorize::white` then `Colorize::dimmed` on a string slice, written out through `Display`: the text
/// as it is, or between the start code of the look and the reset code, with
/// the start code repeated after each reset code inside the text.
#[verifier::external_body]
fn write_white_dimmed(text: &str) -> (out: String)
    ensures
        written(text@, Look::WhiteDimmed.code(), out@),
{
    format!("{}", text.white().dimmed())
}

/// `Colorize::bright_red` then `Colorize::bold` on a string slice, written out through `Display`: the text
/// as it is, or between the start code of the look and the reset code, with
/// the start code repeated after each reset code inside the text.
#[verifier::external_body]
fn write_bright_red_bold(text: &str) -> (out: String)
    ensures
        written(text@, Look::BrightRedBold.code(), out@),
{
    format!("{}", text.bright_red().bold())
}

/// `Colorize::bright_red` then `Colorize::italic` on a string slice, written out through `Display`: the text
/// as it is, or between the start code of the look and the reset code, with
/// the start code repeated after each reset code inside the text.
#[verifier::external_body]
fn write_bright_red_italic(text: &str) -> (out: String)
    ensures
        written(text@, Look::BrightRedItalic.code(), out@),
{
    format!("{}", text.bright_red().italic())
}

/// `Colorize::bright_blue` then `Colorize::bold` on a string slice, written out through `Display`: the text
/// as it is, or between the start code of the look and the reset code, with
/// the start code repeated after each reset code inside the text.
#[verifier::external_body]
fn write_bright_blue_bold(text: &str) -> (out: String)
    ensures
        written(text@, Look::BrightBlueBold.code(), out@),
{
    format!("{}", text.bright_blue().bold())
}

/// A text occurs in whatever holds its characters in order: it is no
/// longer than that.
pub proof fn lemma_embeds_is_no_shorter(out: Seq<char>, text: Seq<char>)
    requires
        embeds(out, text),
    ensures
        out.len() >= text.len(),
    decreases out.len(),
{
    if text.len() > 0 && out.len() > 0 {
        if out.last() == text.last() {
            lemma_embeds_is_no_shorter(out.drop_last(), text.drop_last());
        } else {
            lemma_embeds_is_no_shorter(out.drop_last(), text);
        }
    }
}

/// Every text holds its own characters in order.
pub proof fn lemma_embeds_itself(text: Seq<char>)
    ensures
        embeds(text, text),
    decreases text.len(),
{
    if text.len() > 0 {
        lemma_embeds_itself(text.drop_last());
    }
}

/// What holds the characters of a text holds those of the text without its
/// last character.
pub proof fn lemma_embeds_shorter(out: Seq<char>, text: Seq<char>)
    requires
        embeds(out, text),
        text.len() > 0,
    ensures
        embeds(out, text.drop_last()),
    decreases out.len(),
{
    let rest = text.drop_last();
    if out.last() == text.last() {
        if rest.len() > 0 {
            if out.last() == rest.last() {
                lemma_embeds_shorter(out.drop_last(), rest);
            }
        }
    } else {
        lemma_embeds_shorter(out.drop_last(), text);
        if rest.len() > 0 {
            if out.last() == rest.last() {
                lemma_embeds_shorter(out.drop_last(), rest);
            }
        }
    }
}

/// Holding the characters in order carries over: if `outer` holds those of
/// `middle`, and `middle` those of `text`, then `outer` holds those of
/// `text`.
pub proof fn lemma_embeds_transitive(outer: Seq<char>, middle: Seq<char>, text: Seq<char>)
    requires
        embeds(outer, middle),
        embeds(middle, text),
    ensures
        embeds(outer, text),
    decreases outer.len(),
{
    if text.len() > 0 {
        if outer.last() == middle.last() {
            if middle.last() == text.last() {
                lemma_embeds_transitive(outer.drop_last(), middle.drop_last(), text.drop_last());
            } else {
                lemma_embeds_transitive(outer.drop_last(), middle.drop_last(), text);
            }
        } else {
            lemma_embeds_transitive(outer.drop_last(), middle, text);
            if outer.last() == text.last() {
                lemma_embeds_shorter(outer.drop_last(), text);
            }
        }
    }
}

/// Writes `text` under one look.
pub fn paint_once(text: &str, look: Look) -> (out: String)
    ensures
        written(text@, look.code(), out@),
{
    match look {
        Look::Bold => write_bold(text),
        Look::Dimmed => write_dimmed(text),
        Look::Italic => write_italic(text),
        Look::Black => write_black(text),
        Look::Red => write_red(text),
        Look::Blue => write_blue(text),
        Look::BrightBlack => write_bright_black(text),
        Look::BrightRed => write_bright_red(text),
        Look::BrightYellow => write_bright_yellow(text),
        Look::BrightBlue => write_bright_blue(text),
        Look::GreenBold => write_green_bold(text),
        Look::WhiteBold => write_white_bold(text),
        Look::WhiteDimmed => write_white_dimmed(text),
        Look::BrightRedBold => write_bright_red_bold(text),
        Look::BrightRedItalic => write_bright_red_italic(text),
        Look::BrightBlueBold => write_bright_blue_bold(text),
    }
}

/// The model of a [`Span`].
pub struct SpanView {
    pub text: Seq<char>,
    pub looks: Seq<Look>,
}

impl SpanView {
    /// Whether the span is written as it is.
    pub open spec fn is_plain(self) -> bool {
        self.looks.len() == 0
    }
}

/// Whether `out` can be what is written for `text` under the looks `looks`,
/// put on innermost first: with no look the text itself, else what can be
/// written under the last look for what can be written under the others.
pub open spec fn painted_as(text: Seq<char>, looks: Seq<Look>, out: Seq<char>) -> bool
    decreases looks.len(),
{
    if looks.len() == 0 {
        out == text
    } else {
        exists|inner: Seq<char>|
            #![trigger written(inner, looks.last().code(), out)]
            painted_as(text, looks.drop_last(), inner) && written(
                inner,
                looks.last().code(),
                out,
            )
    }
}

/// Whatever a text is painted to holds the characters of the text, in
/// order, and is no shorter than the text.
pub proof fn lemma_painted_keeps_the_text(text: Seq<char>, looks: Seq<Look>, out: Seq<char>)
    requires
        painted_as(text, looks, out),
    ensures
        embeds(out, text),
        out.len() >= text.len(),
    decreases looks.len(),
{
    if looks.len() == 0 {
        lemma_embeds_itself(text);
    } else {
        let inner = choose|inner: Seq<char>|
            #![trigger written(inner, looks.last().code(), out)]
            painted_as(text, looks.drop_last(), inner) && written(
                inner,
                looks.last().code(),
                out,
            );
        lemma_painted_keeps_the_text(text, looks.drop_last(), inner);
        lemma_embeds_transitive(out, inner, text);
    }
    lemma_embeds_is_no_shorter(out, text);
}

/// A text without an escape character, under one look, is painted to
/// itself or to itself between the look's start code and the reset code.
pub proof fn lemma_painted_once(text: Seq<char>, look: Look, out: Seq<char>)
    requires
        painted_as(text, seq![look], out),
        !text.contains('\u{1b}'),
    ensures
        out == text || out == look.code() + text + reset_code(),
{
    let looks = seq![look];
    let inner = choose|inner: Seq<char>|
        #![trigger written(inner, looks.last().code(), out)]
        painted_as(text, looks.drop_last(), inner) && written(inner, looks.last().code(), out);
    assert(looks.drop_last().len() == 0);
    assert(inner == text);
}

/// A piece of text and the looks that it is given, innermost first.
pub struct Span {
    pub text: String,
    pub looks: Vec<Look>,
}

impl View for Span {
    type V = SpanView;

    open spec fn view(&self) -> SpanView {
        SpanView { text: self.text@, looks: self.looks@ }
    }
}

impl Span {
    /// Text without a look.
    pub fn plain(text: String) -> (out: Span)
        ensures
            out@ == (SpanView { text: text@, looks: Seq::empty() }),
    {
        Span { text, looks: Vec::new() }
    }

    /// Text with one look.
    pub fn styled(text: String, look: Look) -> (out: Span)
        ensures
            out@ == (SpanView { text: text@, looks: seq![look] }),
    {
        let mut looks: Vec<Look> = Vec::new();
        looks.push(look);
        assert(looks@ =~= seq![look]);
        Span { text, looks }
    }

    /// The span with one more look around it.
    pub fn wrapped(self, look: Look) -> (out: Span)
        ensures
            out@ == (SpanView { text: self@.text, looks: self@.looks.push(look) }),
    {
        let Span { text, mut looks } = self;
        looks.push(look);
        Span { text, looks }
    }

    /// The span as it is written to a terminal: its text, painted with each
    /// of its looks in turn. A span without a look comes out as its text;
    /// with looks, the text is still all there, in order.
    pub fn paint(&self) -> (out: String)
        ensures
            painted_as(self@.text, self@.looks, out@),
            embeds(out@, self@.text),
            out@.len() >= self@.text.len(),
            self@.is_plain() ==> out@ == self@.text,
    {
        let mut out = self.text.clone();
        let mut i: usize = 0;
        assert(self@.looks.subrange(0, 0) =~= Seq::<Look>::empty());
        while i < self.looks.len()
            invariant
                i <= self.looks.len(),
                painted_as(self@.text, self@.looks.subrange(0, i as int), out@),
            decreases self.looks.len() - i,
        {
            let ghost inner = out@;
            let next = paint_once(out.as_str(), self.looks[i]);
            proof {
                let upto = self@.looks.subrange(0, i + 1);
                assert(upto.drop_last() =~= self@.looks.subrange(0, i as int));
                assert(upto.last() == self.looks@[i as int]);
                assert(painted_as(self@.text, upto.drop_last(), inner) && written(
                    inner,
                    upto.last().code(),
                    next@,
                ));
            }
            out = next;
            i = i + 1;
        }
        proof {
            assert(self@.looks.subrange(0, i as int) =~= self@.looks);
            lemma_painted_keeps_the_text(self@.text, self@.looks, out@);
        }
        out
    }
}

/// The models of a sequence of spans.
pub open spec fn span_views(spans: Seq<Span>) -> Seq<SpanView> {
    spans.map_values(|s: Span| s@)
}

/// Where a line is written.
#[derive(Clone, Copy, PartialEq, Eq, Structural, Debug)]
pub enum Stream {
    /// Standard output: the report itself.
    Output,
    /// Standard error: notices and errors.
    Error,
}

/// The model of a [`Line`].
pub struct LineView {
    pub stream: Stream,
    pub spans: Seq<SpanView>,
}

impl LineView {
    /// Whether every span of the line is written as it is.
    pub open spec fn is_plain(self) -> bool {
        forall|i: int| 0 <= i < self.spans.len() ==> (#[trigger] self.spans[i]).is_plain()
    }

    /// The texts of the spans, one after another.
    pub open spec fn text(self) -> Seq<char> {
        joined(self.spans.map_values(|s: SpanView| s.text), Seq::empty())
    }
}

/// One line of a report.
pub struct Line {
    pub stream: Stream,
    pub spans: Vec<Span>,
}

impl View for Line {
    type V = LineView;

    open spec fn view(&self) -> LineView {
        LineView { stream: self.stream, spans: span_views(self.spans@) }
    }
}

/// The models of a sequence of lines.
pub open spec fn line_views(lines: Seq<Line>) -> Seq<LineView> {
    lines.map_values(|l: Line| l@)
}

/// Whether `pieces` can be what the spans were painted to: one piece for
/// each span, each what that span's text can be painted to under its looks.
pub open spec fn painted_from(pieces: Seq<Seq<char>>, spans: Seq<SpanView>) -> bool {
    &&& pieces.len() == spans.len()
    &&& forall|i: int|
        0 <= i < spans.len() ==> painted_as(
            (#[trigger] spans[i]).text,
            spans[i].looks,
            pieces[i],
        )
}

impl Line {
    /// The spans of the line, painted one by one.
    pub fn paint_spans(&self) -> (out: Vec<String>)
        ensures
            painted_from(texts(out@), self@.spans),
    {
        let mut out: Vec<String> = Vec::new();
        let mut i: usize = 0;
        while i < self.spans.len()
            invariant
                i <= self.spans.len(),
                out.len() == i,
                forall|k: int|
                    0 <= k < i ==> painted_as(
                        (#[trigger] span_views(self.spans@)[k]).text,
                        span_views(self.spans@)[k].looks,
                        out@[k]@,
                    ),
            decreases self.spans.len() - i,
        {
            let piece = self.spans[i].paint();
            assert(span_views(self.spans@)[i as int] == self.spans@[i as int]@);
            out.push(piece);
            i = i + 1;
        }
        out
    }

    /// The line as it is written: its painted spans, one after another. A
    /// line of spans without looks comes out as their texts.
    pub fn render(&self) -> (out: String)
        ensures
            exists|pieces: Seq<Seq<char>>|
                painted_from(pieces, self@.spans) && out@ == joined(pieces, Seq::empty()),
            self@.is_plain() ==> out@ == self@.text(),
    {
        let pieces = self.paint_spans();
        let out = assemble(&pieces);
        proof {
            if self@.is_plain() {
                assert(texts(pieces@) =~= self@.spans.map_values(|s: SpanView| s.text)) by {
                    assert forall|i: int| 0 <= i < self@.spans.len() implies texts(pieces@)[i]
                        == self@.spans[i].text by {
                        assert(self@.spans[i].is_plain());
                    }
                }
            }
        }
        out
    }
}

/// Painted pieces written one after another.
pub fn assemble(pieces: &Vec<String>) -> (out: String)
    ensures
        out@ == joined(texts(pieces@), Seq::empty()),
{
    let out = join(pieces, "");
    proof {
        reveal_strlit("");
        assert(""@ =~= Seq::<char>::empty());
    }
    out
}

} // verus!
