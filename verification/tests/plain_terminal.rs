use shinydir::style::{paint_once, Look, Span};

#[test]
fn without_colour_support_a_styled_span_is_its_text() {
    colored::control::set_override(false);
    let span = Span::styled(String::from("Heads up!"), Look::BrightRedBold);
    assert_eq!(span.paint(), "Heads up!");
    let nested = span.wrapped(Look::Blue);
    assert_eq!(nested.paint(), "Heads up!");
    assert_eq!(paint_once("", Look::Bold), "");
}
