use helios::diagnostic::{
    Diagnostic, FormattedText, FormattedTextSegment, Location, Severity,
};
use helios::source::TextSpan;

#[test]
fn test_compare_severity_ok() {
    let mut is_ok = true;

    for severity in &[Severity::Note, Severity::Note, Severity::Warning] {
        is_ok &= *severity < Severity::Error;
    }

    assert!(is_ok);
}

#[test]
fn test_compare_severity_not_ok() {
    let mut is_ok = true;

    for severity in &[Severity::Note, Severity::Error, Severity::Warning] {
        is_ok &= *severity < Severity::Error;
    }

    assert!(!is_ok);
}

#[test]
fn test_severity_order_is_total() {
    assert!(Severity::Note < Severity::Warning);
    assert!(Severity::Warning < Severity::Error);
    assert!(Severity::Error < Severity::Bug);
    assert!(Severity::Note < Severity::Bug);
    assert!(!(Severity::Bug < Severity::Bug));
    assert!(Severity::Bug > Severity::Note);
    assert_eq!(Severity::default(), Severity::Note);
}

#[test]
fn test_formatted_text_render_plain() {
    let text = FormattedText::new(Vec::new())
        .text("expected ")
        .code("=")
        .text(" here");
    assert_eq!(text.render(), "expected = here");
}

#[test]
fn test_formatted_text_render_code_block() {
    let text = FormattedText::new(Vec::new())
        .text("try this:")
        .code_block("let x = 1");
    assert_eq!(text.render(), "try this:\n\n    let x = 1\n\n");
}

#[test]
fn test_formatted_text_render_list() {
    let entries = vec![
        FormattedText::new(Vec::new()).text("first"),
        FormattedText::new(Vec::new()).text("second"),
    ];
    let text = FormattedText::new(Vec::new()).text("options:").list(entries);
    assert_eq!(text.render(), "options:\n\n    first\n    second\n\n\n");
}

#[test]
fn test_formatted_text_line_break() {
    let text = FormattedText::new(Vec::new()).text("a").line_break().text("b");
    assert_eq!(text.render(), "a\n\nb");
}

#[test]
fn test_formatted_text_segment_render() {
    assert_eq!(FormattedTextSegment::text("plain").render(), "plain");
    assert_eq!(FormattedTextSegment::code("x + y").render(), "x + y");
    assert_eq!(FormattedTextSegment::code_block("x + y").render(), "    x + y");
    assert_eq!(FormattedTextSegment::LineBreak.render(), "\n\n");
    let list = FormattedTextSegment::list(vec![FormattedText::new(Vec::new()).text("entry")]);
    assert_eq!(list.render(), "    entry\n");
}

#[test]
fn test_diagnostic_constructors() {
    assert_eq!(Diagnostic::bug("b").severity, Severity::Bug);
    assert_eq!(Diagnostic::error("e").severity, Severity::Error);
    assert_eq!(Diagnostic::warning("w").severity, Severity::Warning);
    assert_eq!(Diagnostic::note("n").severity, Severity::Note);
    assert_eq!(Diagnostic::error("e").title.as_str(), "e");
}

#[test]
fn test_diagnostic_builder_chain() {
    let location = Location::new(3, TextSpan::new(5, 9));
    let d = Diagnostic::error("unexpected token")
        .location(location)
        .message(FormattedText::new(Vec::new()).text("found ").code(")"))
        .hint(FormattedText::new(Vec::new()).text("remove it"));
    assert_eq!(d.severity, Severity::Error);
    assert_eq!(d.location.file_id, 3);
    assert_eq!(d.location.range, TextSpan::new(5, 9));
    assert_eq!(d.message.render(), "found )");
    assert_eq!(d.hint.as_ref().unwrap().render(), "remove it");
    assert!(d.description.is_none());
    let d = d.severity(Severity::Warning).title("renamed");
    assert_eq!(d.severity, Severity::Warning);
    assert_eq!(d.title.as_str(), "renamed");
}

#[test]
fn test_diagnostic_new() {
    let d = Diagnostic::new(
        Location::new(1, TextSpan::new(0, 2)),
        Severity::Note,
        "note",
        None,
        FormattedText::new(Vec::new()).text("msg"),
        None,
    );
    assert_eq!(d.location.file_id, 1);
    assert_eq!(d.severity, Severity::Note);
    assert_eq!(d.title.as_str(), "note");
    assert_eq!(d.message.render(), "msg");
}
