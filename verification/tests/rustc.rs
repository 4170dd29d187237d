use judge_compile::diagnostic::{Diagnostic, Position, Span};
use judge_compile::rustc::{
    convert, normalize_level, pick_primary, rustc_step, span_to_our, RustcCode, RustcMessage,
    RustcSpan,
};

fn span(line: usize, column: usize, is_primary: bool, label: Option<&str>) -> RustcSpan {
    RustcSpan {
        line_start: line,
        line_end: line + 1,
        column_start: column,
        column_end: column + 4,
        is_primary,
        label: label.map(|s| s.to_string()),
    }
}

fn ours(line: usize, column: usize) -> Span {
    Span {
        start: Position { line, column },
        end: Some(Position { line: line + 1, column: column + 4 }),
    }
}

fn message(level: &str, text: &str) -> RustcMessage {
    RustcMessage {
        message: text.to_string(),
        code: None,
        level: level.to_string(),
        spans: Vec::new(),
        children: Vec::new(),
        rendered: None,
    }
}

#[test]
fn levels_of_rustc() {
    assert_eq!(normalize_level("error"), "error");
    assert_eq!(normalize_level("error: internal compiler error"), "error");
    assert_eq!(normalize_level("warning"), "warning");
    assert_eq!(normalize_level("note"), "note");
    assert_eq!(normalize_level("help"), "help");
    assert_eq!(normalize_level("failure-note"), "note");
    assert_eq!(normalize_level(&normalize_level("failure-note")), "note");
}

#[test]
fn the_primary_place() {
    let spans = vec![span(1, 1, false, None), span(2, 2, true, None), span(3, 3, true, None)];
    assert_eq!(pick_primary(&spans).map(|s| s.line_start), Some(2));
    assert_eq!(pick_primary(&spans[..1]).map(|s| s.line_start), Some(1));
    assert_eq!(pick_primary(&[]), None);
}

#[test]
fn places_count_from_zero() {
    assert_eq!(span_to_our(&span(5, 9, true, None)), ours(4, 8));
    let zero = RustcSpan {
        line_start: 0,
        line_end: 0,
        column_start: 0,
        column_end: 1,
        is_primary: true,
        label: None,
    };
    let none = Position { line: 0, column: 0 };
    assert_eq!(span_to_our(&zero), Span { start: none, end: Some(none) });
}

#[test]
fn converts_a_message() {
    let mut grandchild = message("odd", "g");
    grandchild.spans.push(span(7, 7, false, None));
    let mut child = message("help", "c");
    child.children.push(grandchild);
    let mut m = message("error", "mismatched types");
    m.code = Some(RustcCode { code: "E0308".to_string() });
    m.spans.push(span(2, 2, false, Some("expected")));
    m.spans.push(span(3, 3, false, None));
    m.spans.push(span(4, 4, true, Some("found")));
    m.spans.push(span(5, 5, false, Some("here")));
    m.children.push(child);
    let note = |line: usize, text: &str| Diagnostic {
        level: "note".to_string(),
        span: Some(ours(line, line)),
        message: text.to_string(),
        code: None,
        details: Vec::new(),
    };
    let expected = Diagnostic {
        level: "error".to_string(),
        span: Some(ours(3, 3)),
        message: "mismatched types".to_string(),
        code: Some("E0308".to_string()),
        details: vec![
            note(1, "expected"),
            note(4, "here"),
            Diagnostic {
                level: "help".to_string(),
                span: None,
                message: "c".to_string(),
                code: None,
                details: vec![note(6, "g")],
            },
        ],
    };
    assert_eq!(convert(&m), expected);
}

#[test]
fn what_is_done_with_a_line() {
    let step = rustc_step("", None);
    assert_eq!((step.shown, step.diagnostic), (None, None));
    let step = rustc_step("linker failed", None);
    assert_eq!((step.shown, step.diagnostic), (Some("linker failed\n".to_string()), None));
    let mut m = message("warning", "w");
    m.rendered = Some("warning: w\n\n".to_string());
    let step = rustc_step("{}", Some(m));
    assert_eq!(step.shown, Some("warning: w\n\n".to_string()));
    assert_eq!(step.diagnostic.unwrap().message, "w");
    let step = rustc_step("{}", Some(message("note", "n")));
    assert_eq!(step.shown, None);
    assert_eq!(step.diagnostic.unwrap().level, "note");
}
