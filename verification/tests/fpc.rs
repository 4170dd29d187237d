use judge_compile::diagnostic::{Diagnostic, Position, Span};
use judge_compile::fpc::{fpc_code, level_of_fpc, parse_fpc_diagnostics, read_fpc_line};

fn diagnostic(level: &str, line: usize, column: usize, message: &str, code: Option<&str>) -> Diagnostic {
    Diagnostic {
        level: level.to_string(),
        span: Some(Span { start: Position { line, column }, end: None }),
        message: message.to_string(),
        code: code.map(|c| c.to_string()),
        details: Vec::new(),
    }
}

#[test]
fn parses_all_levels() {
    let text = "Free Pascal Compiler version 3.2.2\n\
                a.pas(1,2) Fatal: f\na.pas(3,4) Error: e\na.pas(5,6) Warning: w\n\
                a.pas(7,8) Note: n\na.pas(9,10) Hint: h\nFatal: Compilation aborted\n";
    assert_eq!(
        parse_fpc_diagnostics(text),
        vec![
            diagnostic("error", 0, 1, "f", None),
            diagnostic("error", 2, 3, "e", None),
            diagnostic("warning", 4, 5, "w", None),
            diagnostic("note", 6, 7, "n", None),
            diagnostic("help", 8, 9, "h", None),
        ]
    );
}

#[test]
fn maps_levels() {
    assert_eq!(level_of_fpc("Fatal"), "error");
    assert_eq!(level_of_fpc("Hint"), "help");
    assert_eq!(level_of_fpc("Other"), "note");
}

#[test]
fn parts_the_number_from_the_message() {
    let parted = |s: &str| fpc_code(s.to_string());
    assert_eq!(parted("(5002)  x y"), (Some("5002".to_string()), "x y".to_string()));
    assert_eq!(parted("(5002)x"), (None, "(5002)x".to_string()));
    assert_eq!(parted("(50a2) x"), (None, "(50a2) x".to_string()));
    assert_eq!(parted("(5)   "), (Some("5".to_string()), " ".to_string()));
    assert_eq!(parted("(5) "), (None, "(5) ".to_string()));
    assert_eq!(parted("x (5) y"), (None, "x (5) y".to_string()));
}

#[test]
fn reads_the_number_in_a_line() {
    assert_eq!(
        read_fpc_line("a.pas(12,3) Error: (5000) Identifier not found \"x\""),
        Some(diagnostic("error", 11, 2, "Identifier not found \"x\"", Some("5000")))
    );
}

#[test]
fn takes_the_shortest_file() {
    assert_eq!(
        read_fpc_line("a(1,2) Error: b(3,4) Note: c"),
        Some(diagnostic("error", 0, 1, "b(3,4) Note: c", None))
    );
    assert_eq!(read_fpc_line("a(b).pas(3,4) Note: c"), Some(diagnostic("note", 2, 3, "c", None)));
}

#[test]
fn white_space_around_the_level() {
    assert_eq!(read_fpc_line("a(1,1)\t  Note:\u{a0} x "), Some(diagnostic("note", 0, 0, "x ", None)));
    assert_eq!(read_fpc_line("a(1,1)Note: x"), None);
    assert_eq!(read_fpc_line("a(1,1) Note:x"), None);
    assert_eq!(read_fpc_line("a(1,1) Note: "), None);
    assert_eq!(read_fpc_line("a(1,1) Note:   "), Some(diagnostic("note", 0, 0, " ", None)));
}

#[test]
fn fpc_passes_over_foreign_files() {
    assert_eq!(read_fpc_line("/usr/a.pas(1,1) Error: x"), None);
    assert_eq!(read_fpc_line("b/include/a.pas(1,1) Error: x"), None);
    assert_eq!(read_fpc_line("a.pas(1) Error: x"), None);
    assert_eq!(read_fpc_line(""), None);
}

#[test]
fn outputs_can_be_joined() {
    let a = "a.pas(1,2) Error: e\n";
    let b = "nothing\nb.pas(3,4) Hint: h";
    let mut both = parse_fpc_diagnostics(a);
    both.extend(parse_fpc_diagnostics(b));
    assert_eq!(parse_fpc_diagnostics(&format!("{}{}", a, b)), both);
    assert_eq!(both.len(), 2);
}

#[test]
fn outputs_can_be_separated() {
    let (a, b) = ("x(1,2) Error: a", "y(3,4) Hint: b\n");
    for first in ["", a, "x(1,2) Error: a\n", "\n\n"] {
        let mut expected = parse_fpc_diagnostics(first);
        expected.extend(parse_fpc_diagnostics(b));
        assert_eq!(parse_fpc_diagnostics(&format!("{}\n{}", first, b)), expected);
    }
    assert_eq!(
        parse_fpc_diagnostics(&format!("{}\r", a)),
        vec![diagnostic("error", 0, 1, "a\r", None)]
    );
}
