use judge_compile::diagnostic::{Diagnostic, Position, Span};
use judge_compile::mcs::{parse_mcs_diagnostics, read_mcs_line};

fn diagnostic(level: &str, line: usize, column: usize, message: &str, code: &str) -> Diagnostic {
    Diagnostic {
        level: level.to_string(),
        span: Some(Span { start: Position { line, column }, end: None }),
        message: message.to_string(),
        code: Some(code.to_string()),
        details: Vec::new(),
    }
}

#[test]
fn parses_mcs_output() {
    let text = "main.cs(3,17): warning CS0219: The variable `x' is assigned\n\
                main.cs(4,9): error CS1525: Unexpected symbol `}'\nCompilation failed: 1 error(s)\n";
    assert_eq!(
        parse_mcs_diagnostics(text),
        vec![
            diagnostic("warning", 2, 16, "The variable `x' is assigned", "CS0219"),
            diagnostic("error", 3, 8, "Unexpected symbol `}'", "CS1525"),
        ]
    );
}

#[test]
fn the_column_may_be_missing() {
    assert_eq!(read_mcs_line("a.cs(12): error CS1: x"), Some(diagnostic("error", 11, 0, "x", "CS1")));
    assert_eq!(read_mcs_line("a.cs(12,): error CS1: x"), Some(diagnostic("error", 11, 0, "x", "CS1")));
    assert_eq!(read_mcs_line("a.cs(12,0): error CS1: x"), Some(diagnostic("error", 11, 0, "x", "CS1")));
    assert_eq!(
        read_mcs_line("a.cs(12,99999999999999999999999): error CS1: x"),
        Some(diagnostic("error", 11, 0, "x", "CS1"))
    );
}

#[test]
fn lines_that_are_no_messages() {
    assert_eq!(read_mcs_line("a.cs(1,2): note CS1: x"), None);
    assert_eq!(read_mcs_line("a.cs(1,2): error XS1: x"), None);
    assert_eq!(read_mcs_line("a.cs(1,2): error CS: x"), None);
    assert_eq!(read_mcs_line("a.cs(1,2) error CS1: x"), None);
    assert_eq!(read_mcs_line("(1,2): error CS1: x"), None);
    assert_eq!(read_mcs_line("/a.cs(1,2): error CS1: x"), None);
    assert_eq!(read_mcs_line("b/include/a.cs(1,2): error CS1: x"), None);
}

#[test]
fn takes_the_shortest_mcs_file() {
    assert_eq!(
        read_mcs_line("a(1): error CS1: b(2): error CS2: c"),
        Some(diagnostic("error", 0, 0, "b(2): error CS2: c", "CS1"))
    );
}

#[test]
fn mcs_outputs_can_be_joined() {
    let a = "a.cs(1,2): error CS3: e\n";
    let b = "b.cs(3,4): warning CS5: h\n";
    let mut both = parse_mcs_diagnostics(a);
    both.extend(parse_mcs_diagnostics(b));
    assert_eq!(parse_mcs_diagnostics(&format!("{}{}", a, b)), both);
}

#[test]
fn mcs_outputs_can_be_separated() {
    let b = "y(3,4): warning CS2: b\n";
    for first in ["", "x(1,2): error CS1: a", "x(1,2): error CS1: a\n", "\n\n"] {
        let mut expected = parse_mcs_diagnostics(first);
        expected.extend(parse_mcs_diagnostics(b));
        assert_eq!(parse_mcs_diagnostics(&format!("{}\n{}", first, b)), expected);
    }
}
