use judge_compile::diagnostic::{Diagnostic, Position, Span};
use judge_compile::gcc::{
    assemble_gcc, extract_tilde_count, gcc_code, gcc_ends_fit, gcc_header, parse_gcc_diagnostics,
    read_gcc_line, read_gcc_lines, strip_ansi, GccHeader,
};

fn at(line: usize, column: usize) -> Option<Span> {
    Some(Span { start: Position { line, column }, end: None })
}

fn between(line: usize, from: usize, to: usize) -> Option<Span> {
    Some(Span {
        start: Position { line, column: from },
        end: Some(Position { line, column: to }),
    })
}

fn diagnostic(level: &str, span: Option<Span>, message: &str, code: Option<&str>) -> Diagnostic {
    Diagnostic {
        level: level.to_string(),
        span,
        message: message.to_string(),
        code: code.map(|c| c.to_string()),
        details: Vec::new(),
    }
}

#[test]
fn strips_control_sequences() {
    assert_eq!(strip_ansi("\x1b[01m\x1b[Kmain.cpp:1:2:\x1b[m\x1b[K x"), "main.cpp:1:2: x");
    assert_eq!(strip_ansi("plain"), "plain");
    assert_eq!(strip_ansi("a\x1b[1;31mb\x1b[0mc"), "abc");
    assert_eq!(strip_ansi("\x1b[12"), "\x1b[12");
    assert_eq!(strip_ansi("\x1b[?25l"), "\x1b[?25l");
    assert_eq!(strip_ansi("\x1b"), "\x1b");
}

#[test]
fn stripping_does_not_start_over() {
    assert_eq!(strip_ansi("\x1b\x1b[m[m"), "\x1b[m");
}

#[test]
fn counts_tildes_after_the_caret() {
    assert_eq!(extract_tilde_count("      |         ^~~~~"), Some(4));
    assert_eq!(extract_tilde_count("      |         ^"), Some(0));
    assert_eq!(extract_tilde_count("      | ~~~ ^~ ~~"), Some(1));
    assert_eq!(extract_tilde_count("|\x1b[01;31m^~~\x1b[m"), Some(2));
    assert_eq!(extract_tilde_count("    5 |     foo ^~"), None);
    assert_eq!(extract_tilde_count("      |     ++++"), None);
    assert_eq!(extract_tilde_count(""), None);
}

#[test]
fn reads_a_header() {
    let expected = GccHeader {
        file: "main.cpp".to_string(),
        line: "5".to_string(),
        column: "10".to_string(),
        level: "fatal error".to_string(),
        message: "no: such: file".to_string(),
    };
    assert_eq!(gcc_header("main.cpp:5:10: fatal error: no: such: file"), Some(expected));
    assert_eq!(gcc_header("main.cpp: In function 'int main()':"), None);
    assert_eq!(gcc_header("main.cpp:5:10: remark: x"), None);
    assert_eq!(gcc_header(":5:10: error: x"), None);
    assert_eq!(gcc_header("a:5:10: error: "), None);
    assert_eq!(gcc_header("a:5:10:error: x"), None);
    assert_eq!(gcc_header(" x\na:5:10: error: x"), None);
    assert_eq!(gcc_header("a:5:10: error: x\ny"), None);
}

#[test]
fn reads_digits_of_other_scripts_as_one() {
    let reading = read_gcc_line("a:\u{663}:\u{664}: error: x");
    let entry = reading.entry.unwrap();
    assert_eq!((entry.line, entry.column), (1, 1));
    let reading = read_gcc_line("a:99999999999999999999999:7: error: x");
    let entry = reading.entry.unwrap();
    assert_eq!((entry.line, entry.column), (1, 7));
}

#[test]
fn parts_the_code_from_the_message() {
    let parted = |s: &str| {
        let (message, code) = gcc_code(s);
        (message, code)
    };
    assert_eq!(
        parted("unused variable 'x' [-Wunused-variable]"),
        ("unused variable 'x'".to_string(), Some("-Wunused-variable".to_string()))
    );
    assert_eq!(
        parted("no match for operator[] \t [a]"),
        ("no match for operator[]".to_string(), Some("a".to_string()))
    );
    assert_eq!(parted("foo [a [b]"), ("foo".to_string(), Some("a [b".to_string())));
    assert_eq!(parted("[x]"), ("".to_string(), Some("x".to_string())));
    assert_eq!(parted("operator[]"), ("operator[]".to_string(), None));
    assert_eq!(parted("foo [a] b"), ("foo [a] b".to_string(), None));
    assert_eq!(parted("plain"), ("plain".to_string(), None));
}

#[test]
fn parses_an_annotated_message() {
    let text = "main.cpp: In function 'int main()':\n\
                main.cpp:3:9: warning: unused variable 'abcd' [-Wunused-variable]\n    \
                3 |     int abcd;\n      |         ^~~~\n";
    assert_eq!(
        parse_gcc_diagnostics(text),
        vec![diagnostic(
            "warning",
            between(2, 8, 12),
            "unused variable 'abcd'",
            Some("-Wunused-variable")
        )]
    );
}

#[test]
fn looks_three_lines_ahead() {
    let near = "a:1:1: error: x\n1\n2\n | ^~\n";
    assert_eq!(parse_gcc_diagnostics(near), vec![diagnostic("error", between(0, 0, 2), "x", None)]);
    let far = "a:1:1: error: x\n1\n2\n3\n | ^~\n";
    assert_eq!(parse_gcc_diagnostics(far), vec![diagnostic("error", at(0, 0), "x", None)]);
    let last = "a:1:1: error: x";
    assert_eq!(parse_gcc_diagnostics(last), vec![diagnostic("error", at(0, 0), "x", None)]);
}

#[test]
fn parses_colored_output() {
    let text = "\x1b[01m\x1b[Ka.cpp:2:3:\x1b[m\x1b[K \x1b[01;31m\x1b[Kfatal error: \x1b[m\x1b[Kx\n";
    assert_eq!(parse_gcc_diagnostics(text), vec![diagnostic("error", at(1, 2), "x", None)]);
}

#[test]
fn notes_belong_to_what_is_before_them() {
    let text = "a:1:1: note: first\na:2:1: note: second\na:3:1: error: third\na:4:1: note: fourth\n\
                a:5:1: note: fifth\na:6:1: warning: sixth\n";
    let mut third = diagnostic("error", at(2, 0), "third", None);
    third.details.push(diagnostic("note", at(3, 0), "fourth", None));
    third.details.push(diagnostic("note", at(4, 0), "fifth", None));
    assert_eq!(
        parse_gcc_diagnostics(text),
        vec![
            diagnostic("note", at(0, 0), "first", None),
            diagnostic("note", at(1, 0), "second", None),
            third,
            diagnostic("warning", at(5, 0), "sixth", None),
        ]
    );
}

#[test]
fn passes_over_foreign_files() {
    let text = "/usr/lib/x.h:1:1: error: a\nx/include/y.h:1:1: error: b\ninclude/z.h:1:1: error: c\n";
    assert_eq!(parse_gcc_diagnostics(text), vec![diagnostic("error", at(0, 0), "c", None)]);
}

#[test]
fn line_zero_stays_zero() {
    assert_eq!(
        parse_gcc_diagnostics("a:0:0: error: x\n | ^~~"),
        vec![diagnostic("error", between(0, 0, 2), "x", None)]
    );
}

#[test]
fn tells_ends_that_cannot_be_counted() {
    let text = format!("a:1:{}: error: x\n | ^~\n", usize::MAX);
    assert!(!gcc_ends_fit(&read_gcc_lines(&text)));
    let fits = format!("a:1:{}: error: x\n | ^\n", usize::MAX);
    let readings = read_gcc_lines(&fits);
    assert!(gcc_ends_fit(&readings));
    assert_eq!(
        assemble_gcc(&readings),
        vec![diagnostic("error", between(0, usize::MAX - 1, usize::MAX), "x", None)]
    );
    let foreign = format!("/a:1:{}: error: x\n | ^~\n", usize::MAX);
    assert!(gcc_ends_fit(&read_gcc_lines(&foreign)));
}

#[test]
fn windows_line_ends() {
    assert_eq!(
        parse_gcc_diagnostics("a:1:1: error: x\r\nb:1:1: error: y\r"),
        vec![diagnostic("error", at(0, 0), "x", None), diagnostic("error", at(0, 0), "y\r", None)]
    );
}

#[test]
fn colours_change_no_diagnostics() {
    for text in [
        "\x1b[01m\x1b[Ka.cpp:1:2:\x1b[m\x1b[K \x1b[01;31m\x1b[Kerror: \x1b[m\x1b[Kx [\x1b[01;35m-Wy\x1b[m]\n\
         \x20   1 | \x1b[32mfoo\x1b[m\n      | \x1b[31m^~~\x1b[m\na.cpp:3:4: note: z\n\x1b[m",
        "a.cpp:1:2: error: x\r\n\x1b[ma.cpp:3:4: \x1b[mwarning: y\r\n\x1b[0m\x1b[K\n",
        "a:1:1: error: \x1b",
        "\x1b[m",
        "",
    ] {
        assert_eq!(parse_gcc_diagnostics(text), parse_gcc_diagnostics(&strip_ansi(text)), "{:?}", text);
    }
    assert_eq!(
        parse_gcc_diagnostics("a:1:1: error: x\r\x1b[m\n"),
        vec![diagnostic("error", at(0, 0), "x\r", None)]
    );
}
