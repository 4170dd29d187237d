use judge_compile::diagnostic::{Diagnostic, Position, Span};
use judge_compile::java::{get_class_name, jar_arguments, java_file_name, manifest_text};
use judge_compile::java_build::{Event, JavaBuild, Step};
use judge_compile::javac::{
    assemble_javac, parse_javac_diagnostics, read_caret, read_javac_lines, JavacHeader, JavacReading,
};
use judge_compile::run::Failure;
use judge_compile::source::is_top_level;

fn diagnostic(level: &str, line: usize, column: usize, message: &str) -> Diagnostic {
    Diagnostic {
        level: level.to_string(),
        span: Some(Span { start: Position { line, column }, end: None }),
        message: message.to_string(),
        code: None,
        details: Vec::new(),
    }
}

fn parsed(text: &str, name: &str) -> Vec<Diagnostic> {
    parse_javac_diagnostics(text, name).unwrap()
}

#[test]
fn parses_javac_output() {
    let text = "Main.java:3: error: ';' expected\n        int x = 1\n                 ^\n\
                Main.java:7: warning: [removal] x\n  foo();\n     ^\n1 error\n1 warning\n";
    assert_eq!(
        parsed(text, "Main.java"),
        vec![
            diagnostic("error", 2, 17, "';' expected"),
            diagnostic("warning", 6, 5, "[removal] x"),
        ]
    );
}

#[test]
fn a_message_without_a_caret() {
    let text = "Main.java:0: error: a\nMain.java:2: error: b\nx\n  ^ y\n";
    assert_eq!(
        parsed(text, "Main.java"),
        vec![diagnostic("error", 0, 0, "a"), diagnostic("error", 1, 0, "b")]
    );
}

#[test]
fn lines_of_a_message_are_used_up() {
    let text = "A.java:1: error: a\nA.java:9: error: in the source\n ^\nA.java:2: error: b";
    assert_eq!(
        parsed(text, "A.java"),
        vec![diagnostic("error", 0, 1, "a"), diagnostic("error", 1, 0, "b")]
    );
}

#[test]
fn the_name_is_taken_literally() {
    let text = "AXjava:1: error: a\nA.java:2: error: b\n";
    assert_eq!(
        parsed(text, "A.java"),
        vec![diagnostic("error", 1, 0, "b")]
    );
    let odd = "a+(b)[c]{d}^$|?*\\#&-~.java";
    assert_eq!(
        parsed(&format!("./{}:4: warning: w", odd), odd),
        vec![diagnostic("warning", 3, 0, "w")]
    );
}

#[test]
fn the_first_place_counts() {
    assert_eq!(
        parsed("A:1: error: A:2: error: x", "A"),
        vec![diagnostic("error", 0, 0, "A:2: error: x")]
    );
    assert_eq!(
        parsed("A:x: A:2: error: x", "A"),
        vec![diagnostic("error", 1, 0, "x")]
    );
}

#[test]
fn a_name_that_is_too_long() {
    let name = "a".repeat(1_000_000);
    let refused = parse_javac_diagnostics("x\n", &name).unwrap_err();
    assert!(matches!(refused.cause, regex::Error::CompiledTooBig(_)));
    let name = "\u{1f600}".repeat(4096);
    assert_eq!(
        parsed(&format!("{}:1: error: x", name), &name),
        vec![diagnostic("error", 0, 0, "x")]
    );
}

#[test]
fn what_the_lines_of_javac_say() {
    let reading = |header: Option<(&str, &str, &str)>, caret: Option<usize>| JavacReading {
        header: header.map(|(line, level, message)| JavacHeader {
            line: line.to_string(),
            level: level.to_string(),
            message: message.to_string(),
        }),
        caret,
    };
    assert_eq!(
        read_javac_lines("A:07: error: x\ny\n  ^\n", "A").unwrap(),
        vec![reading(Some(("07", "error", "x")), None), reading(None, None), reading(None, Some(2))]
    );
    let read = vec![
        reading(None, Some(9)),
        reading(Some(("3", "warning", "a")), None),
        reading(Some(("4", "error", "b")), None),
        reading(None, None),
        reading(None, Some(5)),
    ];
    assert_eq!(
        assemble_javac(Ok(read)).unwrap(),
        vec![diagnostic("warning", 2, 0, "a"), diagnostic("error", 3, 5, "b")]
    );
    let refused = parse_javac_diagnostics("x\n", &"a".repeat(1_000_000)).unwrap_err();
    assert!(assemble_javac(Err(refused)).is_err());
}

#[test]
fn reads_carets() {
    assert_eq!(read_caret("    ^"), Some(4));
    assert_eq!(read_caret("\t\u{3000}^"), Some(2));
    assert_eq!(read_caret("^"), Some(0));
    assert_eq!(read_caret("  ^ "), None);
    assert_eq!(read_caret(" x^"), None);
    assert_eq!(read_caret(""), None);
}

#[test]
fn finds_the_class() {
    assert_eq!(get_class_name("import x;\n\npublic class Solver_2 {\n}"), "Solver_2");
    assert_eq!(get_class_name("public\n\tclass  A1extends"), "A1extends");
    assert_eq!(get_class_name("public interface I {} public class B<T> {}"), "B");
    assert_eq!(get_class_name("public class A {} public class B {}"), "A");
    assert_eq!(get_class_name("xpublic class A"), "A");
    assert_eq!(get_class_name("class A {}"), "Main");
    assert_eq!(get_class_name("public final class Solution { }"), "Solution");
    assert_eq!(get_class_name("public\nabstract\tstrictfp  class A {}"), "A");
    assert_eq!(get_class_name("public sealed class A permits B {}"), "A");
    assert_eq!(get_class_name("public non-sealed class B extends A {}"), "B");
    assert_eq!(get_class_name("final public class A {}"), "A");
    assert_eq!(get_class_name("class A { public static class B {} }"), "Main");
    assert_eq!(get_class_name("public finalclass A {}"), "Main");
    assert_eq!(get_class_name("public final A {}"), "Main");
    assert_eq!(get_class_name("public class A$1_b{"), "A$1_b");
    assert_eq!(get_class_name("public class A\u{a0}B {"), "A");
    assert_eq!(get_class_name("public class Main\u{ff5b}"), "Main");
    assert_eq!(get_class_name("public class Gr\u{f6}\u{df}e {"), "Gr");
    assert_eq!(get_class_name("public class \u{ff5b} public class B"), "B");
    assert_eq!(get_class_name("public class {"), "Main");
    assert_eq!(get_class_name(""), "Main");
}

#[test]
fn modifiers_count_at_the_top_level() {
    assert_eq!(get_class_name("class Main { public final class Node {} }"), "Main");
    assert_eq!(get_class_name("class Main { public class Node {} }"), "Node");
    assert_eq!(get_class_name("class A { public final class B {} } public abstract class C {}"), "C");
    assert_eq!(get_class_name("class A { public final class B {} public class C {} }"), "C");
    assert_eq!(get_class_name("public final class A { public class B {} }"), "A");
    assert_eq!(get_class_name("public final class public class X"), "public");
    assert_eq!(get_class_name("{ public final class public class X"), "X");
    assert_eq!(get_class_name("/* a public final class of ours */ class Main {}"), "Main");
    assert_eq!(get_class_name("// public final class x\nclass A {}"), "Main");
    assert_eq!(get_class_name("// {\npublic final class A {}"), "A");
    assert_eq!(get_class_name("@N(\"{\") public final class A {}"), "A");
    assert_eq!(get_class_name("@xpublic final class A {}"), "Main");
    assert_eq!(get_class_name("} public final class A {}"), "A");
}

#[test]
fn places_in_a_source() {
    let top = |s: &str| is_top_level(&s.chars().collect(), s.chars().count());
    for s in [
        "", " ", "{}", "{ '}' }", "}", "// {\n", "// {\r", "/* { **/", "/* // */", "/**/", "a / b ",
        "\"{\" ", "\"\\\"{\" ", "\"\" ", "\"\"\"\n{ \"\" \\\"\"\" \"\"\" ", "'{'", "'\\'' ", "'\"' ", "/ {}", "\"\"{}", "@A;",
    ] {
        assert!(top(s), "{:?}", s);
    }
    for s in [
        "{", "{ '}'", "// ", "// {}", "/*", "/* *", "/*/", "/", "\"", "\"\\\"", "\"\"", "\"\"\"", "\"\"\" \"\"",
        "'", "'\\'", "a", "Z", "0", "_", "$", "\u{e9}", "{ // }\n", "{ /* } */", "{ \"}\"", "{\"\"\" } \"\"\"",
    ] {
        assert!(!top(s), "{:?}", s);
    }
}

#[test]
fn names_of_files() {
    assert_eq!(java_file_name("Main"), "Main.java");
    assert_eq!(manifest_text("Foo"), "Manifest-Version: 1.0\nMain-Class: Foo\n");
    let entries: Vec<String> = ["A.class", "A.java", "A$1.class", ".class", "x.classy", "class"]
        .iter()
        .map(|s| s.to_string())
        .collect();
    assert_eq!(
        jar_arguments("out.jar", "d/manifest.txt", &entries),
        vec!["cfm", "out.jar", "d/manifest.txt", "A.class", "A$1.class", ".class"]
    );
}

fn exited(code: i32) -> Event {
    Event::Exited { success: code == 0, code: Some(code) }
}

fn failure(message: &str) -> Failure {
    Failure { code: 1, message: message.to_string() }
}

fn course(mut build: JavaBuild, events: Vec<Event>) -> (Vec<Step>, JavaBuild) {
    let mut steps = vec![build.step];
    for event in events {
        build.advance(event);
        steps.push(build.step);
    }
    (steps, build)
}

#[test]
fn a_build_that_succeeds() {
    let (steps, build) = course(
        JavaBuild::new(true, true),
        vec![
            Event::Finished,
            Event::Finished,
            exited(0),
            Event::Finished,
            Event::Finished,
            exited(0),
            Event::Finished,
        ],
    );
    assert_eq!(
        steps,
        vec![
            Step::Rename,
            Step::WriteManifest,
            Step::RunJavac,
            Step::WriteDiagnostics,
            Step::ListClasses,
            Step::RunJar,
            Step::Restore,
            Step::Done,
        ]
    );
    assert_eq!(build.outcome, Ok(()));
    assert!(!build.restore_due);
}

#[test]
fn a_build_without_extras() {
    let (steps, build) = course(
        JavaBuild::new(false, false),
        vec![Event::Finished, exited(0), Event::Finished, exited(3)],
    );
    assert_eq!(
        steps,
        vec![Step::WriteManifest, Step::RunJavac, Step::ListClasses, Step::RunJar, Step::Done]
    );
    assert_eq!(build.outcome, Err(Failure { code: 3, message: String::new() }));
}

#[test]
fn diagnostics_are_written_when_javac_fails() {
    let (steps, build) = course(
        JavaBuild::new(true, true),
        vec![Event::Finished, Event::Finished, exited(2), Event::Failed(failure("x")), Event::Finished],
    );
    assert_eq!(
        steps,
        vec![
            Step::Rename,
            Step::WriteManifest,
            Step::RunJavac,
            Step::WriteDiagnostics,
            Step::Restore,
            Step::Done,
        ]
    );
    assert_eq!(build.outcome, Err(Failure { code: 2, message: String::new() }));
}

#[test]
fn failures_end_a_build() {
    let (steps, build) = course(JavaBuild::new(true, true), vec![Event::Failed(failure("no rename"))]);
    assert_eq!(steps, vec![Step::Rename, Step::Done]);
    assert_eq!(build.outcome, Err(failure("no rename")));

    let (steps, build) = course(
        JavaBuild::new(true, true),
        vec![
            Event::Finished,
            Event::Finished,
            Event::Failed(failure("no javac")),
            Event::Failed(failure("no restore")),
            Event::Finished,
        ],
    );
    assert_eq!(
        steps,
        vec![
            Step::Rename,
            Step::WriteManifest,
            Step::RunJavac,
            Step::Restore,
            Step::Done,
            Step::Done,
        ]
    );
    assert_eq!(build.outcome, Err(failure("no javac")));
    assert!(!build.restore_due);

    let (_, build) = course(
        JavaBuild::new(false, false),
        vec![Event::Finished, Event::Exited { success: false, code: None }],
    );
    assert_eq!(build.outcome, Err(Failure { code: 1, message: String::new() }));
}
