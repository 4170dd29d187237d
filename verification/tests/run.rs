use judge_compile::run::{
    exit_code, exit_status, failed, fpc_invocation, gcc_invocation, java_invocation,
    mcs_invocation, outcome_of_exit, report, rustc_invocation, Deed, Failure, Transcript,
};
use judge_compile::text::{parse_usize, split_lines};

fn args(list: &[&str]) -> Vec<String> {
    list.iter().map(|s| s.to_string()).collect()
}

#[test]
fn commands() {
    let v = gcc_invocation(&args(&["p", "d.json", "g++", "-O2", "a.cpp"])).unwrap();
    assert_eq!(v.diagnostics, "d.json");
    assert_eq!(v.program, "g++");
    assert_eq!(v.arguments, vec!["-O2", "a.cpp", "-fdiagnostics-color=always"]);
    let v = mcs_invocation(&args(&["p", "d.json", "mcs", "a.cs"])).unwrap();
    assert_eq!((v.program.as_str(), v.arguments), ("mcs", args(&["a.cs"])));
    let v = fpc_invocation(&args(&["p", "d.json", "fpc"])).unwrap();
    assert_eq!((v.program.as_str(), v.arguments), ("fpc", args(&[])));
    let v = rustc_invocation(&args(&["p", "d.json", "a.rs"])).unwrap();
    assert_eq!(v.program, "rustc");
    assert_eq!(
        v.arguments,
        vec!["a.rs", "--error-format=json", "--json=diagnostic-rendered-ansi"]
    );
    let v = java_invocation(&args(&["p", "A.java", "a.jar"])).unwrap();
    assert_eq!((v.input.as_str(), v.output.as_str(), v.diagnostics), ("A.java", "a.jar", None));
    let v = java_invocation(&args(&["p", "A.java", "a.jar", "d.json", "x"])).unwrap();
    assert_eq!(v.diagnostics, Some("d.json".to_string()));
}

#[test]
fn missing_arguments() {
    let usage = |r: Failure| (r.code, r.message);
    assert_eq!(
        usage(gcc_invocation(&args(&["p", "d"])).unwrap_err()),
        (1, "usage: judge-gcc-compile <diagnostics-file> <gcc args...>".to_string())
    );
    assert_eq!(
        usage(mcs_invocation(&args(&["p", "d"])).unwrap_err()),
        (1, "usage: judge-mcs-compile <diagnostics-file> <mcs args...>".to_string())
    );
    assert_eq!(
        usage(fpc_invocation(&args(&[])).unwrap_err()),
        (1, "usage: judge-fpc-compile <diagnostics-file> <fpc args...>".to_string())
    );
    assert_eq!(
        usage(rustc_invocation(&args(&["p"])).unwrap_err()),
        (1, "usage: judge-rust-compile <diagnostics-file> <rustc args...>".to_string())
    );
    assert_eq!(
        usage(java_invocation(&args(&["p", "a"])).unwrap_err()),
        (1, "usage: judge-java-compile <input> <output> [diagnostics]".to_string())
    );
}

#[test]
fn ends_of_programs() {
    assert_eq!(exit_code(Some(7)), 7);
    assert_eq!(exit_code(None), 1);
    assert_eq!(exit_status(256), 0);
    assert_eq!(exit_status(-1), 255);
    assert_eq!(exit_status(42), 42);
    assert_eq!(exit_status(i32::MIN), 0);
    assert_eq!(outcome_of_exit(true, Some(0)), Ok(()));
    assert_eq!(
        outcome_of_exit(false, None),
        Err(Failure { code: 1, message: String::new() })
    );
    let f = failed(Deed::Run, "gcc", "not found");
    assert_eq!((f.code, f.message.as_str()), (1, "cannot run gcc: not found"));
    let r = report(Err(f));
    assert_eq!((r.message, r.status), (Some("cannot run gcc: not found".to_string()), 1));
    let r = report(Err(Failure { code: 300, message: String::new() }));
    assert_eq!((r.message, r.status), (None, 44));
    let r = report(Ok(3));
    assert_eq!((r.message, r.status), (None, 3));
}

#[test]
fn words_of_failures() {
    for (deed, word) in [
        (Deed::Run, "run"),
        (Deed::Wait, "wait"),
        (Deed::Read, "read"),
        (Deed::Create, "create"),
        (Deed::Write, "write"),
        (Deed::Sync, "sync"),
        (Deed::Rename, "rename"),
    ] {
        let f = failed(deed, "x y", "z");
        assert_eq!((f.code, f.message), (1, format!("cannot {} x y: z", word)));
    }
}

#[test]
fn transcripts() {
    let mut t = Transcript::new();
    assert_eq!(t.text(), "");
    t.push_line(&b"a\xc3\xa4".to_vec());
    t.push_bytes(&b"b\n".to_vec());
    t.push_line(&Vec::new());
    assert_eq!(t.bytes, b"a\xc3\xa4\nb\n\n".to_vec());
    assert_eq!(t.text(), "a\u{e4}\nb\n\n");
    t.push_bytes(&vec![0xff, b'x']);
    assert_eq!(t.text(), "a\u{e4}\nb\n\n\u{fffd}x");
}

#[test]
fn lines() {
    assert_eq!(split_lines(""), args(&[]));
    assert_eq!(split_lines("\n"), args(&[""]));
    assert_eq!(split_lines("a\r\nb\n\nc\r"), args(&["a", "b", "", "c\r"]));
    assert_eq!(split_lines("a\r\r\nb"), args(&["a\r", "b"]));
    assert_eq!(split_lines("a\nb"), split_lines("a\nb\n"));
    for text in ["", "a", "a\n", "\r\n", "a\rb\nc", "\n\n", "x\r"] {
        let expected: Vec<String> = text.lines().map(|l| l.to_string()).collect();
        assert_eq!(split_lines(text), expected);
    }
}

#[test]
fn numbers() {
    let max = usize::MAX.to_string();
    let over = format!("{}0", max);
    for text in ["", "0", "007", "+5", "+", "++5", "-1", "1a", " 1", "\u{663}", &max, &over] {
        assert_eq!(parse_usize(text), text.parse::<usize>().ok());
    }
    assert_eq!(parse_usize("18446744073709551616"), None);
}
