//! Running a compiler: its command, what it printed, and how it ended.

use vstd::prelude::*;
use vstd::utf8::{decode_utf8, valid_utf8};

use crate::text::texts;

verus! {

/// Why there is no result: the exit code, and what to tell the user.
#[derive(Debug, PartialEq, Eq)]
pub struct Failure {
    pub code: i32,
    pub message: String,
}

/// A compiler to run, and the file for its diagnostics.
#[derive(Debug, PartialEq, Eq)]
pub struct Invocation {
    pub diagnostics: String,
    pub program: String,
    pub arguments: Vec<String>,
}

/// The files of a Java program.
#[derive(Debug, PartialEq, Eq)]
pub struct JavaInvocation {
    pub input: String,
    pub output: String,
    pub diagnostics: Option<String>,
}

/// A failure for want of arguments.
pub open spec fn usage_failure(f: Failure, usage: Seq<char>) -> bool {
    f.code == 1 && f.message@ == usage
}

/// The invocation that the arguments ask for: the file for the diagnostics, the
/// compiler, and what is handed to it, with `flags` after it.
pub open spec fn asks_for(args: Seq<Seq<char>>, v: Invocation, flags: Seq<Seq<char>>) -> bool {
    &&& v.diagnostics@ == args[1]
    &&& v.program@ == args[2]
    &&& texts(v.arguments@) == args.skip(3) + flags
}

/// A failure for want of arguments.
fn want_of_arguments(usage: &str) -> (r: Failure)
    ensures
        usage_failure(r, usage@),
{
    Failure { code: 1, message: usage.to_owned() }
}

/// The arguments from `from` on.
fn arguments_from(args: &Vec<String>, from: usize) -> (r: Vec<String>)
    requires
        from <= args@.len(),
    ensures
        texts(r@) == texts(args@).skip(from as int),
{
    let ghost all = texts(args@);
    let mut rest: Vec<String> = Vec::new();
    let mut i: usize = from;
    assert(texts(rest@) == all.subrange(from as int, from as int));
    while i < args.len()
        invariant
            all == texts(args@),
            from <= i <= args@.len(),
            texts(rest@) == all.subrange(from as int, i as int),
        decreases args@.len() - i,
    {
        let ghost done = texts(rest@);
        rest.push(args[i].clone());
        assert(texts(rest@) == done.push(all[i as int]));
        i += 1;
        assert(all.subrange(from as int, i as int) == done.push(all[i - 1]));
    }
    assert(all.subrange(from as int, i as int) == all.skip(from as int));
    rest
}

/// Adds an argument.
fn add_flag(arguments: &mut Vec<String>, flag: &str)
    ensures
        texts(final(arguments)@) == texts(old(arguments)@).push(flag@),
{
    let ghost done = texts(arguments@);
    arguments.push(flag.to_owned());
    assert(texts(arguments@) == done.push(flag@));
}

/// The arguments of a program whose third names the compiler.
fn named_invocation(args: &Vec<String>) -> (r: Invocation)
    requires
        args@.len() >= 3,
    ensures
        asks_for(texts(args@), r, seq![]),
{
    let arguments = arguments_from(args, 3);
    assert(texts(args@).skip(3) + Seq::<Seq<char>>::empty() == texts(args@).skip(3));
    assert(texts(args@)[1] == args@[1]@);
    assert(texts(args@)[2] == args@[2]@);
    Invocation { diagnostics: args[1].clone(), program: args[2].clone(), arguments }
}

/// The run of gcc that the arguments ask for, with colors.
pub fn gcc_invocation(args: &Vec<String>) -> (r: Result<Invocation, Failure>)
    ensures
        match r {
            Ok(v) => args@.len() >= 3 && asks_for(
                texts(args@),
                v,
                seq!["-fdiagnostics-color=always"@],
            ),
            Err(f) => args@.len() < 3 && usage_failure(
                f,
                "usage: judge-gcc-compile <diagnostics-file> <gcc args...>"@,
            ),
        },
{
    if args.len() < 3 {
        return Err(
            want_of_arguments("usage: judge-gcc-compile <diagnostics-file> <gcc args...>"),
        );
    }
    let mut v = named_invocation(args);
    let ghost given = texts(v.arguments@);
    add_flag(&mut v.arguments, "-fdiagnostics-color=always");
    assert(given.push("-fdiagnostics-color=always"@) == texts(args@).skip(3)
        + seq!["-fdiagnostics-color=always"@]);
    Ok(v)
}

/// The run of mcs that the arguments ask for.
pub fn mcs_invocation(args: &Vec<String>) -> (r: Result<Invocation, Failure>)
    ensures
        match r {
            Ok(v) => args@.len() >= 3 && asks_for(texts(args@), v, seq![]),
            Err(f) => args@.len() < 3 && usage_failure(
                f,
                "usage: judge-mcs-compile <diagnostics-file> <mcs args...>"@,
            ),
        },
{
    if args.len() < 3 {
        return Err(
            want_of_arguments("usage: judge-mcs-compile <diagnostics-file> <mcs args...>"),
        );
    }
    Ok(named_invocation(args))
}

/// The run of fpc that the arguments ask for.
pub fn fpc_invocation(args: &Vec<String>) -> (r: Result<Invocation, Failure>)
    ensures
        match r {
            Ok(v) => args@.len() >= 3 && asks_for(texts(args@), v, seq![]),
            Err(f) => args@.len() < 3 && usage_failure(
                f,
                "usage: judge-fpc-compile <diagnostics-file> <fpc args...>"@,
            ),
        },
{
    if args.len() < 3 {
        return Err(
            want_of_arguments("usage: judge-fpc-compile <diagnostics-file> <fpc args...>"),
        );
    }
    Ok(named_invocation(args))
}

/// The run of rustc that the arguments ask for, with messages as JSON.
pub fn rustc_invocation(args: &Vec<String>) -> (r: Result<Invocation, Failure>)
    ensures
        match r {
            Ok(v) => {
                &&& args@.len() >= 2
                &&& v.diagnostics@ == args@[1]@
                &&& v.program@ == "rustc"@
                &&& texts(v.arguments@) == texts(args@).skip(2) + seq![
                    "--error-format=json"@,
                    "--json=diagnostic-rendered-ansi"@,
                ]
            },
            Err(f) => args@.len() < 2 && usage_failure(
                f,
                "usage: judge-rust-compile <diagnostics-file> <rustc args...>"@,
            ),
        },
{
    if args.len() < 2 {
        return Err(
            want_of_arguments("usage: judge-rust-compile <diagnostics-file> <rustc args...>"),
        );
    }
    let mut arguments = arguments_from(args, 2);
    add_flag(&mut arguments, "--error-format=json");
    add_flag(&mut arguments, "--json=diagnostic-rendered-ansi");
    assert(texts(arguments@) == texts(args@).skip(2) + seq![
        "--error-format=json"@,
        "--json=diagnostic-rendered-ansi"@,
    ]);
    Ok(Invocation { diagnostics: args[1].clone(), program: "rustc".to_owned(), arguments })
}

/// The files that the arguments name.
pub fn java_invocation(args: &Vec<String>) -> (r: Result<JavaInvocation, Failure>)
    ensures
        match r {
            Ok(v) => {
                &&& args@.len() >= 3
                &&& v.input@ == args@[1]@
                &&& v.output@ == args@[2]@
                &&& v.diagnostics is Some <==> args@.len() > 3
                &&& v.diagnostics matches Some(path) ==> path@ == args@[3]@
            },
            Err(f) => args@.len() < 3 && usage_failure(
                f,
                "usage: judge-java-compile <input> <output> [diagnostics]"@,
            ),
        },
{
    if args.len() < 3 {
        return Err(
            want_of_arguments("usage: judge-java-compile <input> <output> [diagnostics]"),
        );
    }
    let diagnostics = if args.len() > 3 {
        Some(args[3].clone())
    } else {
        None
    };
    Ok(JavaInvocation { input: args[1].clone(), output: args[2].clone(), diagnostics })
}

/// What can fail outside of a compiler.
#[derive(Clone, Copy, Debug, PartialEq, Eq, Structural)]
pub enum Deed {
    Run,
    Wait,
    Read,
    Create,
    Write,
    Sync,
    Rename,
}

/// The word for a deed.
pub open spec fn deed_word(deed: Deed) -> Seq<char> {
    match deed {
        Deed::Run => "run"@,
        Deed::Wait => "wait"@,
        Deed::Read => "read"@,
        Deed::Create => "create"@,
        Deed::Write => "write"@,
        Deed::Sync => "sync"@,
        Deed::Rename => "rename"@,
    }
}

/// The failure of a deed, and its cause: `cannot run gcc: cause`
pub fn failed(deed: Deed, object: &str, cause: &str) -> (r: Failure)
    ensures
        r.code == 1,
        r.message@ == "cannot "@ + deed_word(deed) + " "@ + object@ + ": "@ + cause@,
{
    let word = match deed {
        Deed::Run => "run",
        Deed::Wait => "wait",
        Deed::Read => "read",
        Deed::Create => "create",
        Deed::Write => "write",
        Deed::Sync => "sync",
        Deed::Rename => "rename",
    };
    let mut message = "cannot ".to_owned();
    message.append(word);
    message.append(" ");
    message.append(object);
    message.append(": ");
    message.append(cause);
    Failure { code: 1, message }
}

/// The exit code of a compiler; one for a compiler that was stopped.
pub fn exit_code(code: Option<i32>) -> (r: i32)
    ensures
        r == match code {
            Some(c) => c,
            None => 1,
        },
{
    match code {
        Some(c) => c,
        None => 1,
    }
}

/// What the end of a program means: a failure has its exit code and nothing to
/// tell.
pub fn outcome_of_exit(success: bool, code: Option<i32>) -> (r: Result<(), Failure>)
    ensures
        r is Ok <==> success,
        r matches Err(f) ==> f.message@.len() == 0 && f.code == match code {
            Some(c) => c,
            None => 1,
        },
{
    if success {
        Ok(())
    } else {
        Err(Failure { code: exit_code(code), message: String::new() })
    }
}

/// What a program tells its user at its end, and its exit status.
#[derive(Debug, PartialEq, Eq)]
pub struct Report {
    pub message: Option<String>,
    pub status: u8,
}

/// The lowest eight bits of an exit code.
pub open spec fn status_of(code: i32) -> int {
    code as int % 256
}

/// The lowest eight bits of an exit code.
pub fn exit_status(code: i32) -> (r: u8)
    ensures
        r == status_of(code),
{
    let low = (code & 0xff) as u8;
    assert(0 <= code & 0xff < 256 && (code & 0xff) == (code as int) % 256) by (bit_vector);
    low
}

/// The report on an outcome: an empty message is not told.
pub fn report(outcome: Result<i32, Failure>) -> (r: Report)
    ensures
        match outcome {
            Ok(code) => r.message is None && r.status == status_of(code),
            Err(f) => {
                &&& r.status == status_of(f.code)
                &&& r.message is Some <==> f.message@.len() > 0
                &&& r.message matches Some(m) ==> m@ == f.message@
            },
        },
{
    match outcome {
        Ok(code) => Report { message: None, status: exit_status(code) },
        Err(f) => {
            let status = exit_status(f.code);
            if f.message.as_str().is_empty() {
                Report { message: None, status }
            } else {
                Report { message: Some(f.message), status }
            }
        },
    }
}

/// The text that bytes stand for in UTF-8, with the replacement character where
/// they stand for none.
pub uninterp spec fn lossy_text(bytes: Seq<u8>) -> Seq<char>;

/// Calls `String::from_utf8_lossy`, which decodes valid UTF-8 as it is. What it
/// makes of other bytes is only given a name.
#[verifier::external_body]
fn decode_lossy(bytes: &Vec<u8>) -> (r: String)
    ensures
        r@ == lossy_text(bytes@),
        valid_utf8(bytes@) ==> r@ == decode_utf8(bytes@),
{
    String::from_utf8_lossy(bytes).to_string()
}

/// What a compiler printed.
#[derive(Debug, PartialEq, Eq)]
pub struct Transcript {
    pub bytes: Vec<u8>,
}

impl View for Transcript {
    type V = Seq<u8>;

    open spec fn view(&self) -> Seq<u8> {
        self.bytes@
    }
}

/// Bytes with a line feed after them.
pub open spec fn as_line(chunk: Seq<u8>) -> Seq<u8> {
    chunk.push(10u8)
}

impl Transcript {
    /// Nothing yet.
    pub fn new() -> (r: Transcript)
        ensures
            r@ == Seq::<u8>::empty(),
    {
        Transcript { bytes: Vec::new() }
    }

    /// Takes down bytes as they are.
    pub fn push_bytes(&mut self, chunk: &Vec<u8>)
        ensures
            final(self)@ == old(self)@ + chunk@,
    {
        let ghost before = self.bytes@;
        let mut i: usize = 0;
        assert(before + chunk@.take(0) == before);
        while i < chunk.len()
            invariant
                i <= chunk@.len(),
                self.bytes@ == before + chunk@.take(i as int),
            decreases chunk@.len() - i,
        {
            self.bytes.push(chunk[i]);
            i += 1;
            assert(before + chunk@.take(i as int) == (before + chunk@.take(i - 1)).push(
                chunk@[i - 1],
            ));
        }
        assert(chunk@.take(i as int) == chunk@);
    }

    /// Takes down a line whose line feed is missing.
    pub fn push_line(&mut self, chunk: &Vec<u8>)
        ensures
            final(self)@ == old(self)@ + as_line(chunk@),
    {
        let ghost before = self.bytes@;
        self.push_bytes(chunk);
        self.bytes.push(10);
        assert((before + chunk@).push(10) == before + as_line(chunk@));
    }

    /// What was printed, as a text.
    pub fn text(&self) -> (r: String)
        ensures
            r@ == lossy_text(self@),
            valid_utf8(self@) ==> r@ == decode_utf8(self@),
    {
        decode_lossy(&self.bytes)
    }
}

} // verus!
