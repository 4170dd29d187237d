//! Commands, exit codes and transcripts.

use vstd::prelude::*;
use vstd::utf8::{decode_utf8, valid_utf8};

use crate::run::{
    as_line, exit_code, exit_status, failed, fpc_invocation, gcc_invocation, java_invocation,
    lossy_text, mcs_invocation, outcome_of_exit, report, rustc_invocation, Deed, Failure,
    Invocation, JavaInvocation, Report, Transcript,
};
use crate::text::texts;

verus! {

/// The compiler of `v` gets the arguments from `from` on, all of them and in their
/// order, and `more` after them.
pub open spec fn hands_on(
    args: Seq<String>,
    from: int,
    v: Invocation,
    more: Seq<Seq<char>>,
) -> bool {
    &&& v.arguments@.len() == args.len() - from + more.len()
    &&& forall|i: int|
        from <= i < args.len() ==> v.arguments@[i - from]@ == (#[trigger] args[i])@
    &&& forall|k: int|
        0 <= k < more.len() ==> v.arguments@[args.len() - from + k]@ == #[trigger] more[k]
}

proof fn lemma_hands_on(args: Seq<String>, from: int, v: Invocation, more: Seq<Seq<char>>)
    requires
        0 <= from <= args.len(),
        texts(v.arguments@) == texts(args).skip(from) + more,
    ensures
        hands_on(args, from, v, more),
{
    let list = texts(v.arguments@);
    assert(list.len() == v.arguments@.len());
    assert(texts(args).len() == args.len());
    assert forall|i: int| from <= i < args.len() implies v.arguments@[i - from]@ == (
    #[trigger] args[i])@ by {
        assert(list[i - from] == texts(args)[i]);
        assert(list[i - from] == v.arguments@[i - from]@);
    }
    assert forall|k: int| 0 <= k < more.len() implies v.arguments@[args.len() - from + k]@
        == #[trigger] more[k] by {
        assert(list[args.len() - from + k] == more[k]);
        assert(list[args.len() - from + k] == v.arguments@[args.len() - from + k]@);
    }
}

/// The first argument names the file for the diagnostics and the second the
/// compiler, and all others are handed on to it. gcc is told to use colors. Two
/// arguments are needed.
pub proof fn law_gcc_run(args: &Vec<String>, r: Result<Invocation, Failure>)
    requires
        call_ensures(gcc_invocation, (args,), r),
    ensures
        r is Ok <==> args@.len() >= 3,
        r matches Ok(v) ==> {
            &&& v.diagnostics@ == args@[1]@
            &&& v.program@ == args@[2]@
            &&& hands_on(args@, 3, v, seq!["-fdiagnostics-color=always"@])
        },
        r matches Err(f) ==> f.code == 1 && f.message@
            == "usage: judge-gcc-compile <diagnostics-file> <gcc args...>"@,
{
    if r is Ok {
        lemma_hands_on(args@, 3, r->Ok_0, seq!["-fdiagnostics-color=always"@]);
        assert(texts(args@)[1] == args@[1]@ && texts(args@)[2] == args@[2]@);
    }
}

/// The same for mcs, which is told nothing more.
pub proof fn law_mcs_run(args: &Vec<String>, r: Result<Invocation, Failure>)
    requires
        call_ensures(mcs_invocation, (args,), r),
    ensures
        r is Ok <==> args@.len() >= 3,
        r matches Ok(v) ==> {
            &&& v.diagnostics@ == args@[1]@
            &&& v.program@ == args@[2]@
            &&& hands_on(args@, 3, v, seq![])
        },
        r matches Err(f) ==> f.code == 1 && f.message@
            == "usage: judge-mcs-compile <diagnostics-file> <mcs args...>"@,
{
    if r is Ok {
        lemma_hands_on(args@, 3, r->Ok_0, seq![]);
        assert(texts(args@)[1] == args@[1]@ && texts(args@)[2] == args@[2]@);
    }
}

/// The same for fpc, which is told nothing more.
pub proof fn law_fpc_run(args: &Vec<String>, r: Result<Invocation, Failure>)
    requires
        call_ensures(fpc_invocation, (args,), r),
    ensures
        r is Ok <==> args@.len() >= 3,
        r matches Ok(v) ==> {
            &&& v.diagnostics@ == args@[1]@
            &&& v.program@ == args@[2]@
            &&& hands_on(args@, 3, v, seq![])
        },
        r matches Err(f) ==> f.code == 1 && f.message@
            == "usage: judge-fpc-compile <diagnostics-file> <fpc args...>"@,
{
    if r is Ok {
        lemma_hands_on(args@, 3, r->Ok_0, seq![]);
        assert(texts(args@)[1] == args@[1]@ && texts(args@)[2] == args@[2]@);
    }
}

/// The first argument names the file for the diagnostics, and all others are
/// handed on to rustc, which is told to print its messages as JSON. One argument
/// is needed.
pub proof fn law_rustc_run(args: &Vec<String>, r: Result<Invocation, Failure>)
    requires
        call_ensures(rustc_invocation, (args,), r),
    ensures
        r is Ok <==> args@.len() >= 2,
        r matches Ok(v) ==> {
            &&& v.diagnostics@ == args@[1]@
            &&& v.program@ == "rustc"@
            &&& hands_on(
                args@,
                2,
                v,
                seq!["--error-format=json"@, "--json=diagnostic-rendered-ansi"@],
            )
        },
        r matches Err(f) ==> f.code == 1 && f.message@
            == "usage: judge-rust-compile <diagnostics-file> <rustc args...>"@,
{
    if r is Ok {
        lemma_hands_on(
            args@,
            2,
            r->Ok_0,
            seq!["--error-format=json"@, "--json=diagnostic-rendered-ansi"@],
        );
    }
}

/// The first two arguments name the source and the archive, and a third one the
/// file for the diagnostics.
pub proof fn law_java_run(args: &Vec<String>, r: Result<JavaInvocation, Failure>)
    requires
        call_ensures(java_invocation, (args,), r),
    ensures
        r is Ok <==> args@.len() >= 3,
        r matches Ok(v) ==> {
            &&& v.input@ == args@[1]@
            &&& v.output@ == args@[2]@
            &&& v.diagnostics is Some <==> args@.len() >= 4
            &&& v.diagnostics matches Some(path) ==> path@ == args@[3]@
        },
        r matches Err(f) ==> f.code == 1 && f.message@
            == "usage: judge-java-compile <input> <output> [diagnostics]"@,
{
}

/// A failure says what could not be done, to what, and why.
pub proof fn law_failed(deed: Deed, object: &str, cause: &str, r: Failure)
    requires
        call_ensures(failed, (deed, object, cause), r),
    ensures
        r.code == 1,
        deed == Deed::Run ==> r.message@ == "cannot run "@ + (object@ + (": "@ + cause@)),
        deed == Deed::Wait ==> r.message@ == "cannot wait "@ + (object@ + (": "@ + cause@)),
        deed == Deed::Read ==> r.message@ == "cannot read "@ + (object@ + (": "@ + cause@)),
        deed == Deed::Create ==> r.message@ == "cannot create "@ + (object@ + (": "@ + cause@)),
        deed == Deed::Write ==> r.message@ == "cannot write "@ + (object@ + (": "@ + cause@)),
        deed == Deed::Sync ==> r.message@ == "cannot sync "@ + (object@ + (": "@ + cause@)),
        deed == Deed::Rename ==> r.message@ == "cannot rename "@ + (object@ + (": "@ + cause@)),
{
    reveal_strlit("cannot ");
    reveal_strlit(" ");
    reveal_strlit("run");
    reveal_strlit("wait");
    reveal_strlit("read");
    reveal_strlit("create");
    reveal_strlit("write");
    reveal_strlit("sync");
    reveal_strlit("rename");
    reveal_strlit("cannot run ");
    reveal_strlit("cannot wait ");
    reveal_strlit("cannot read ");
    reveal_strlit("cannot create ");
    reveal_strlit("cannot write ");
    reveal_strlit("cannot sync ");
    reveal_strlit("cannot rename ");
    let tail = object@ + (": "@ + cause@);
    match deed {
        Deed::Run => {
            assert(r.message@ =~= "cannot run "@ + tail);
        },
        Deed::Wait => {
            assert(r.message@ =~= "cannot wait "@ + tail);
        },
        Deed::Read => {
            assert(r.message@ =~= "cannot read "@ + tail);
        },
        Deed::Create => {
            assert(r.message@ =~= "cannot create "@ + tail);
        },
        Deed::Write => {
            assert(r.message@ =~= "cannot write "@ + tail);
        },
        Deed::Sync => {
            assert(r.message@ =~= "cannot sync "@ + tail);
        },
        Deed::Rename => {
            assert(r.message@ =~= "cannot rename "@ + tail);
        },
    }
}

/// A compiler's exit code is its own, and one where it was stopped.
pub proof fn law_exit_code(code: Option<i32>, r: i32)
    requires
        call_ensures(exit_code, (code,), r),
    ensures
        code matches Some(c) ==> r == c,
        code is None ==> r == 1,
{
}

/// A program that succeeded is no failure; one that did not is one with its exit
/// code, or one where it was stopped, and with nothing to tell.
pub proof fn law_exit_outcome(success: bool, code: Option<i32>, r: Result<(), Failure>)
    requires
        call_ensures(outcome_of_exit, (success, code), r),
    ensures
        success ==> r is Ok,
        !success ==> (r matches Err(f) && {
            &&& f.message@.len() == 0
            &&& code matches Some(c) ==> f.code == c
            &&& code is None ==> f.code == 1
        }),
{
}

/// A status is the exit code, up to a multiple of 256.
pub proof fn law_exit_status(code: i32, r: u8)
    requires
        call_ensures(exit_status, (code,), r),
    ensures
        0 <= code <= 255 ==> r == code,
        exists|k: int| code == #[trigger] (256 * k) + r,
{
    let k = code as int / 256;
    assert(code as int == 256 * k + code as int % 256);
    assert(code == (256 * k) + r);
}

/// A program that came to its end tells nothing; one that failed tells its
/// message, if it has one. The status is that of the exit code.
pub proof fn law_reported(outcome: Result<i32, Failure>, r: Report, status: u8)
    requires
        call_ensures(report, (outcome,), r),
    ensures
        outcome matches Ok(code) ==> {
            &&& r.message is None
            &&& call_ensures(exit_status, (code,), status) ==> r.status == status
        },
        outcome matches Err(f) ==> {
            &&& f.message@.len() == 0 ==> r.message is None
            &&& f.message@.len() > 0 ==> (r.message matches Some(m) && m@ == f.message@)
            &&& call_ensures(exit_status, (f.code,), status) ==> r.status == status
        },
{
}

/// A transcript begins empty.
pub proof fn law_transcript_begins(r: Transcript)
    requires
        call_ensures(Transcript::new, (), r),
    ensures
        r.bytes@.len() == 0,
{
}

/// Bytes are taken down as they are, after those that are there.
pub proof fn law_bytes_taken(t: &mut Transcript, chunk: &Vec<u8>)
    requires
        call_ensures(Transcript::push_bytes, (t, chunk), ()),
    ensures
        final(t).bytes@ == old(t).bytes@ + chunk@,
{
}

/// A line is taken down with a line feed after it.
pub proof fn law_line_taken(t: &mut Transcript, chunk: &Vec<u8>)
    requires
        call_ensures(Transcript::push_line, (t, chunk), ()),
    ensures
        final(t).bytes@ == old(t).bytes@ + (chunk@ + seq![10u8]),
{
    assert(as_line(chunk@) =~= chunk@ + seq![10u8]);
}

/// Valid UTF-8 is read as what it stands for, and any bytes are read as
/// `lossy_text` has it.
pub proof fn law_transcript_read(t: &Transcript, r: String)
    requires
        call_ensures(Transcript::text, (t,), r),
    ensures
        r@ == lossy_text(t.bytes@),
        valid_utf8(t.bytes@) ==> r@ == decode_utf8(t.bytes@),
{
}

} // verus!
