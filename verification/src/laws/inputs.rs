//! What the functions take: any input, but for the two that say otherwise.

use vstd::prelude::*;

use crate::fpc::{fpc_code, level_of_fpc, parse_fpc_diagnostics, read_fpc_line};
use crate::gcc::{
    count_tildes, extract_tilde_count, gcc_code, gcc_ends_fit, gcc_header, read_gcc_line,
    read_gcc_lines, strip_ansi, GccReading,
};
use crate::java::{get_class_name, jar_arguments, java_file_name, manifest_text};
use crate::java_build::JavaBuild;
use crate::javac::{
    assemble_javac, parse_javac_diagnostics, read_caret, read_javac_lines, JavacReading,
};
use crate::mcs::{parse_mcs_diagnostics, read_mcs_line};
use crate::pattern::PatternRefused;
use crate::run::{
    exit_code, exit_status, failed, fpc_invocation, gcc_invocation, java_invocation, mcs_invocation,
    outcome_of_exit, report, rustc_invocation, Deed, Failure, Transcript,
};
use crate::rustc::{
    convert, normalize_level, pick_primary, rustc_step, span_to_our, RustcMessage, RustcSpan,
};
use crate::text::{
    begins_with, contains_text, ends_with_text, parse_usize, read_number, same_text, split_lines,
};

verus! {

/// Any output of a compiler, and any line of one, is read.
pub proof fn law_outputs_taken(
    text: &str,
    name: &str,
    owned: String,
    readings: &Vec<GccReading>,
    read: Result<Vec<JavacReading>, PatternRefused>,
)
    ensures
        call_requires(parse_mcs_diagnostics, (text,)),
        call_requires(read_mcs_line, (text,)),
        call_requires(parse_fpc_diagnostics, (text,)),
        call_requires(read_fpc_line, (text,)),
        call_requires(fpc_code, (owned,)),
        call_requires(level_of_fpc, (text,)),
        call_requires(parse_javac_diagnostics, (text, name)),
        call_requires(read_javac_lines, (text, name)),
        call_requires(assemble_javac, (read,)),
        call_requires(read_caret, (text,)),
        call_requires(strip_ansi, (text,)),
        call_requires(count_tildes, (text,)),
        call_requires(extract_tilde_count, (text,)),
        call_requires(gcc_header, (text,)),
        call_requires(gcc_code, (text,)),
        call_requires(read_gcc_line, (text,)),
        call_requires(read_gcc_lines, (text,)),
        call_requires(gcc_ends_fit, (readings,)),
{
}

/// Any message of rustc is converted.
pub proof fn law_messages_taken(
    spans: &[RustcSpan],
    s: &RustcSpan,
    level: &str,
    m: &RustcMessage,
    parsed: Option<RustcMessage>,
)
    ensures
        call_requires(pick_primary, (spans,)),
        call_requires(span_to_our, (s,)),
        call_requires(normalize_level, (level,)),
        call_requires(convert, (m,)),
        call_requires(rustc_step, (level, parsed)),
{
}

/// Any source names its program, any class its files, and any directory can be
/// packed.
pub proof fn law_programs_taken(
    content: &str,
    output: &str,
    entries: &Vec<String>,
    renames: bool,
    records: bool,
)
    ensures
        call_requires(get_class_name, (content,)),
        call_requires(java_file_name, (content,)),
        call_requires(manifest_text, (content,)),
        call_requires(jar_arguments, (output, content, entries)),
        call_requires(JavaBuild::new, (renames, records)),
{
}

/// Any arguments are looked at, and any end of a program is reported.
pub proof fn law_commands_taken(
    args: &Vec<String>,
    deed: Deed,
    text: &str,
    code: Option<i32>,
    success: bool,
    status: i32,
    outcome: Result<i32, Failure>,
    t: &Transcript,
)
    ensures
        call_requires(gcc_invocation, (args,)),
        call_requires(mcs_invocation, (args,)),
        call_requires(fpc_invocation, (args,)),
        call_requires(rustc_invocation, (args,)),
        call_requires(java_invocation, (args,)),
        call_requires(failed, (deed, text, text)),
        call_requires(exit_code, (code,)),
        call_requires(outcome_of_exit, (success, code)),
        call_requires(exit_status, (status,)),
        call_requires(report, (outcome,)),
        call_requires(Transcript::new, ()),
        call_requires(Transcript::text, (t,)),
{
}

/// Any texts are split, searched and read as numbers.
pub proof fn law_texts_taken(a: &str, b: &str, c: char)
    ensures
        call_requires(split_lines, (a,)),
        call_requires(parse_usize, (a,)),
        call_requires(read_number, (a,)),
        call_requires(same_text, (a, b)),
        call_requires(contains_text, (a, b)),
        call_requires(ends_with_text, (a, b)),
        call_requires(begins_with, (a, c)),
{
}

} // verus!
