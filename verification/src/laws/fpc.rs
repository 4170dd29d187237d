//! The diagnostics in an output of fpc.

use vstd::prelude::*;

use crate::diagnostic::{models, Diagnostic, DiagnosticView};
use crate::laws::diagnostic::{
    counted, from_outside, law_counted_written, law_diagnostic_view, law_diagnostics_view,
    law_foreign, lemma_collected_chosen, lemma_start, told_lines,
};
use crate::laws::order::{chosen, lemma_chosen_told};
use crate::laws::text::written;
use crate::fpc::{
    fpc_code, fpc_code_of, fpc_diagnostics, fpc_file_shortest, fpc_line, fpc_parts_of, fpc_reader,
    law_fpc_line, law_fpc_no_code, law_fpc_parts, lemma_fpc_unique, lemma_numbered_unique,
    level_of_fpc, parse_fpc_diagnostics, read_fpc_line,
};
use crate::pattern::{
    fpc_match, fpc_splits, fpc_text, message_begins, numbered_match, FpcParts, NumberedParts,
};
use crate::text::{lacks, lines_of, optional_text};

verus! {

/// `to` is the level of the schema for the level `from` of fpc.
pub open spec fn fpc_level_tells(from: Seq<char>, to: Seq<char>) -> bool {
    &&& from == "Fatal"@ || from == "Error"@ ==> to == "error"@
    &&& from == "Warning"@ ==> to == "warning"@
    &&& from == "Note"@ ==> to == "note"@
    &&& from == "Hint"@ ==> to == "help"@
}

/// `code` is the number in brackets at the start of `text`, and `message` what
/// comes after the space behind it; without such a number it is all of `text`.
pub open spec fn fpc_message_tells(
    text: Seq<char>,
    code: Option<Seq<char>>,
    message: Seq<char>,
) -> bool {
    &&& forall|q: NumberedParts| #[trigger]
        numbered_match(text, q) ==> code == Some(q.code) && message == q.message
    &&& (forall|q: NumberedParts| !numbered_match(text, q)) ==> code is None && message == text
}

/// The level of fpc is turned into one of the schema; an unknown one is a note.
pub proof fn law_fpc_level(level: &str, r: String)
    requires
        call_ensures(level_of_fpc, (level,), r),
    ensures
        fpc_level_tells(level@, r@),
        level@ != "Fatal"@ && level@ != "Error"@ && level@ != "Warning"@ && level@ != "Hint"@
            ==> r@ == "note"@,
{
    lemma_fpc_words();
}

proof fn lemma_fpc_words()
    ensures
        "Note"@ != "Fatal"@,
        "Note"@ != "Error"@,
        "Note"@ != "Warning"@,
        "Note"@ != "Hint"@,
        "Warning"@ != "Fatal"@,
        "Warning"@ != "Error"@,
        "Hint"@ != "Fatal"@,
        "Hint"@ != "Error"@,
        "Hint"@ != "Warning"@,
{
    reveal_strlit("Fatal");
    reveal_strlit("Error");
    reveal_strlit("Warning");
    reveal_strlit("Note");
    reveal_strlit("Hint");
    assert("Fatal"@[0] == 'F' && "Error"@[0] == 'E' && "Warning"@[0] == 'W' && "Note"@[0] == 'N'
        && "Hint"@[0] == 'H');
}

/// A number in brackets is parted from a message, and nothing else.
pub proof fn law_fpc_code_parted(message: String, r: (Option<String>, String))
    requires
        call_ensures(fpc_code, (message,), r),
    ensures
        fpc_message_tells(message@, optional_text(r.0), r.1@),
{
    lemma_fpc_message(message@);
}

proof fn lemma_fpc_message(text: Seq<char>)
    ensures
        fpc_message_tells(text, fpc_code_of(text).0, fpc_code_of(text).1),
{
    assert forall|q: NumberedParts| #[trigger] numbered_match(text, q) implies fpc_code_of(text)
        == (Some(q.code), q.message) by {
        lemma_numbered_unique(text, q, choose|p: NumberedParts| numbered_match(text, p));
    }
}

/// The diagnostic `d` says what a message with the parts `p` says.
pub open spec fn fpc_tells(p: FpcParts, d: DiagnosticView) -> bool {
    &&& fpc_level_tells(p.level, d.level)
    &&& fpc_message_tells(p.message, d.code, d.message)
    &&& d.details.len() == 0
    &&& d.span matches Some(span) && {
        &&& span.end is None
        &&& counted(p.line, span.start.line)
        &&& counted(p.column, span.start.column)
    }
}

/// `line` holds a message about a file of the program.
pub open spec fn fpc_own(line: Seq<char>) -> bool {
    exists|p: FpcParts| #[trigger] fpc_match(line, p) && !from_outside(p.file)
}

/// The lines that hold messages about files of the program.
pub open spec fn fpc_own_lines(lines: Seq<Seq<char>>) -> spec_fn(int) -> bool {
    |i: int| fpc_own(lines[i])
}

proof fn lemma_fpc_line(line: Seq<char>, p: FpcParts)
    requires
        fpc_match(line, p),
    ensures
        from_outside(p.file) ==> fpc_line(line) is None,
        !from_outside(p.file) ==> (fpc_line(line) matches Some(d) && fpc_tells(p, d)),
{
    lemma_fpc_unique(line, p, fpc_parts_of(line)->0);
    law_foreign(p.file);
    lemma_start(p.line, p.column);
    lemma_fpc_message(p.message);
    lemma_fpc_words();
}

/// A line that holds a message about a file of the program makes one diagnostic:
/// its message, parted from the number at its start, the level of the schema for
/// its own, and its place counted from zero. A message about another file, and a line without a
/// message, makes none.
pub proof fn law_fpc_read(line: &str, r: Option<Diagnostic>, p: FpcParts)
    requires
        call_ensures(read_fpc_line, (line,), r),
    ensures
        fpc_match(line@, p) && !from_outside(p.file) ==> (r matches Some(d) && {
            &&& fpc_level_tells(p.level, d.level@)
            &&& fpc_message_tells(p.message, optional_text(d.code), d.message@)
            &&& d.details@.len() == 0
            &&& d.span matches Some(span) && {
                &&& span.end is None
                &&& counted(p.line, span.start.line)
                &&& counted(p.column, span.start.column)
            }
        }),
        fpc_match(line@, p) && from_outside(p.file) ==> r is None,
        (forall|q: FpcParts| !fpc_match(line@, q)) ==> r is None,
{
    if fpc_match(line@, p) {
        lemma_fpc_line(line@, p);
    }
    if r is Some {
        law_diagnostic_view(r->0);
    }
}

/// The line `file(line,column) level: message` about a file of the program makes
/// one diagnostic: at the numbers that are written there, less one, with the level
/// of the schema for the one that is written there, and with all that comes after
/// the space behind the colon as its message, if that begins with no bracket.
pub proof fn law_fpc_written(
    output: &str,
    r: Vec<Diagnostic>,
    p: FpcParts,
    line: nat,
    column: nat,
)
    requires
        call_ensures(parse_fpc_diagnostics, (output,), r),
        output@ == fpc_text(p),
        fpc_splits(fpc_text(p), p),
        fpc_file_shortest(fpc_text(p), p),
        lacks(p.level_gap, '\n'),
        lacks(p.message_gap, '\n'),
        message_begins(p.message),
        !from_outside(p.file),
        p.line == written(line),
        1 <= line <= usize::MAX,
        p.column == written(column),
        1 <= column <= usize::MAX,
    ensures
        r@.len() == 1,
        fpc_level_tells(p.level, r@[0].level@),
        p.message[0] != '(' ==> r@[0].message@ == p.message && r@[0].code is None,
        fpc_message_tells(p.message, optional_text(r@[0].code), r@[0].message@),
        r@[0].details@.len() == 0,
        r@[0].span matches Some(span) && {
            &&& span.start.line + 1 == line
            &&& span.start.column + 1 == column
            &&& span.end is None
        },
{
    law_foreign(p.file);
    law_fpc_line(p);
    law_fpc_parts(p);
    let d = fpc_diagnostics(output@)[0];
    law_diagnostics_view(r@);
    assert(models(r@).len() == 1);
    assert(r@[0]@ == models(r@)[0]);
    law_diagnostic_view(r@[0]);
    lemma_start(p.line, p.column);
    lemma_fpc_message(p.message);
    lemma_fpc_words();
    if p.message[0] != '(' {
        law_fpc_no_code(p.message);
    }
    law_counted_written(line, d.span->0.start.line);
    law_counted_written(column, d.span->0.start.column);
}

/// The diagnostics of an output are those of its lines that hold messages about
/// files of the program: one for each, in their order, and no others.
pub proof fn law_fpc_output(output: &str, r: Vec<Diagnostic>)
    requires
        call_ensures(parse_fpc_diagnostics, (output,), r),
    ensures
        exists|at: Seq<int>| #[trigger]
            chosen(
                lines_of(output@).len() as int,
                fpc_own_lines(lines_of(output@)),
                at,
            ) && r@.len() == at.len() && forall|k: int, p: FpcParts|
                0 <= k < at.len() && #[trigger] fpc_match(lines_of(output@)[at[k]], p)
                    ==> fpc_tells(p, #[trigger] r@[k]@),
{
    let lines = lines_of(output@);
    let at = lemma_collected_chosen(lines, fpc_reader());
    let own = fpc_own_lines(lines);
    let read = told_lines(lines, fpc_reader());
    assert forall|i: int| 0 <= i < lines.len() implies #[trigger] read(i) == own(i) by {
        lemma_fpc_own(lines[i]);
    }
    lemma_chosen_told(lines.len() as int, read, own, at);
    law_diagnostics_view(r@);
    assert forall|k: int, p: FpcParts|
        0 <= k < at.len() && #[trigger] fpc_match(lines[at[k]], p) implies fpc_tells(
        p,
        #[trigger] r@[k]@,
    ) by {
        assert(r@[k]@ == models(r@)[k]);
        assert(models(r@)[k] == fpc_diagnostics(output@)[k]);
        assert(fpc_reader()(lines[at[k]]) == fpc_line(lines[at[k]]));
        assert(own(at[k]));
        lemma_fpc_line(lines[at[k]], p);
    }
}

proof fn lemma_fpc_own(line: Seq<char>)
    ensures
        fpc_reader()(line) is Some <==> fpc_own(line),
{
    if fpc_line(line) is Some {
        let p = fpc_parts_of(line)->0;
        lemma_fpc_line(line, p);
        assert(fpc_match(line, p));
    }
    if fpc_own(line) {
        let p = choose|p: FpcParts| #[trigger] fpc_match(line, p) && !from_outside(p.file);
        lemma_fpc_line(line, p);
    }
}

} // verus!
