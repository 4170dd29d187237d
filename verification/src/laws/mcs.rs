//! The diagnostics in an output of mcs.

use vstd::prelude::*;

use crate::diagnostic::{models, Diagnostic, DiagnosticView};
use crate::laws::diagnostic::{
    counted, from_outside, law_counted_written, law_diagnostic_view, law_diagnostics_view,
    law_foreign, lemma_collected_chosen, lemma_start, told_lines,
};
use crate::laws::order::{chosen, lemma_chosen_told};
use crate::laws::text::written;
use crate::mcs::{
    law_mcs_line, law_mcs_parts, lemma_mcs_unique, mcs_diagnostics, mcs_file_shortest, mcs_line,
    mcs_parts_of, mcs_reader, parse_mcs_diagnostics, read_mcs_line,
};
use crate::pattern::{mcs_match, mcs_splits, mcs_text, message_begins, McsParts};
use crate::text::{lacks, lines_of};

verus! {

/// The diagnostic `d` says what a message with the parts `p` says.
pub open spec fn mcs_tells(p: McsParts, d: DiagnosticView) -> bool {
    &&& d.level == p.level
    &&& d.message == p.message
    &&& d.code == Some(p.code)
    &&& d.details.len() == 0
    &&& d.span matches Some(span) && {
        &&& span.end is None
        &&& counted(p.line, span.start.line)
        &&& p.column matches Some(column) ==> counted(column, span.start.column)
        &&& p.column is None ==> span.start.column == 0
    }
}

/// `line` holds a message about a file of the program.
pub open spec fn mcs_own(line: Seq<char>) -> bool {
    exists|p: McsParts| #[trigger] mcs_match(line, p) && !from_outside(p.file)
}

/// The lines that hold messages about files of the program.
pub open spec fn mcs_own_lines(lines: Seq<Seq<char>>) -> spec_fn(int) -> bool {
    |i: int| mcs_own(lines[i])
}

proof fn lemma_mcs_line(line: Seq<char>, p: McsParts)
    requires
        mcs_match(line, p),
    ensures
        from_outside(p.file) ==> mcs_line(line) is None,
        !from_outside(p.file) ==> (mcs_line(line) matches Some(d) && mcs_tells(p, d)),
{
    lemma_mcs_unique(line, p, mcs_parts_of(line)->0);
    law_foreign(p.file);
    if p.column is Some {
        lemma_start(p.line, p.column->0);
    } else {
        lemma_start(p.line, p.line);
    }
}

/// A line that holds a message about a file of the program makes one diagnostic:
/// all of its message, its code and its level as they are written, and its place
/// counted from zero. A message about another file, and a line without a
/// message, makes none.
pub proof fn law_mcs_read(line: &str, r: Option<Diagnostic>, p: McsParts)
    requires
        call_ensures(read_mcs_line, (line,), r),
    ensures
        mcs_match(line@, p) && !from_outside(p.file) ==> (r matches Some(d) && {
            &&& d.level@ == p.level
            &&& d.message@ == p.message
            &&& d.code matches Some(code) && code@ == p.code
            &&& d.details@.len() == 0
            &&& d.span matches Some(span) && {
                &&& span.end is None
                &&& counted(p.line, span.start.line)
                &&& p.column matches Some(column) ==> counted(column, span.start.column)
                &&& p.column is None ==> span.start.column == 0
            }
        }),
        mcs_match(line@, p) && from_outside(p.file) ==> r is None,
        (forall|q: McsParts| !mcs_match(line@, q)) ==> r is None,
{
    if mcs_match(line@, p) {
        lemma_mcs_line(line@, p);
    }
    if r is Some {
        law_diagnostic_view(r->0);
    }
}

/// The line `file(line,column): level code: message` about a file of the program
/// makes one diagnostic: at the numbers that are written there, less one, with
/// the level and the code that are written there, and with all that comes after
/// the space behind the code's colon as its message.
pub proof fn law_mcs_written(
    stderr: &str,
    r: Vec<Diagnostic>,
    p: McsParts,
    line: nat,
    column: nat,
)
    requires
        call_ensures(parse_mcs_diagnostics, (stderr,), r),
        stderr@ == mcs_text(p),
        mcs_splits(mcs_text(p), p),
        mcs_file_shortest(mcs_text(p), p),
        p.column is Some ==> p.comma == seq![','],
        lacks(p.level_gap, '\n'),
        lacks(p.code_gap, '\n'),
        lacks(p.message_gap, '\n'),
        message_begins(p.message),
        !from_outside(p.file),
        p.line == written(line),
        1 <= line <= usize::MAX,
        p.column == Some(written(column)),
        1 <= column <= usize::MAX,
    ensures
        r@.len() == 1,
        r@[0].level@ == p.level,
        r@[0].message@ == p.message,
        r@[0].code matches Some(code) && code@ == p.code,
        r@[0].details@.len() == 0,
        r@[0].span matches Some(span) && {
            &&& span.start.line + 1 == line
            &&& span.start.column + 1 == column
            &&& span.end is None
        },
{
    law_foreign(p.file);
    law_mcs_line(p);
    law_mcs_parts(p);
    let d = mcs_diagnostics(stderr@)[0];
    law_diagnostics_view(r@);
    assert(models(r@).len() == 1);
    assert(r@[0]@ == models(r@)[0]);
    law_diagnostic_view(r@[0]);
    lemma_start(p.line, p.column->0);
    law_counted_written(line, d.span->0.start.line);
    law_counted_written(column, d.span->0.start.column);
}

/// The diagnostics of an output are those of its lines that hold messages about
/// files of the program: one for each, in their order, and no others.
pub proof fn law_mcs_output(stderr: &str, r: Vec<Diagnostic>)
    requires
        call_ensures(parse_mcs_diagnostics, (stderr,), r),
    ensures
        exists|at: Seq<int>| #[trigger]
            chosen(
                lines_of(stderr@).len() as int,
                mcs_own_lines(lines_of(stderr@)),
                at,
            ) && r@.len() == at.len() && forall|k: int, p: McsParts|
                0 <= k < at.len() && #[trigger] mcs_match(lines_of(stderr@)[at[k]], p)
                    ==> mcs_tells(p, #[trigger] r@[k]@),
{
    let lines = lines_of(stderr@);
    let at = lemma_collected_chosen(lines, mcs_reader());
    let own = mcs_own_lines(lines);
    let read = told_lines(lines, mcs_reader());
    assert forall|i: int| 0 <= i < lines.len() implies #[trigger] read(i) == own(i) by {
        lemma_mcs_own(lines[i]);
    }
    lemma_chosen_told(lines.len() as int, read, own, at);
    law_diagnostics_view(r@);
    assert forall|k: int, p: McsParts|
        0 <= k < at.len() && #[trigger] mcs_match(lines[at[k]], p) implies mcs_tells(
        p,
        #[trigger] r@[k]@,
    ) by {
        assert(r@[k]@ == models(r@)[k]);
        assert(models(r@)[k] == mcs_diagnostics(stderr@)[k]);
        assert(mcs_reader()(lines[at[k]]) == mcs_line(lines[at[k]]));
        assert(own(at[k]));
        lemma_mcs_line(lines[at[k]], p);
    }
}

proof fn lemma_mcs_own(line: Seq<char>)
    ensures
        mcs_reader()(line) is Some <==> mcs_own(line),
{
    if mcs_line(line) is Some {
        let p = mcs_parts_of(line)->0;
        lemma_mcs_line(line, p);
        assert(mcs_match(line, p));
    }
    if mcs_own(line) {
        let p = choose|p: McsParts| #[trigger] mcs_match(line, p) && !from_outside(p.file);
        lemma_mcs_line(line, p);
    }
}

} // verus!
