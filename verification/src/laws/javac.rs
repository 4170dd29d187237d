//! The diagnostics in an output of javac.

use vstd::prelude::*;

use crate::diagnostic::{models, Diagnostic, DiagnosticView};
use crate::javac::{
    assemble_javac, caret_after, caret_column, javac_assembled, javac_diagnostic, javac_lines,
    javac_parts_of, javac_reading, javac_readings, lemma_javac_unique, parse_javac_diagnostics,
    read_caret, read_javac_lines, reading_views, JavacReading,
};
use crate::laws::diagnostic::{counted, law_diagnostics_view, lemma_counted};
use crate::pattern::{javac_match, JavacParts, PatternRefused};
use crate::text::{blank, lines_of};

verus! {

/// `text` is `n` characters of white space and a caret.
pub open spec fn caret_line(text: Seq<char>, n: nat) -> bool {
    exists|space: Seq<char>| #[trigger]
        blank(space) && space.len() == n && text == space + seq!['^']
}

proof fn lemma_caret(text: Seq<char>)
    ensures
        forall|n: nat| #[trigger] caret_line(text, n) ==> caret_column(text) == Some(n),
        caret_column(text) matches Some(n) ==> caret_line(text, n),
{
    assert forall|n: nat| #[trigger] caret_line(text, n) implies caret_column(text) == Some(n) by {
        let space = choose|space: Seq<char>| #[trigger]
            blank(space) && space.len() == n && text == space + seq!['^'];
        assert(text.drop_last() =~= space);
    }
    if caret_column(text) is Some {
        let space = text.drop_last();
        assert(text =~= space + seq!['^']);
        assert(blank(space));
    }
}

/// A line with a caret alone is read as the white space before it, and no other
/// line is.
pub proof fn law_caret_read(line: &str, r: Option<usize>)
    requires
        call_ensures(read_caret, (line,), r),
    ensures
        r matches Some(n) ==> caret_line(line@, n as nat),
        r is None ==> forall|n: nat| !caret_line(line@, n),
{
    lemma_caret(line@);
}

/// The diagnostic `d` says what a message with the parts `p` says, in a column.
pub open spec fn javac_tells(p: JavacParts, column: nat, d: DiagnosticView) -> bool {
    &&& d.level == p.level
    &&& d.message == p.message
    &&& d.code is None
    &&& d.details.len() == 0
    &&& d.span matches Some(span) && {
        &&& span.end is None
        &&& counted(p.line, span.start.line)
        &&& column <= usize::MAX ==> span.start.column == column
    }
}

/// A line that is not the first of a message changes nothing where a message
/// could begin.
pub proof fn law_javac_passed(name: Seq<char>, line: Seq<char>, rest: Seq<Seq<char>>)
    requires
        forall|p: JavacParts| !javac_match(name, line, p),
    ensures
        javac_lines(name, seq![line] + rest) == javac_lines(name, rest),
{
    let lines = seq![line] + rest;
    let readings = javac_readings(name, lines);
    assert(readings[0] == javac_reading(name, line));
    assert(readings.skip(1) =~= javac_readings(name, rest));
}

/// No lines make no diagnostics.
pub proof fn law_javac_nothing(name: Seq<char>)
    ensures
        javac_lines(name, Seq::<Seq<char>>::empty()) == Seq::<DiagnosticView>::empty(),
{
    assert(javac_readings(name, Seq::<Seq<char>>::empty()).len() == 0);
}

/// The first line of a message makes one diagnostic. Where the line after the next
/// is a caret line, the diagnostic is in the caret's column, and these two lines
/// are taken up by the message; otherwise it is in the first column, and the next
/// line can begin a message.
pub proof fn law_javac_begins(
    name: Seq<char>,
    line: Seq<char>,
    rest: Seq<Seq<char>>,
    p: JavacParts,
    n: nat,
)
    requires
        javac_match(name, line, p),
    ensures
        javac_lines(name, seq![line] + rest).len() > 0,
        rest.len() > 1 && caret_line(rest[1], n) ==> {
            &&& javac_tells(p, n, javac_lines(name, seq![line] + rest)[0])
            &&& javac_lines(name, seq![line] + rest).skip(1) == javac_lines(name, rest.skip(2))
        },
        rest.len() <= 1 || (forall|m: nat| !caret_line(rest[1], m)) ==> {
            &&& javac_tells(p, 0, javac_lines(name, seq![line] + rest)[0])
            &&& javac_lines(name, seq![line] + rest).skip(1) == javac_lines(name, rest)
        },
{
    let lines = seq![line] + rest;
    let readings = javac_readings(name, lines);
    assert(readings[0] == javac_reading(name, line));
    lemma_javac_unique(name, line, p, javac_parts_of(name, line)->0);
    let h = readings[0].header->0;
    let caret = caret_after(readings);
    let used: int = if caret is Some {
        3
    } else {
        1
    };
    let d = javac_diagnostic(h, caret);
    let all = javac_lines(name, lines);
    assert(all == seq![d] + javac_assembled(readings.skip(used)));
    assert(all[0] == d);
    assert(all.skip(1) =~= javac_assembled(readings.skip(used)));
    lemma_counted(p.line);
    if rest.len() > 1 {
        lemma_caret(rest[1]);
        assert(lines[2] == rest[1]);
        assert(readings[2] == javac_reading(name, rest[1]));
        if caret_column(rest[1]) is Some {
            assert(caret_line(rest[1], caret_column(rest[1])->0));
        }
    }
    if used == 3 {
        assert(readings.skip(3) =~= javac_readings(name, rest.skip(2)));
    } else {
        assert(readings.skip(1) =~= javac_readings(name, rest));
    }
}

/// The diagnostics of an output are those of its lines; a name of up to 4096
/// characters is not refused.
pub proof fn law_javac_output(stderr: &str, name: &str, r: Result<Vec<Diagnostic>, PatternRefused>)
    requires
        call_ensures(parse_javac_diagnostics, (stderr, name), r),
    ensures
        name@.len() <= 4096 ==> r is Ok,
        r matches Ok(list) ==> {
            &&& list@.len() == javac_lines(name@, lines_of(stderr@)).len()
            &&& forall|i: int|
                0 <= i < list@.len() ==> (#[trigger] list@[i])@ == javac_lines(
                    name@,
                    lines_of(stderr@),
                )[i]
        },
{
    if r is Ok {
        law_diagnostics_view(r->Ok_0@);
    }
}

/// Each line is read for itself: the first line of a message as its parts are
/// written, and a caret line as the white space before the caret.
pub proof fn law_javac_lines_read(
    stderr: &str,
    name: &str,
    r: Vec<JavacReading>,
    i: int,
    p: JavacParts,
    n: nat,
)
    requires
        call_ensures(read_javac_lines, (stderr, name), Ok::<Vec<JavacReading>, PatternRefused>(r)),
        0 <= i < lines_of(stderr@).len(),
    ensures
        r@.len() == lines_of(stderr@).len(),
        javac_match(name@, lines_of(stderr@)[i], p) ==> (r@[i].header matches Some(h) && {
            &&& h.line@ == p.line
            &&& h.level@ == p.level
            &&& h.message@ == p.message
        }),
        (forall|q: JavacParts| !javac_match(name@, lines_of(stderr@)[i], q)) ==> r@[i].header
            is None,
        caret_line(lines_of(stderr@)[i], n) && n <= usize::MAX ==> r@[i].caret == Some(n as usize),
        (forall|m: nat| !caret_line(lines_of(stderr@)[i], m)) ==> r@[i].caret is None,
{
    let line = lines_of(stderr@)[i];
    let readings = javac_readings(name@, lines_of(stderr@));
    assert(reading_views(r@).len() == r@.len());
    assert(readings.len() == lines_of(stderr@).len());
    assert(reading_views(r@)[i] == r@[i]@);
    assert(readings[i] == javac_reading(name@, line));
    lemma_caret(line);
    if caret_column(line) is Some {
        assert(caret_line(line, caret_column(line)->0));
    }
    assert(r@[i]@.caret == r@[i].caret);
    if javac_match(name@, line, p) {
        lemma_javac_unique(name@, line, p, javac_parts_of(name@, line)->0);
        assert(r@[i]@.header == Some(r@[i].header->0@));
    }
}

/// Where the lines could not be read, that is the result; otherwise the
/// diagnostics of what was read are.
pub proof fn law_javac_assembled(
    stderr: &str,
    name: &str,
    read: Result<Vec<JavacReading>, PatternRefused>,
    r: Result<Vec<Diagnostic>, PatternRefused>,
)
    requires
        call_ensures(assemble_javac, (read,), r),
    ensures
        read is Ok <==> r is Ok,
        read matches Err(e) ==> r == Err::<Vec<Diagnostic>, PatternRefused>(e),
        call_ensures(read_javac_lines, (stderr, name), read) ==> (r matches Ok(list) ==> models(
            list@,
        ) == javac_lines(name@, lines_of(stderr@))),
{
}

} // verus!
