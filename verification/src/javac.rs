//! The output of javac.

use vstd::prelude::*;

use crate::diagnostic::{
    from_zero, known_level, lemma_details, models, Diagnostic, DiagnosticView, Position, Span,
};
use crate::pattern::{
    caret_splits, decimals, fixed_captures, group_text, groups_of, is_decimal, javac_captures,
    javac_header_pattern, javac_match, javac_pattern, javac_splits, javac_text,
    lemma_ascii_decimal, lemma_groups, within_line, JavacParts, PatternRefused, JAVAC_CARET,
    SURE_NAME_LENGTH,
};
use crate::text::{
    blank, characters, lacks, lemma_same_cut, lemma_same_run, lines_of, number_or_one,
    read_number, split_lines, texts,
};

verus! {

/// The parts of the first line of a message on `name`; `None` for another line.
pub open spec fn javac_parts_of(name: Seq<char>, text: Seq<char>) -> Option<JavacParts> {
    if exists|p: JavacParts| javac_match(name, text, p) {
        Some(choose|p: JavacParts| javac_match(name, text, p))
    } else {
        None
    }
}

/// How many characters of white space come before the only other one, a caret;
/// `None` for another line.
pub open spec fn caret_column(text: Seq<char>) -> Option<nat> {
    if text.len() > 0 && text.last() == '^' && blank(text.drop_last()) {
        Some((text.len() - 1) as nat)
    } else {
        None
    }
}

/// What the first line of a message says, as it is written there.
#[derive(Debug, PartialEq, Eq)]
pub struct JavacHeader {
    pub line: String,
    pub level: String,
    pub message: String,
}

/// What the first line of a message says.
#[verifier::ext_equal]
pub struct JavacHeaderView {
    pub line: Seq<char>,
    pub level: Seq<char>,
    pub message: Seq<char>,
}

impl View for JavacHeader {
    type V = JavacHeaderView;

    open spec fn view(&self) -> JavacHeaderView {
        JavacHeaderView { line: self.line@, level: self.level@, message: self.message@ }
    }
}

/// What a line of the output holds: the first line of a message, or a caret and
/// the white space before it.
#[derive(Debug, PartialEq, Eq)]
pub struct JavacReading {
    pub header: Option<JavacHeader>,
    pub caret: Option<usize>,
}

/// What a line of the output says.
#[verifier::ext_equal]
pub struct JavacReadingView {
    pub header: Option<JavacHeaderView>,
    pub caret: Option<usize>,
}

impl View for JavacReading {
    type V = JavacReadingView;

    open spec fn view(&self) -> JavacReadingView {
        JavacReadingView {
            header: match self.header {
                Some(h) => Some(h@),
                None => None,
            },
            caret: self.caret,
        }
    }
}

/// What a line of the output says about the source file `name`.
pub open spec fn javac_reading(name: Seq<char>, line: Seq<char>) -> JavacReadingView {
    JavacReadingView {
        header: match javac_parts_of(name, line) {
            Some(p) => Some(
                JavacHeaderView { line: p.line, level: p.level, message: p.message },
            ),
            None => None,
        },
        caret: match caret_column(line) {
            Some(n) => Some(n as usize),
            None => None,
        },
    }
}

/// What all lines of an output say about the source file `name`.
pub open spec fn javac_readings(name: Seq<char>, lines: Seq<Seq<char>>) -> Seq<JavacReadingView> {
    lines.map_values(|line: Seq<char>| javac_reading(name, line))
}

/// The contents of a list of readings.
pub open spec fn reading_views(readings: Seq<JavacReading>) -> Seq<JavacReadingView> {
    readings.map_values(|r: JavacReading| r@)
}

/// The diagnostic of a message, in the column of its caret.
pub open spec fn javac_diagnostic(h: JavacHeaderView, caret: Option<usize>) -> DiagnosticView {
    DiagnosticView {
        level: h.level,
        span: Some(
            Span {
                start: Position {
                    line: from_zero(number_or_one(h.line)),
                    column: match caret {
                        Some(n) => n,
                        None => 0,
                    },
                },
                end: None,
            },
        ),
        message: h.message,
        code: None,
        details: seq![],
    }
}

/// The column of the caret two lines after the first one, if there is one.
pub open spec fn caret_after(readings: Seq<JavacReadingView>) -> Option<usize> {
    if readings.len() > 2 {
        readings[2].caret
    } else {
        None
    }
}

/// The diagnostics that the lines of an output make. A message takes up the
/// source line and the caret line that follow it, if they do.
pub open spec fn javac_assembled(readings: Seq<JavacReadingView>) -> Seq<DiagnosticView>
    decreases readings.len(),
{
    if readings.len() == 0 {
        seq![]
    } else {
        match readings[0].header {
            Some(h) => {
                let caret = caret_after(readings);
                let used: int = if caret is Some {
                    3
                } else {
                    1
                };
                seq![javac_diagnostic(h, caret)] + javac_assembled(readings.skip(used))
            },
            None => javac_assembled(readings.skip(1)),
        }
    }
}

/// The diagnostics on the source file `name` in the lines of an output.
pub open spec fn javac_lines(name: Seq<char>, lines: Seq<Seq<char>>) -> Seq<DiagnosticView> {
    javac_assembled(javac_readings(name, lines))
}

/// The diagnostics on the source file `name` in an output of javac.
pub open spec fn javac_diagnostics(stderr: Seq<char>, name: Seq<char>) -> Seq<DiagnosticView> {
    javac_lines(name, lines_of(stderr))
}

proof fn lemma_javac_level(level: Seq<char>)
    requires
        level == "error"@ || level == "warning"@,
    ensures
        lacks(level, ':'),
        lacks(level, '\n'),
{
    reveal_strlit("error");
    reveal_strlit("warning");
}

/// Two splits that begin in the same place differ at most in where the message
/// ends.
proof fn lemma_javac_cut(name: Seq<char>, text: Seq<char>, p: JavacParts, q: JavacParts)
    requires
        javac_splits(name, text, p),
        javac_splits(name, text, q),
        p.before.len() == q.before.len(),
    ensures
        p.before == q.before,
        p.line == q.line,
        p.level == q.level,
        p.message + p.after == q.message + q.after,
{
    let colon = seq![':'];
    let wide = seq![':', ' '];
    lemma_ascii_decimal(':');
    lemma_javac_level(p.level);
    lemma_javac_level(q.level);
    let p4 = wide + (p.message + p.after);
    let q4 = wide + (q.message + q.after);
    let p3 = wide + (p.level + p4);
    let q3 = wide + (q.level + q4);
    let p2 = colon + (p.line + p3);
    let q2 = colon + (q.line + q3);
    lemma_same_cut(p.before, name + p2, q.before, name + q2);
    lemma_same_cut(name, p2, name, q2);
    lemma_same_cut(colon, p.line + p3, colon, q.line + q3);
    lemma_same_run(p.line, p3, q.line, q3, |c: char| is_decimal(c));
    lemma_same_cut(wide, p.level + p4, wide, q.level + q4);
    lemma_same_run(p.level, p4, q.level, q4, |c: char| c != ':');
    lemma_same_cut(wide, p.message + p.after, wide, q.message + q.after);
}

/// A line is matched in one way at most.
pub proof fn lemma_javac_unique(name: Seq<char>, text: Seq<char>, p: JavacParts, q: JavacParts)
    requires
        javac_match(name, text, p),
        javac_match(name, text, q),
    ensures
        p == q,
{
    lemma_javac_cut(name, text, p, q);
    lemma_same_cut(p.message, p.after, q.message, q.after);
}

/// The line `name:line: level: message` is read as these parts.
pub proof fn law_javac_parts(
    name: Seq<char>,
    line: Seq<char>,
    level: Seq<char>,
    message: Seq<char>,
)
    requires
        decimals(line),
        level == "error"@ || level == "warning"@,
        within_line(message),
    ensures
        ({
            let p = JavacParts { before: seq![], line, level, message, after: seq![] };
            javac_parts_of(name, javac_text(name, p)) == Some(p)
        }),
{
    let p = JavacParts { before: seq![], line, level, message, after: seq![] };
    let text = javac_text(name, p);
    assert(javac_splits(name, text, p));
    assert forall|q: JavacParts| #[trigger] javac_splits(name, text, q) implies {
        &&& p.before.len() <= q.before.len()
        &&& p.before.len() == q.before.len() ==> q.message.len() <= p.message.len()
    } by {
        if q.before.len() == 0 {
            lemma_javac_cut(name, text, p, q);
            assert((q.message + q.after).len() == message.len());
        }
    }
    assert(javac_match(name, text, p));
    lemma_javac_unique(name, text, p, choose|q: JavacParts| javac_match(name, text, q));
}

/// A message, the source line that it is about and a line with a caret make one
/// diagnostic in the caret's column, and are not looked at again.
pub proof fn law_javac_message(
    name: Seq<char>,
    header: Seq<char>,
    source: Seq<char>,
    indent: Seq<char>,
    rest: Seq<Seq<char>>,
)
    requires
        javac_parts_of(name, header) is Some,
        blank(indent),
    ensures
        javac_lines(name, seq![header, source, indent.push('^')] + rest) == seq![
            javac_diagnostic(
                javac_reading(name, header).header->0,
                Some(indent.len() as usize),
            ),
        ] + javac_lines(name, rest),
{
    let lines = seq![header, source, indent.push('^')] + rest;
    let readings = javac_readings(name, lines);
    assert(lines[0] == header);
    assert(lines[2] == indent.push('^'));
    assert(readings[0] == javac_reading(name, header));
    assert(readings[2] == javac_reading(name, indent.push('^')));
    assert(indent.push('^').drop_last() == indent);
    assert(readings.skip(3) =~= javac_readings(name, rest));
}

/// Each diagnostic of javac is an error or a warning, and has a message, a start
/// without an end, no code and no details.
pub proof fn law_javac_shape(name: Seq<char>, lines: Seq<Seq<char>>, i: int)
    requires
        0 <= i < javac_lines(name, lines).len(),
    ensures
        javac_lines(name, lines)[i].level == "error"@ || javac_lines(name, lines)[i].level
            == "warning"@,
        known_level(javac_lines(name, lines)[i].level),
        within_line(javac_lines(name, lines)[i].message),
        javac_lines(name, lines)[i].span matches Some(span) && span.end is None,
        javac_lines(name, lines)[i].code is None,
        javac_lines(name, lines)[i].details.len() == 0,
    decreases lines.len(),
{
    let readings = javac_readings(name, lines);
    assert(readings[0] == javac_reading(name, lines[0]));
    match readings[0].header {
        Some(h) => {
            let used: int = if caret_after(readings) is Some {
                3
            } else {
                1
            };
            assert(javac_match(name, lines[0], javac_parts_of(name, lines[0])->0));
            assert(readings.skip(used) =~= javac_readings(name, lines.skip(used)));
            if i > 0 {
                law_javac_shape(name, lines.skip(used), i - 1);
            }
        },
        None => {
            assert(readings.skip(1) =~= javac_readings(name, lines.skip(1)));
            law_javac_shape(name, lines.skip(1), i);
        },
    }
}

/// Reads a line with a caret.
pub fn read_caret(line: &str) -> (r: Option<usize>)
    ensures
        match r {
            Some(n) => caret_column(line@) == Some(n as nat),
            None => caret_column(line@) is None,
        },
{
    match fixed_captures(JAVAC_CARET, line) {
        None => {
            proof {
                if caret_column(line@) is Some {
                    assert(line@ == line@.drop_last().push('^'));
                    assert(caret_splits(line@, line@.drop_last()));
                }
            }
            None
        },
        Some(g) => {
            let ghost space = choose|space: Seq<char>| #[trigger]
                caret_splits(line@, space) && groups_of(Some(g)) == Some(
                    seq![Some(line@), Some(space)],
                );
            proof {
                lemma_groups(g);
                assert(line@.drop_last() == space);
            }
            let indent = group_text(&g, 1);
            Some(characters(indent.as_str()).len())
        },
    }
}

/// Reads a line of the output.
fn read_javac_line(pattern: &str, name: &str, line: &str) -> (r: Result<
    JavacReading,
    PatternRefused,
>)
    requires
        pattern@ == javac_pattern(name@),
    ensures
        name@.len() <= SURE_NAME_LENGTH ==> r is Ok,
        r matches Ok(reading) ==> reading@ == javac_reading(name@, line@),
{
    let caret = read_caret(line);
    let header = match javac_captures(pattern, name, line) {
        Err(e) => {
            return Err(e);
        },
        Ok(None) => {
            assert(javac_parts_of(name@, line@) is None);
            None
        },
        Ok(Some(g)) => {
            let ghost p = choose|p: JavacParts| #[trigger]
                javac_match(name@, line@, p) && groups_of(Some(g)) == Some(
                    seq![
                        Some(
                            name@ + (seq![':'] + (p.line + (seq![':', ' '] + (p.level + (
                            seq![':', ' '] + p.message))))),
                        ),
                        Some(p.line),
                        Some(p.level),
                        Some(p.message),
                    ],
                );
            proof {
                lemma_groups(g);
                lemma_javac_unique(name@, line@, p, javac_parts_of(name@, line@)->0);
            }
            Some(
                JavacHeader {
                    line: group_text(&g, 1),
                    level: group_text(&g, 2),
                    message: group_text(&g, 3),
                },
            )
        },
    };
    Ok(JavacReading { header, caret })
}

/// Reads all lines of an output for the messages on a source file.
pub fn read_javac_lines(stderr: &str, source_name: &str) -> (r: Result<
    Vec<JavacReading>,
    PatternRefused,
>)
    ensures
        source_name@.len() <= SURE_NAME_LENGTH ==> r is Ok,
        r matches Ok(list) ==> reading_views(list@) == javac_readings(
            source_name@,
            lines_of(stderr@),
        ),
{
    let pattern = javac_header_pattern(source_name);
    let lines = split_lines(stderr);
    let ghost all = javac_readings(source_name@, lines_of(stderr@));
    let mut readings: Vec<JavacReading> = Vec::new();
    let mut i: usize = 0;
    while i < lines.len()
        invariant
            pattern@ == javac_pattern(source_name@),
            texts(lines@) == lines_of(stderr@),
            all == javac_readings(source_name@, lines_of(stderr@)),
            i <= lines@.len(),
            reading_views(readings@) == all.take(i as int),
        decreases lines@.len() - i,
    {
        let ghost done = reading_views(readings@);
        assert(texts(lines@)[i as int] == lines@[i as int]@);
        let reading = match read_javac_line(pattern.as_str(), source_name, lines[i].as_str()) {
            Ok(reading) => reading,
            Err(e) => {
                return Err(e);
            },
        };
        readings.push(reading);
        assert(reading_views(readings@) == done.push(reading@));
        i += 1;
        assert(all.take(i as int) == done.push(reading@));
    }
    assert(all.take(i as int) == all);
    Ok(readings)
}

/// Makes diagnostics of what the lines of an output say. Where they could not be
/// read, that is the result.
pub fn assemble_javac(read: Result<Vec<JavacReading>, PatternRefused>) -> (r: Result<
    Vec<Diagnostic>,
    PatternRefused,
>)
    ensures
        match read {
            Ok(readings) => r matches Ok(list) && models(list@) == javac_assembled(
                reading_views(readings@),
            ),
            Err(e) => r == Err::<Vec<Diagnostic>, PatternRefused>(e),
        },
{
    let readings = match read {
        Ok(readings) => readings,
        Err(e) => {
            return Err(e);
        },
    };
    let ghost all = reading_views(readings@);
    let mut diagnostics: Vec<Diagnostic> = Vec::new();
    let mut i: usize = 0;
    assert(models(diagnostics@) == Seq::<DiagnosticView>::empty());
    assert(all.skip(0) == all);
    assert(javac_assembled(all) == models(diagnostics@) + javac_assembled(all.skip(0)));
    while i < readings.len()
        invariant
            all == reading_views(readings@),
            i <= readings@.len(),
            javac_assembled(all) == models(diagnostics@) + javac_assembled(all.skip(i as int)),
        decreases readings@.len() - i,
    {
        let ghost here = all.skip(i as int);
        let ghost done = models(diagnostics@);
        assert(here[0] == readings@[i as int]@);
        match &readings[i].header {
            None => {
                assert(here.skip(1) == all.skip(i + 1));
            },
            Some(h) => {
                let mut column: usize = 0;
                let start: usize = i;
                if readings.len() - i > 2 {
                    assert(here[2] == readings@[i + 2]@);
                    match readings[i + 2].caret {
                        Some(n) => {
                            column = n;
                            i += 2;
                        },
                        None => {},
                    }
                }
                let line = read_number(h.line.as_str()).saturating_sub(1);
                let d = Diagnostic {
                    level: h.level.clone(),
                    span: Some(Span { start: Position { line, column }, end: None }),
                    message: h.message.clone(),
                    code: None,
                    details: Vec::new(),
                };
                proof {
                    lemma_details(d);
                    assert(d@.details =~= seq![]);
                    assert(d@ == javac_diagnostic(h@, caret_after(here)));
                    let used: int = if caret_after(here) is Some {
                        3
                    } else {
                        1
                    };
                    assert(i + 1 == start + used);
                    assert(here.skip(used) == all.skip(i + 1));
                }
                diagnostics.push(d);
                assert(models(diagnostics@) == done.push(d@));
                assert(done + (seq![d@] + javac_assembled(all.skip(i + 1))) == done.push(d@)
                    + javac_assembled(all.skip(i + 1)));
            },
        }
        i += 1;
    }
    assert(all.skip(i as int) == Seq::<JavacReadingView>::empty());
    assert(models(diagnostics@) + javac_assembled(all.skip(i as int)) == models(diagnostics@));
    Ok(diagnostics)
}

/// The diagnostics on a source file in an output of javac. Each stands in the
/// output as
///
/// ```text
/// filename.java:LINE: error: MESSAGE
/// SOURCE_LINE
///             ^
/// ```
///
/// A name for which the pattern would be too large is refused with the error that
/// says so; from which length on is left open.
pub fn parse_javac_diagnostics(stderr: &str, source_name: &str) -> (r: Result<
    Vec<Diagnostic>,
    PatternRefused,
>)
    ensures
        source_name@.len() <= SURE_NAME_LENGTH ==> r is Ok,
        r matches Ok(list) ==> models(list@) == javac_diagnostics(stderr@, source_name@),
{
    assemble_javac(read_javac_lines(stderr, source_name))
}

} // verus!
