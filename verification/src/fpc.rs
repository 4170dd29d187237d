//! The output of fpc.

use vstd::prelude::*;

use crate::diagnostic::{
    collected, foreign_file, is_foreign_file, known_level, lemma_collected_from,
    lemma_collected_joined, lemma_details, models, start_at, Diagnostic, DiagnosticView, Position,
    Span,
};
use crate::pattern::{
    decimals, fixed_captures, fpc_level, fpc_match, fpc_splits, fpc_text, gap, group_text,
    groups_of, is_decimal, lemma_ascii_decimal, lemma_groups, message_begins, numbered_match,
    numbered_splits, within_line, FpcParts, NumberedParts, FPC_CODE, FPC_LINE,
};
use crate::text::{
    is_white_space, lacks, law_lines_joined, law_lines_separated, law_lines_single, lemma_same_cut,
    lemma_same_run, lines_of, number_or_one, optional_text, read_number, same_text, split_lines,
    texts,
};

verus! {

/// The parts of a message; `None` for another line.
pub open spec fn fpc_parts_of(text: Seq<char>) -> Option<FpcParts> {
    if exists|p: FpcParts| fpc_match(text, p) {
        Some(choose|p: FpcParts| fpc_match(text, p))
    } else {
        None
    }
}

/// The number at the start of a message, if it has one, and the rest.
pub open spec fn fpc_code_of(text: Seq<char>) -> (Option<Seq<char>>, Seq<char>) {
    if exists|p: NumberedParts| numbered_match(text, p) {
        let p = choose|p: NumberedParts| numbered_match(text, p);
        (Some(p.code), p.message)
    } else {
        (None, text)
    }
}

/// The level of the schema for a level of fpc.
pub open spec fn fpc_schema_level(level: Seq<char>) -> Seq<char> {
    if level == "Fatal"@ || level == "Error"@ {
        "error"@
    } else if level == "Warning"@ {
        "warning"@
    } else if level == "Hint"@ {
        "help"@
    } else {
        "note"@
    }
}

/// The diagnostic of a message with the parts `p`.
pub open spec fn fpc_diagnostic(p: FpcParts) -> DiagnosticView {
    DiagnosticView {
        level: fpc_schema_level(p.level),
        span: Some(start_at(number_or_one(p.line), number_or_one(p.column))),
        message: fpc_code_of(p.message).1,
        code: fpc_code_of(p.message).0,
        details: seq![],
    }
}

/// The diagnostic of a line; `None` for a line without a message, or with one
/// on a file outside the program.
pub open spec fn fpc_line(text: Seq<char>) -> Option<DiagnosticView> {
    match fpc_parts_of(text) {
        Some(p) => if foreign_file(p.file) {
            None
        } else {
            Some(fpc_diagnostic(p))
        },
        None => None,
    }
}

/// How lines are read.
pub open spec fn fpc_reader() -> spec_fn(Seq<char>) -> Option<DiagnosticView> {
    |line: Seq<char>| fpc_line(line)
}

/// The diagnostics in an output of fpc.
pub open spec fn fpc_diagnostics(output: Seq<char>) -> Seq<DiagnosticView> {
    collected(lines_of(output), fpc_reader())
}

proof fn lemma_fpc_level(level: Seq<char>)
    requires
        fpc_level(level),
    ensures
        level.len() > 0,
        lacks(level, ':'),
        lacks(level, '\n'),
        !is_white_space(level[0]),
{
    reveal_strlit("Fatal");
    reveal_strlit("Error");
    reveal_strlit("Warning");
    reveal_strlit("Note");
    reveal_strlit("Hint");
}

/// Two splits whose files are as long as each other differ at most in where the
/// message begins.
proof fn lemma_fpc_cut(text: Seq<char>, p: FpcParts, q: FpcParts)
    requires
        fpc_splits(text, p),
        fpc_splits(text, q),
        p.file.len() == q.file.len(),
    ensures
        p.file == q.file,
        p.line == q.line,
        p.column == q.column,
        p.level_gap == q.level_gap,
        p.level == q.level,
        p.message_gap + p.message == q.message_gap + q.message,
{
    let open = seq!['('];
    let comma = seq![','];
    let close = seq![')'];
    let colon = seq![':'];
    lemma_ascii_decimal(',');
    lemma_ascii_decimal(')');
    lemma_fpc_level(p.level);
    lemma_fpc_level(q.level);
    let p6 = colon + (p.message_gap + p.message);
    let q6 = colon + (q.message_gap + q.message);
    let p5 = p.level + p6;
    let q5 = q.level + q6;
    let p4 = close + (p.level_gap + p5);
    let q4 = close + (q.level_gap + q5);
    let p3 = comma + (p.column + p4);
    let q3 = comma + (q.column + q4);
    let p2 = open + (p.line + p3);
    let q2 = open + (q.line + q3);
    lemma_same_cut(p.file, p2, q.file, q2);
    lemma_same_cut(open, p.line + p3, open, q.line + q3);
    lemma_same_run(p.line, p3, q.line, q3, |c: char| is_decimal(c));
    lemma_same_cut(comma, p.column + p4, comma, q.column + q4);
    lemma_same_run(p.column, p4, q.column, q4, |c: char| is_decimal(c));
    lemma_same_cut(close, p.level_gap + p5, close, q.level_gap + q5);
    assert(p5[0] == p.level[0]);
    assert(q5[0] == q.level[0]);
    lemma_same_run(p.level_gap, p5, q.level_gap, q5, |c: char| is_white_space(c));
    lemma_same_run(p.level, p6, q.level, q6, |c: char| c != ':');
    lemma_same_cut(colon, p.message_gap + p.message, colon, q.message_gap + q.message);
}

/// A line is matched in one way at most.
pub proof fn lemma_fpc_unique(text: Seq<char>, p: FpcParts, q: FpcParts)
    requires
        fpc_match(text, p),
        fpc_match(text, q),
    ensures
        p == q,
{
    lemma_fpc_cut(text, p, q);
    lemma_same_cut(p.message_gap, p.message, q.message_gap, q.message);
}

/// No shorter text at the start of `text` can be read as the file.
pub open spec fn fpc_file_shortest(text: Seq<char>, p: FpcParts) -> bool {
    forall|q: FpcParts| #[trigger] fpc_splits(text, q) ==> p.file.len() <= q.file.len()
}

/// The line `file(line,column) level: message` is read as these parts, where no
/// shorter file can be read from it.
pub proof fn law_fpc_parts(p: FpcParts)
    requires
        fpc_splits(fpc_text(p), p),
        fpc_file_shortest(fpc_text(p), p),
        message_begins(p.message),
    ensures
        fpc_parts_of(fpc_text(p)) == Some(p),
{
    let text = fpc_text(p);
    assert forall|q: FpcParts| #[trigger] fpc_splits(text, q) implies {
        &&& p.file.len() <= q.file.len()
        &&& p.file.len() == q.file.len() ==> q.message_gap.len() <= p.message_gap.len()
    } by {
        if p.file.len() == q.file.len() && q.message_gap.len() > p.message_gap.len() {
            lemma_fpc_cut(text, p, q);
            let at = p.message_gap.len() as int;
            assert((p.message_gap + p.message).len() == (q.message_gap + q.message).len());
            assert((p.message_gap + p.message)[at] == p.message[0]);
            assert((q.message_gap + q.message)[at] == q.message_gap[at]);
        }
    }
    assert(fpc_match(text, p));
    lemma_fpc_unique(text, p, choose|q: FpcParts| fpc_match(text, q));
}

/// From a line about a file without an opening bracket in its name no shorter
/// file can be read.
pub proof fn law_fpc_plain_file(p: FpcParts)
    requires
        lacks(p.file, '('),
    ensures
        fpc_file_shortest(fpc_text(p), p),
{
    let text = fpc_text(p);
    assert forall|q: FpcParts| #[trigger] fpc_splits(text, q) implies p.file.len()
        <= q.file.len() by {
        if q.file.len() < p.file.len() {
            assert(fpc_text(q)[q.file.len() as int] == '(');
            assert(text[q.file.len() as int] == p.file[q.file.len() as int]);
        }
    }
}

proof fn lemma_numbered_cut(text: Seq<char>, p: NumberedParts, q: NumberedParts)
    requires
        numbered_splits(text, p),
        numbered_splits(text, q),
    ensures
        p.code == q.code,
        p.space + p.message == q.space + q.message,
{
    let open = seq!['('];
    let close = seq![')'];
    lemma_ascii_decimal(')');
    let p1 = close + (p.space + p.message);
    let q1 = close + (q.space + q.message);
    lemma_same_cut(open, p.code + p1, open, q.code + q1);
    lemma_same_run(p.code, p1, q.code, q1, |c: char| is_decimal(c));
    lemma_same_cut(close, p.space + p.message, close, q.space + q.message);
}

pub proof fn lemma_numbered_unique(text: Seq<char>, p: NumberedParts, q: NumberedParts)
    requires
        numbered_match(text, p),
        numbered_match(text, q),
    ensures
        p == q,
{
    lemma_numbered_cut(text, p, q);
    lemma_same_cut(p.space, p.message, q.space, q.message);
}

/// The message `(code) message` is parted into its number and the rest.
pub proof fn law_fpc_code(code: Seq<char>, space: Seq<char>, message: Seq<char>)
    requires
        decimals(code),
        gap(space),
        within_line(message),
        message_begins(message),
    ensures
        fpc_code_of(seq!['('] + (code + (seq![')'] + (space + message)))) == (Some(code), message),
{
    let text = seq!['('] + (code + (seq![')'] + (space + message)));
    let p = NumberedParts { code, space, message };
    assert(numbered_splits(text, p));
    assert forall|q: NumberedParts| #[trigger] numbered_splits(text, q) implies q.space.len()
        <= p.space.len() by {
        if q.space.len() > space.len() {
            lemma_numbered_cut(text, p, q);
            let at = space.len() as int;
            assert((space + message).len() == (q.space + q.message).len());
            assert((space + message)[at] == message[0]);
            assert((q.space + q.message)[at] == q.space[at]);
        }
    }
    assert(numbered_match(text, p));
    lemma_numbered_unique(text, p, choose|q: NumberedParts| numbered_match(text, q));
}

/// A message that does not begin with a bracket has no number and stays whole.
pub proof fn law_fpc_no_code(message: Seq<char>)
    requires
        message.len() > 0 ==> message[0] != '(',
    ensures
        fpc_code_of(message) == (None::<Seq<char>>, message),
{
    assert forall|p: NumberedParts| !numbered_match(message, p) by {
        if numbered_match(message, p) {
            let text = seq!['('] + (p.code + (seq![')'] + (p.space + p.message)));
            assert(text[0] == '(');
        }
    }
}

/// The line `file(line,column) level: message` about a file of the program makes
/// one diagnostic.
pub proof fn law_fpc_line(p: FpcParts)
    requires
        fpc_splits(fpc_text(p), p),
        fpc_file_shortest(fpc_text(p), p),
        lacks(p.level_gap, '\n'),
        lacks(p.message_gap, '\n'),
        message_begins(p.message),
        !foreign_file(p.file),
    ensures
        fpc_diagnostics(fpc_text(p)) == seq![fpc_diagnostic(p)],
{
    let text = fpc_text(p);
    lemma_ascii_decimal('\n');
    lemma_fpc_level(p.level);
    assert(lacks(text, '\n'));
    law_lines_single(text);
    law_fpc_parts(p);
    assert(fpc_reader()(text) == Some(fpc_diagnostic(p)));
    assert(seq![text].drop_last() == Seq::<Seq<char>>::empty());
    assert(collected(Seq::<Seq<char>>::empty(), fpc_reader()) == Seq::<DiagnosticView>::empty());
}

/// The diagnostics of two outputs, of which the first ends with a line feed,
/// are those of the first and then those of the second.
pub proof fn law_fpc_joined(a: Seq<char>, b: Seq<char>)
    requires
        a.len() > 0 ==> a.last() == '\n',
    ensures
        fpc_diagnostics(a + b) == fpc_diagnostics(a) + fpc_diagnostics(b),
{
    law_lines_joined(a, b);
    lemma_collected_joined(lines_of(a), lines_of(b), fpc_reader());
}

/// The diagnostics of two outputs with a line feed between them are those of the
/// first and then those of the second.
pub proof fn law_fpc_separated(a: Seq<char>, b: Seq<char>)
    requires
        a.len() > 0 ==> a.last() != '\r',
    ensures
        fpc_diagnostics(a + (seq!['\n'] + b)) == fpc_diagnostics(a) + fpc_diagnostics(b),
{
    let none = Seq::<char>::empty();
    let between = if a.len() == 0 || a.last() == '\n' {
        seq![none]
    } else {
        seq![]
    };
    law_lines_separated(a, b);
    lemma_collected_joined(lines_of(a), between + lines_of(b), fpc_reader());
    lemma_collected_joined(between, lines_of(b), fpc_reader());
    assert forall|p: FpcParts| !fpc_match(none, p) by {
        if fpc_match(none, p) {
            assert(fpc_text(p).len() >= p.file.len());
        }
    }
    assert(fpc_reader()(none) is None);
    assert(seq![none].drop_last() == Seq::<Seq<char>>::empty());
    assert(collected(Seq::<Seq<char>>::empty(), fpc_reader()) == Seq::<DiagnosticView>::empty());
    assert(collected(between, fpc_reader()) == Seq::<DiagnosticView>::empty());
    assert(collected(between, fpc_reader()) + fpc_diagnostics(b) == fpc_diagnostics(b));
}

/// Each diagnostic of fpc has a level of the schema, a start without an end,
/// and no details.
pub proof fn law_fpc_shape(output: Seq<char>, i: int)
    requires
        0 <= i < fpc_diagnostics(output).len(),
    ensures
        known_level(fpc_diagnostics(output)[i].level),
        fpc_diagnostics(output)[i].span matches Some(span) && span.end is None,
        fpc_diagnostics(output)[i].details.len() == 0,
{
    lemma_collected_from(lines_of(output), fpc_reader(), i);
    let lines = lines_of(output);
    let k = choose|k: int|
        0 <= k < lines.len() && fpc_reader()(#[trigger] lines[k]) == Some(
            fpc_diagnostics(output)[i],
        );
    assert(fpc_line(lines[k]) == Some(fpc_diagnostics(output)[i]));
}

/// The level of the schema for a level of fpc.
pub fn level_of_fpc(level: &str) -> (r: String)
    ensures
        r@ == fpc_schema_level(level@),
{
    if same_text(level, "Fatal") || same_text(level, "Error") {
        "error".to_owned()
    } else if same_text(level, "Warning") {
        "warning".to_owned()
    } else if same_text(level, "Hint") {
        "help".to_owned()
    } else {
        "note".to_owned()
    }
}

/// Parts a message from the number in brackets at its start.
pub fn fpc_code(message: String) -> (r: (Option<String>, String))
    ensures
        (optional_text(r.0), r.1@) == fpc_code_of(message@),
{
    match fixed_captures(FPC_CODE, message.as_str()) {
        None => (None, message),
        Some(g) => {
            let ghost p = choose|p: NumberedParts| #[trigger]
                numbered_match(message@, p) && groups_of(Some(g)) == Some(
                    seq![Some(message@), Some(p.code), Some(p.message)],
                );
            proof {
                lemma_groups(g);
                lemma_numbered_unique(
                    message@,
                    p,
                    choose|q: NumberedParts| numbered_match(message@, q),
                );
            }
            (Some(group_text(&g, 1)), group_text(&g, 2))
        },
    }
}

/// Reads a line of the output.
pub fn read_fpc_line(line: &str) -> (r: Option<Diagnostic>)
    ensures
        match r {
            Some(d) => fpc_line(line@) == Some(d@),
            None => fpc_line(line@) is None,
        },
{
    match fixed_captures(FPC_LINE, line) {
        None => None,
        Some(g) => {
            let ghost p = choose|p: FpcParts| #[trigger]
                fpc_match(line@, p) && groups_of(Some(g)) == Some(
                    seq![
                        Some(line@),
                        Some(p.file),
                        Some(p.line),
                        Some(p.column),
                        Some(p.level),
                        Some(p.message),
                    ],
                );
            proof {
                lemma_groups(g);
                lemma_fpc_unique(line@, p, fpc_parts_of(line@)->0);
            }
            let file = group_text(&g, 1);
            if is_foreign_file(file.as_str()) {
                return None;
            }
            let line_number = read_number(group_text(&g, 2).as_str());
            let column = read_number(group_text(&g, 3).as_str());
            let level = level_of_fpc(group_text(&g, 4).as_str());
            let (code, message) = fpc_code(group_text(&g, 5));
            let d = Diagnostic {
                level,
                span: Some(
                    Span {
                        start: Position {
                            line: line_number.saturating_sub(1),
                            column: column.saturating_sub(1),
                        },
                        end: None,
                    },
                ),
                message,
                code,
                details: Vec::new(),
            };
            proof {
                lemma_details(d);
                assert(d@.details =~= seq![]);
                assert(d@ == fpc_diagnostic(p));
            }
            Some(d)
        },
    }
}

/// The diagnostics in an output of fpc. Each stands in the output as one of
///
/// ```text
/// FILE(LINE,COL) Fatal|Error|Warning|Note|Hint: message
/// FILE(LINE,COL) Fatal|Error|Warning|Note|Hint: (CODE) message
/// ```
pub fn parse_fpc_diagnostics(output: &str) -> (r: Vec<Diagnostic>)
    ensures
        models(r@) == fpc_diagnostics(output@),
{
    let lines = split_lines(output);
    let ghost all = lines_of(output@);
    let mut diagnostics: Vec<Diagnostic> = Vec::new();
    let mut i: usize = 0;
    assert(models(diagnostics@) == Seq::<DiagnosticView>::empty());
    while i < lines.len()
        invariant
            all == lines_of(output@),
            texts(lines@) == all,
            i <= lines@.len(),
            models(diagnostics@) == collected(all.take(i as int), fpc_reader()),
        decreases lines@.len() - i,
    {
        let ghost done = models(diagnostics@);
        assert(all[i as int] == lines@[i as int]@);
        assert(all.take(i + 1).drop_last() == all.take(i as int));
        match read_fpc_line(lines[i].as_str()) {
            None => {},
            Some(d) => {
                diagnostics.push(d);
                assert(models(diagnostics@) == done.push(d@));
            },
        }
        i += 1;
    }
    assert(all.take(i as int) == all);
    diagnostics
}

} // verus!
