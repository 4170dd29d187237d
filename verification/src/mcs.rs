//! The output of mcs.

use vstd::prelude::*;

use crate::diagnostic::{
    collected, foreign_file, is_foreign_file, known_level, lemma_collected_from,
    lemma_collected_joined, lemma_details, models, start_at, Diagnostic, DiagnosticView, Position,
    Span,
};
use crate::pattern::{
    decimals, fixed_captures, group_text, groups_of, is_decimal, lemma_ascii_decimal, lemma_groups,
    mcs_match, mcs_splits, mcs_text, message_begins, part, McsParts, MCS_LINE,
};
use crate::text::{
    is_white_space, lacks, law_lines_joined, law_lines_separated, law_lines_single, lemma_same_cut,
    lemma_same_run, lines_of, number_or_one, read_number, split_lines, texts,
};

verus! {

/// The parts of a message; `None` for another line.
pub open spec fn mcs_parts_of(text: Seq<char>) -> Option<McsParts> {
    if exists|p: McsParts| mcs_match(text, p) {
        Some(choose|p: McsParts| mcs_match(text, p))
    } else {
        None
    }
}

/// The column that is written down; one where there is none.
pub open spec fn mcs_column(column: Option<Seq<char>>) -> usize {
    match column {
        Some(s) => number_or_one(s),
        None => 1,
    }
}

/// The diagnostic of a message with the parts `p`.
pub open spec fn mcs_diagnostic(p: McsParts) -> DiagnosticView {
    DiagnosticView {
        level: p.level,
        span: Some(start_at(number_or_one(p.line), mcs_column(p.column))),
        message: p.message,
        code: Some(p.code),
        details: seq![],
    }
}

/// The diagnostic of a line; `None` for a line without a message, or with one
/// on a file outside the program.
pub open spec fn mcs_line(text: Seq<char>) -> Option<DiagnosticView> {
    match mcs_parts_of(text) {
        Some(p) => if foreign_file(p.file) {
            None
        } else {
            Some(mcs_diagnostic(p))
        },
        None => None,
    }
}

/// How lines are read.
pub open spec fn mcs_reader() -> spec_fn(Seq<char>) -> Option<DiagnosticView> {
    |line: Seq<char>| mcs_line(line)
}

/// The diagnostics in an output of mcs.
pub open spec fn mcs_diagnostics(stderr: Seq<char>) -> Seq<DiagnosticView> {
    collected(lines_of(stderr), mcs_reader())
}

proof fn lemma_mcs_level(level: Seq<char>)
    requires
        level == "error"@ || level == "warning"@,
    ensures
        level.len() > 0,
        lacks(level, '\n'),
        forall|i: int| 0 <= i < level.len() ==> !is_white_space(#[trigger] level[i]),
{
    reveal_strlit("error");
    reveal_strlit("warning");
}

proof fn lemma_mcs_code(code: Seq<char>)
    requires
        code.len() > 2,
        code.take(2) == seq!['C', 'S'],
        decimals(code.skip(2)),
    ensures
        code[0] == 'C',
        lacks(code, ':'),
        lacks(code, '\n'),
{
    lemma_ascii_decimal(':');
    lemma_ascii_decimal('\n');
    assert(code[0] == code.take(2)[0]);
    assert(code[1] == code.take(2)[1]);
    assert forall|i: int| 0 <= i < code.len() implies #[trigger] code[i] != ':' && code[i]
        != '\n' by {
        if i >= 2 {
            assert(is_decimal(code.skip(2)[i - 2]));
        }
    }
}

/// Two splits whose files and line numbers are as long as each other differ at
/// most in where the message begins.
proof fn lemma_mcs_cut(text: Seq<char>, p: McsParts, q: McsParts)
    requires
        mcs_splits(text, p),
        mcs_splits(text, q),
        p.file.len() == q.file.len(),
        p.line.len() == q.line.len(),
    ensures
        p.file == q.file,
        p.line == q.line,
        p.comma == q.comma,
        p.column == q.column,
        p.level_gap == q.level_gap,
        p.level == q.level,
        p.code_gap == q.code_gap,
        p.code == q.code,
        p.message_gap + p.message == q.message_gap + q.message,
{
    let open = seq!['('];
    let close = seq![')', ':'];
    let colon = seq![':'];
    lemma_ascii_decimal(',');
    lemma_ascii_decimal(')');
    lemma_mcs_level(p.level);
    lemma_mcs_level(q.level);
    lemma_mcs_code(p.code);
    lemma_mcs_code(q.code);
    let p8 = colon + (p.message_gap + p.message);
    let q8 = colon + (q.message_gap + q.message);
    let p7 = p.code + p8;
    let q7 = q.code + q8;
    let p6 = p.code_gap + p7;
    let q6 = q.code_gap + q7;
    let p5 = p.level + p6;
    let q5 = q.level + q6;
    let p4 = close + (p.level_gap + p5);
    let q4 = close + (q.level_gap + q5);
    let p3 = part(p.column) + p4;
    let q3 = part(q.column) + q4;
    let p2 = p.comma + p3;
    let q2 = q.comma + q3;
    lemma_same_cut(p.file, open + (p.line + p2), q.file, open + (q.line + q2));
    lemma_same_cut(open, p.line + p2, open, q.line + q2);
    lemma_same_cut(p.line, p2, q.line, q2);
    assert(p3[0] != ',') by {
        if p.column is Some {
            assert(p3[0] == p.column->0[0]);
        } else {
            assert(p3[0] == ')');
        }
    }
    assert(q3[0] != ',') by {
        if q.column is Some {
            assert(q3[0] == q.column->0[0]);
        } else {
            assert(q3[0] == ')');
        }
    }
    lemma_same_run(p.comma, p3, q.comma, q3, |c: char| c == ',');
    lemma_same_run(part(p.column), p4, part(q.column), q4, |c: char| is_decimal(c));
    lemma_same_cut(close, p.level_gap + p5, close, q.level_gap + q5);
    assert(p5[0] == p.level[0]);
    assert(q5[0] == q.level[0]);
    lemma_same_run(p.level_gap, p5, q.level_gap, q5, |c: char| is_white_space(c));
    assert(p6[0] == p.code_gap[0]);
    assert(q6[0] == q.code_gap[0]);
    lemma_same_run(p.level, p6, q.level, q6, |c: char| !is_white_space(c));
    assert(p7[0] == 'C');
    assert(q7[0] == 'C');
    lemma_same_run(p.code_gap, p7, q.code_gap, q7, |c: char| is_white_space(c));
    lemma_same_run(p.code, p8, q.code, q8, |c: char| c != ':');
    lemma_same_cut(colon, p.message_gap + p.message, colon, q.message_gap + q.message);
}

/// A line is matched in one way at most.
pub proof fn lemma_mcs_unique(text: Seq<char>, p: McsParts, q: McsParts)
    requires
        mcs_match(text, p),
        mcs_match(text, q),
    ensures
        p == q,
{
    lemma_mcs_cut(text, p, q);
    lemma_same_cut(p.message_gap, p.message, q.message_gap, q.message);
}

/// No shorter text at the start of `text` can be read as the file.
pub open spec fn mcs_file_shortest(text: Seq<char>, p: McsParts) -> bool {
    forall|q: McsParts| #[trigger] mcs_splits(text, q) ==> p.file.len() <= q.file.len()
}

/// The line `file(line,column): level code: message` is read as these parts,
/// where no shorter file can be read from it. The column may be missing, and
/// the comma with it.
pub proof fn law_mcs_parts(p: McsParts)
    requires
        mcs_splits(mcs_text(p), p),
        mcs_file_shortest(mcs_text(p), p),
        p.column is Some ==> p.comma == seq![','],
        message_begins(p.message),
    ensures
        mcs_parts_of(mcs_text(p)) == Some(p),
{
    let text = mcs_text(p);
    lemma_ascii_decimal(',');
    lemma_ascii_decimal(')');
    assert forall|q: McsParts| #[trigger] mcs_splits(text, q) implies {
        &&& p.file.len() <= q.file.len()
        &&& p.file.len() == q.file.len() ==> {
            &&& q.line.len() <= p.line.len()
            &&& p.line.len() == q.line.len() ==> q.message_gap.len() <= p.message_gap.len()
        }
    } by {
        let at = p.file.len() + 1 + p.line.len();
        if p.file.len() == q.file.len() && q.line.len() > p.line.len() {
            assert(mcs_text(q)[at as int] == q.line[p.line.len() as int]);
            if p.comma.len() > 0 {
                assert(text[at as int] == ',');
            } else {
                assert(text[at as int] == ')');
            }
            assert(is_decimal(q.line[p.line.len() as int]));
        }
        if p.file.len() == q.file.len() && p.line.len() == q.line.len() && q.message_gap.len()
            > p.message_gap.len() {
            lemma_mcs_cut(text, p, q);
            let k = p.message_gap.len() as int;
            assert((p.message_gap + p.message).len() == (q.message_gap + q.message).len());
            assert((p.message_gap + p.message)[k] == p.message[0]);
            assert((q.message_gap + q.message)[k] == q.message_gap[k]);
        }
    }
    assert(mcs_match(text, p));
    lemma_mcs_unique(text, p, choose|q: McsParts| mcs_match(text, q));
}

/// From a line about a file without an opening bracket in its name no shorter
/// file can be read.
pub proof fn law_mcs_plain_file(p: McsParts)
    requires
        lacks(p.file, '('),
    ensures
        mcs_file_shortest(mcs_text(p), p),
{
    let text = mcs_text(p);
    assert forall|q: McsParts| #[trigger] mcs_splits(text, q) implies p.file.len()
        <= q.file.len() by {
        if q.file.len() < p.file.len() {
            assert(mcs_text(q)[q.file.len() as int] == '(');
            assert(text[q.file.len() as int] == p.file[q.file.len() as int]);
        }
    }
}

/// The line `file(line,column): level code: message` about a file of the program
/// makes one diagnostic.
pub proof fn law_mcs_line(p: McsParts)
    requires
        mcs_splits(mcs_text(p), p),
        mcs_file_shortest(mcs_text(p), p),
        p.column is Some ==> p.comma == seq![','],
        lacks(p.level_gap, '\n'),
        lacks(p.code_gap, '\n'),
        lacks(p.message_gap, '\n'),
        message_begins(p.message),
        !foreign_file(p.file),
    ensures
        mcs_diagnostics(mcs_text(p)) == seq![mcs_diagnostic(p)],
{
    let text = mcs_text(p);
    lemma_ascii_decimal('\n');
    lemma_mcs_level(p.level);
    lemma_mcs_code(p.code);
    assert(lacks(part(p.column), '\n'));
    assert(lacks(text, '\n'));
    law_lines_single(text);
    law_mcs_parts(p);
    assert(mcs_reader()(text) == Some(mcs_diagnostic(p)));
    assert(seq![text].drop_last() == Seq::<Seq<char>>::empty());
    assert(collected(Seq::<Seq<char>>::empty(), mcs_reader()) == Seq::<DiagnosticView>::empty());
}

/// The diagnostics of two outputs, of which the first ends with a line feed,
/// are those of the first and then those of the second.
pub proof fn law_mcs_joined(a: Seq<char>, b: Seq<char>)
    requires
        a.len() > 0 ==> a.last() == '\n',
    ensures
        mcs_diagnostics(a + b) == mcs_diagnostics(a) + mcs_diagnostics(b),
{
    law_lines_joined(a, b);
    lemma_collected_joined(lines_of(a), lines_of(b), mcs_reader());
}

/// The diagnostics of two outputs with a line feed between them are those of the
/// first and then those of the second.
pub proof fn law_mcs_separated(a: Seq<char>, b: Seq<char>)
    requires
        a.len() > 0 ==> a.last() != '\r',
    ensures
        mcs_diagnostics(a + (seq!['\n'] + b)) == mcs_diagnostics(a) + mcs_diagnostics(b),
{
    let none = Seq::<char>::empty();
    let between = if a.len() == 0 || a.last() == '\n' {
        seq![none]
    } else {
        seq![]
    };
    law_lines_separated(a, b);
    lemma_collected_joined(lines_of(a), between + lines_of(b), mcs_reader());
    lemma_collected_joined(between, lines_of(b), mcs_reader());
    assert forall|p: McsParts| !mcs_match(none, p) by {
        if mcs_match(none, p) {
            assert(mcs_text(p).len() >= p.file.len());
        }
    }
    assert(mcs_reader()(none) is None);
    assert(seq![none].drop_last() == Seq::<Seq<char>>::empty());
    assert(collected(Seq::<Seq<char>>::empty(), mcs_reader()) == Seq::<DiagnosticView>::empty());
    assert(collected(between, mcs_reader()) == Seq::<DiagnosticView>::empty());
    assert(collected(between, mcs_reader()) + mcs_diagnostics(b) == mcs_diagnostics(b));
}

/// Each diagnostic of mcs has a level of the schema, a start without an end, a
/// code and no details.
pub proof fn law_mcs_shape(stderr: Seq<char>, i: int)
    requires
        0 <= i < mcs_diagnostics(stderr).len(),
    ensures
        known_level(mcs_diagnostics(stderr)[i].level),
        mcs_diagnostics(stderr)[i].span matches Some(span) && span.end is None,
        mcs_diagnostics(stderr)[i].code matches Some(code) && code.len() > 2 && code.take(2)
            == seq!['C', 'S'] && decimals(code.skip(2)),
        mcs_diagnostics(stderr)[i].details.len() == 0,
{
    lemma_collected_from(lines_of(stderr), mcs_reader(), i);
    let lines = lines_of(stderr);
    let k = choose|k: int|
        0 <= k < lines.len() && mcs_reader()(#[trigger] lines[k]) == Some(
            mcs_diagnostics(stderr)[i],
        );
    assert(mcs_line(lines[k]) == Some(mcs_diagnostics(stderr)[i]));
    assert(mcs_match(lines[k], mcs_parts_of(lines[k])->0));
}

/// Reads a line of the output.
pub fn read_mcs_line(line: &str) -> (r: Option<Diagnostic>)
    ensures
        match r {
            Some(d) => mcs_line(line@) == Some(d@),
            None => mcs_line(line@) is None,
        },
{
    match fixed_captures(MCS_LINE, line) {
        None => None,
        Some(g) => {
            let ghost p = choose|p: McsParts| #[trigger]
                mcs_match(line@, p) && groups_of(Some(g)) == Some(
                    seq![
                        Some(line@),
                        Some(p.file),
                        Some(p.line),
                        p.column,
                        Some(p.level),
                        Some(p.code),
                        Some(p.message),
                    ],
                );
            proof {
                lemma_groups(g);
                lemma_mcs_unique(line@, p, mcs_parts_of(line@)->0);
            }
            let file = group_text(&g, 1);
            if is_foreign_file(file.as_str()) {
                return None;
            }
            let line_number = read_number(group_text(&g, 2).as_str());
            let column = match &g[3] {
                Some(s) => read_number(s.as_str()),
                None => 1,
            };
            let d = Diagnostic {
                level: group_text(&g, 4),
                span: Some(
                    Span {
                        start: Position {
                            line: line_number.saturating_sub(1),
                            column: column.saturating_sub(1),
                        },
                        end: None,
                    },
                ),
                message: group_text(&g, 6),
                code: Some(group_text(&g, 5)),
                details: Vec::new(),
            };
            proof {
                lemma_details(d);
                assert(d@.details =~= seq![]);
                assert(d@ == mcs_diagnostic(p));
            }
            Some(d)
        },
    }
}

/// The diagnostics in an output of mcs. Each stands in the output as
///
/// ```text
/// FILE(LINE,COL): error|warning CSxxxx: message
/// ```
pub fn parse_mcs_diagnostics(stderr: &str) -> (r: Vec<Diagnostic>)
    ensures
        models(r@) == mcs_diagnostics(stderr@),
{
    let lines = split_lines(stderr);
    let ghost all = lines_of(stderr@);
    let mut diagnostics: Vec<Diagnostic> = Vec::new();
    let mut i: usize = 0;
    assert(models(diagnostics@) == Seq::<DiagnosticView>::empty());
    while i < lines.len()
        invariant
            all == lines_of(stderr@),
            texts(lines@) == all,
            i <= lines@.len(),
            models(diagnostics@) == collected(all.take(i as int), mcs_reader()),
        decreases lines@.len() - i,
    {
        let ghost done = models(diagnostics@);
        assert(all[i as int] == lines@[i as int]@);
        assert(all.take(i + 1).drop_last() == all.take(i as int));
        match read_mcs_line(lines[i].as_str()) {
            None => {},
            Some(d) => {
                diagnostics.push(d);
                assert(models(diagnostics@) == done.push(d@));
            },
        }
        i += 1;
    }
    assert(all.take(i as int) == all);
    diagnostics
}

} // verus!
