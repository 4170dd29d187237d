//! The output of gcc.

use vstd::prelude::*;

use crate::diagnostic::{
    foreign_file, from_zero, is_foreign_file, is_note, known_level, lemma_details, models, start_at,
    Diagnostic, DiagnosticView, Position, Span,
};
use crate::pattern::{
    coded_match, coded_splits, csi_length, csi_numbers, decimals, fixed_captures, gcc_level,
    gcc_splits, gcc_text, group_text, groups_of, is_decimal, lemma_ascii_decimal, lemma_groups,
    without_all, without_csi, without_first, within_line, CodedParts, GccParts, CSI, GCC_CODE,
    GCC_HEADER,
};
use crate::text::{
    before, blank, characters, copy_optional, count_before, count_from, indentation, is_white_space,
    lacks, law_lines_first, law_lines_single, leading, lemma_before, lemma_before_bounds,
    lemma_leading, lemma_same_cut, lemma_same_run, lemma_trimmed_start, lines_of, number_or_one,
    optional_text, read_number, same_text, split_lines, texts, trimmed_start, without_return,
};

verus! {

/// What the first line of a message says, as it is written there.
#[derive(Debug, PartialEq, Eq)]
pub struct GccHeader {
    pub file: String,
    pub line: String,
    pub column: String,
    pub level: String,
    pub message: String,
}

impl View for GccHeader {
    type V = GccParts;

    open spec fn view(&self) -> GccParts {
        GccParts {
            file: self.file@,
            line: self.line@,
            column: self.column@,
            level: self.level@,
            message: self.message@,
        }
    }
}

/// The parts of the first line of a message; `None` for another line.
pub open spec fn gcc_header_of(text: Seq<char>) -> Option<GccParts> {
    if exists|p: GccParts| gcc_splits(text, p) {
        Some(choose|p: GccParts| gcc_splits(text, p))
    } else {
        None
    }
}

/// A message and the code at its end, if it has one.
pub open spec fn gcc_code_of(text: Seq<char>) -> (Seq<char>, Option<Seq<char>>) {
    if exists|p: CodedParts| coded_match(text, p) {
        let p = choose|p: CodedParts| coded_match(text, p);
        (p.message, Some(p.code))
    } else {
        (text, None)
    }
}

/// How many tildes follow the caret of an annotation; `None` for another line.
pub open spec fn tilde_count(text: Seq<char>) -> Option<nat> {
    let t = trimmed_start(text);
    if t.len() > 0 && t[0] == '|' {
        let rest = t.skip(1);
        let n = before(rest, '^') as int;
        if n < rest.len() {
            Some(leading(rest.skip(n + 1), '~'))
        } else {
            None
        }
    } else {
        None
    }
}

/// A level contains no colon.
proof fn lemma_gcc_level(level: Seq<char>)
    requires
        gcc_level(level),
    ensures
        lacks(level, ':'),
{
    reveal_strlit("error");
    reveal_strlit("warning");
    reveal_strlit("note");
    reveal_strlit("fatal error");
}

/// A line is made of the parts of a message in one way at most.
pub proof fn lemma_gcc_unique(text: Seq<char>, p: GccParts, q: GccParts)
    requires
        gcc_splits(text, p),
        gcc_splits(text, q),
    ensures
        p == q,
{
    let other = |c: char| c != ':';
    let colon = seq![':'];
    let wide = seq![':', ' '];
    lemma_ascii_decimal(':');
    lemma_gcc_level(p.level);
    lemma_gcc_level(q.level);
    let p5 = wide + p.message;
    let q5 = wide + q.message;
    let p4 = wide + (p.level + p5);
    let q4 = wide + (q.level + q5);
    let p3 = colon + (p.column + p4);
    let q3 = colon + (q.column + q4);
    let p2 = colon + (p.line + p3);
    let q2 = colon + (q.line + q3);
    lemma_same_run(p.file, p2, q.file, q2, other);
    lemma_same_cut(colon, p.line + p3, colon, q.line + q3);
    lemma_same_run(p.line, p3, q.line, q3, |c: char| is_decimal(c));
    lemma_same_cut(colon, p.column + p4, colon, q.column + q4);
    lemma_same_run(p.column, p4, q.column, q4, |c: char| is_decimal(c));
    lemma_same_cut(wide, p.level + p5, wide, q.level + q5);
    lemma_same_run(p.level, p5, q.level, q5, other);
    lemma_same_cut(wide, p.message, wide, q.message);
}

/// The line `file:line:column: level: message` is read as these parts.
pub proof fn law_gcc_header(p: GccParts)
    requires
        p.file.len() > 0,
        lacks(p.file, ':'),
        lacks(p.file, '\n'),
        decimals(p.line),
        decimals(p.column),
        gcc_level(p.level),
        within_line(p.message),
    ensures
        gcc_header_of(gcc_text(p)) == Some(p),
{
    assert(gcc_splits(gcc_text(p), p));
    lemma_gcc_unique(gcc_text(p), p, choose|q: GccParts| gcc_splits(gcc_text(p), q));
}

/// The match of a code at the end of a message is made in one way.
pub proof fn lemma_coded_unique(text: Seq<char>, p: CodedParts, q: CodedParts)
    requires
        coded_match(text, p),
        coded_match(text, q),
    ensures
        p == q,
{
    let open = seq!['['];
    let close = seq![']'];
    let p1 = open + (p.code + close);
    let q1 = open + (q.code + close);
    lemma_same_cut(p.message, p.space + p1, q.message, q.space + q1);
    lemma_same_run(p.space, p1, q.space, q1, |c: char| is_white_space(c));
    lemma_same_cut(open, p.code + close, open, q.code + close);
    lemma_same_cut(p.code, close, q.code, close);
}

/// Takes the control sequences of a terminal out of a text.
pub fn strip_ansi(s: &str) -> (r: String)
    ensures
        r@ == without_csi(s@),
{
    proof {
        reveal_strlit("");
    }
    without_all(CSI, s, "")
}

/// How many tildes follow the caret of a line without control sequences.
pub fn count_tildes(clean: &str) -> (r: Option<usize>)
    ensures
        match r {
            Some(n) => tilde_count(clean@) == Some(n as nat),
            None => tilde_count(clean@) is None,
        },
{
    let chars = characters(clean);
    let start = indentation(&chars);
    let ghost t = trimmed_start(chars@);
    if start == chars.len() || chars[start] != '|' {
        return None;
    }
    assert(t.skip(1) == chars@.skip(start + 1));
    let n = count_before(&chars, start + 1, '^');
    if n == chars.len() - (start + 1) {
        return None;
    }
    assert(t.skip(1).skip(n + 1) == chars@.skip(start + 1 + n + 1));
    Some(count_from(&chars, start + 1 + n + 1, '~'))
}

/// How many tildes follow the caret of a line such as `      |         ^~~~~`.
pub fn extract_tilde_count(caret_line: &str) -> (r: Option<usize>)
    ensures
        match r {
            Some(n) => tilde_count(without_csi(caret_line@)) == Some(n as nat),
            None => tilde_count(without_csi(caret_line@)) is None,
        },
{
    let clean = strip_ansi(caret_line);
    count_tildes(clean.as_str())
}

/// Reads the first line of a message.
pub fn gcc_header(line: &str) -> (r: Option<GccHeader>)
    ensures
        match r {
            Some(h) => gcc_header_of(line@) == Some(h@),
            None => gcc_header_of(line@) is None,
        },
{
    match fixed_captures(GCC_HEADER, line) {
        None => None,
        Some(g) => {
            let ghost p = choose|p: GccParts| #[trigger]
                gcc_splits(line@, p) && groups_of(Some(g)) == Some(
                    seq![
                        Some(line@),
                        Some(p.file),
                        Some(p.line),
                        Some(p.column),
                        Some(p.level),
                        Some(p.message),
                    ],
                );
            proof {
                lemma_groups(g);
            }
            let h = GccHeader {
                file: group_text(&g, 1),
                line: group_text(&g, 2),
                column: group_text(&g, 3),
                level: group_text(&g, 4),
                message: group_text(&g, 5),
            };
            proof {
                assert(h@ == p);
                lemma_gcc_unique(line@, p, gcc_header_of(line@)->0);
            }
            Some(h)
        },
    }
}

/// Parts a message from the code in brackets at its end.
pub fn gcc_code(message: &str) -> (r: (String, Option<String>))
    ensures
        (r.0@, optional_text(r.1)) == gcc_code_of(message@),
{
    match fixed_captures(GCC_CODE, message) {
        None => {
            let whole = message.to_owned();
            (whole, None)
        },
        Some(g) => {
            let ghost p = choose|p: CodedParts| #[trigger]
                coded_match(message@, p) && groups_of(Some(g)) == Some(
                    seq![
                        Some(p.space + (seq!['['] + (p.code + seq![']']))),
                        Some(p.code),
                    ],
                );
            proof {
                lemma_groups(g);
            }
            let code = group_text(&g, 1);
            proof {
                reveal_strlit("");
                lemma_coded_unique(
                    message@,
                    p,
                    choose|q: CodedParts| coded_match(message@, q),
                );
            }
            let rest = without_first(GCC_CODE, message, "");
            (rest, Some(code))
        },
    }
}

/// A message of gcc: where it points to and what it says.
#[derive(Debug, PartialEq, Eq)]
pub struct GccEntry {
    pub file: String,
    pub line: usize,
    pub column: usize,
    pub level: String,
    pub message: String,
    pub code: Option<String>,
}

/// What a message of gcc says.
#[verifier::ext_equal]
pub struct GccEntryView {
    pub file: Seq<char>,
    pub line: usize,
    pub column: usize,
    pub level: Seq<char>,
    pub message: Seq<char>,
    pub code: Option<Seq<char>>,
}

impl View for GccEntry {
    type V = GccEntryView;

    open spec fn view(&self) -> GccEntryView {
        GccEntryView {
            file: self.file@,
            line: self.line,
            column: self.column,
            level: self.level@,
            message: self.message@,
            code: optional_text(self.code),
        }
    }
}

/// What a line of the output holds: the first line of a message, or a caret
/// with tildes after it.
#[derive(Debug, PartialEq, Eq)]
pub struct GccReading {
    pub entry: Option<GccEntry>,
    pub tildes: Option<usize>,
}

/// What a line of the output says.
#[verifier::ext_equal]
pub struct GccReadingView {
    pub entry: Option<GccEntryView>,
    pub tildes: Option<usize>,
}

impl View for GccReading {
    type V = GccReadingView;

    open spec fn view(&self) -> GccReadingView {
        GccReadingView {
            entry: match self.entry {
                Some(e) => Some(e@),
                None => None,
            },
            tildes: self.tildes,
        }
    }
}

/// The level of the schema for a level of gcc.
pub open spec fn gcc_schema_level(level: Seq<char>) -> Seq<char> {
    if level == "fatal error"@ {
        "error"@
    } else {
        level
    }
}

/// The message whose first line has the parts `p`.
pub open spec fn gcc_entry(p: GccParts) -> GccEntryView {
    GccEntryView {
        file: p.file,
        line: number_or_one(p.line),
        column: number_or_one(p.column),
        level: gcc_schema_level(p.level),
        message: gcc_code_of(p.message).0,
        code: gcc_code_of(p.message).1,
    }
}

/// What a line of the output says, control sequences aside.
pub open spec fn gcc_reading(line: Seq<char>) -> GccReadingView {
    let clean = without_csi(line);
    GccReadingView {
        entry: match gcc_header_of(clean) {
            Some(p) => Some(gcc_entry(p)),
            None => None,
        },
        tildes: match tilde_count(clean) {
            Some(n) => Some(n as usize),
            None => None,
        },
    }
}

/// Reads a line of the output.
pub fn read_gcc_line(line: &str) -> (r: GccReading)
    ensures
        r@ == gcc_reading(line@),
{
    let clean = strip_ansi(line);
    let entry = match gcc_header(clean.as_str()) {
        None => None,
        Some(h) => {
            let level = if same_text(h.level.as_str(), "fatal error") {
                "error".to_owned()
            } else {
                h.level
            };
            let (message, code) = gcc_code(h.message.as_str());
            Some(
                GccEntry {
                    file: h.file,
                    line: read_number(h.line.as_str()),
                    column: read_number(h.column.as_str()),
                    level,
                    message,
                    code,
                },
            )
        },
    };
    let tildes = count_tildes(clean.as_str());
    GccReading { entry, tildes }
}

/// What all lines of an output say.
pub open spec fn gcc_readings(lines: Seq<Seq<char>>) -> Seq<GccReadingView> {
    lines.map_values(|line: Seq<char>| gcc_reading(line))
}

/// The contents of a list of readings.
pub open spec fn reading_views(readings: Seq<GccReading>) -> Seq<GccReadingView> {
    readings.map_values(|r: GccReading| r@)
}

/// The tildes of the first annotation from `from` on and before `to`.
pub open spec fn first_tildes(readings: Seq<GccReadingView>, from: int, to: int) -> Option<usize>
    decreases to - from,
{
    if from >= to {
        None
    } else if readings[from].tildes is Some {
        readings[from].tildes
    } else {
        first_tildes(readings, from + 1, to)
    }
}

/// The annotation of the message at `i` stands in one of the next three lines.
pub open spec fn annotation(readings: Seq<GccReadingView>, i: int) -> Option<usize> {
    let to = if i + 4 < readings.len() {
        i + 4
    } else {
        readings.len() as int
    };
    first_tildes(readings, i + 1, to)
}

/// A message begins at `i`, and in a file of the program.
pub open spec fn own_entry(readings: Seq<GccReadingView>, i: int) -> bool {
    readings[i].entry matches Some(e) && !foreign_file(e.file)
}

/// The place of the message `e`, which ends after `tildes` more columns.
pub open spec fn gcc_span(e: GccEntryView, tildes: Option<usize>) -> Span {
    let start = start_at(e.line, e.column).start;
    Span {
        start,
        end: match tildes {
            Some(n) => Some(Position { line: start.line, column: (e.column + n) as usize }),
            None => None,
        },
    }
}

/// The diagnostic of the message at `i`.
pub open spec fn gcc_diagnostic(readings: Seq<GccReadingView>, i: int) -> DiagnosticView {
    let e = readings[i].entry->0;
    DiagnosticView {
        level: e.level,
        span: Some(gcc_span(e, annotation(readings, i))),
        message: e.message,
        code: e.code,
        details: seq![],
    }
}

/// No end of a message lies beyond the columns that can be counted.
pub open spec fn ends_fit(readings: Seq<GccReadingView>) -> bool {
    forall|i: int|
        0 <= i < readings.len() && #[trigger] own_entry(readings, i) ==> {
            annotation(readings, i) matches Some(n) ==> readings[i].entry->0.column + n
                <= usize::MAX
        }
}

/// Puts `d` at the end of a list: a note belongs to the diagnostic before it,
/// unless that is a note too.
pub open spec fn attach(list: Seq<DiagnosticView>, d: DiagnosticView) -> Seq<DiagnosticView> {
    if d.level == "note"@ && list.len() > 0 && list.last().level != "note"@ {
        list.drop_last().push(
            DiagnosticView { details: list.last().details.push(d), ..list.last() },
        )
    } else {
        list.push(d)
    }
}

/// The diagnostics of the messages that begin in the first `n` lines.
pub open spec fn assembled(readings: Seq<GccReadingView>, n: int) -> Seq<DiagnosticView>
    decreases n,
{
    if n <= 0 {
        seq![]
    } else if own_entry(readings, n - 1) {
        attach(assembled(readings, n - 1), gcc_diagnostic(readings, n - 1))
    } else {
        assembled(readings, n - 1)
    }
}

/// The diagnostics in an output of gcc.
pub open spec fn gcc_diagnostics(stderr: Seq<char>) -> Seq<DiagnosticView> {
    let readings = gcc_readings(lines_of(stderr));
    assembled(readings, readings.len() as int)
}

/// Finds the annotation of the message at `i`.
fn find_annotation(readings: &Vec<GccReading>, i: usize) -> (r: Option<usize>)
    requires
        i < readings@.len(),
    ensures
        r == annotation(reading_views(readings@), i as int),
{
    let ghost views = reading_views(readings@);
    let to: usize = if readings.len() - i > 4 {
        i + 4
    } else {
        readings.len()
    };
    let mut k: usize = i + 1;
    while k < to
        invariant
            views == reading_views(readings@),
            i + 1 <= k <= to <= readings@.len(),
            annotation(views, i as int) == first_tildes(views, k as int, to as int),
        decreases to - k,
    {
        assert(views[k as int] == readings@[k as int]@);
        if readings[k].tildes.is_some() {
            return readings[k].tildes;
        }
        k += 1;
    }
    None
}

/// Puts `d` at the end of a list, or into the last diagnostic's details.
fn attach_diagnostic(list: &mut Vec<Diagnostic>, d: Diagnostic)
    ensures
        models(final(list)@) == attach(models(old(list)@), d@),
{
    let ghost before = models(list@);
    if is_note(&d) {
        let last = list.pop();
        match last {
            None => {
                list.push(d);
                assert(models(list@) == before.push(d@));
            },
            Some(mut last) => {
                assert(before.last() == last@);
                assert(models(list@) == before.drop_last());
                if is_note(&last) {
                    list.push(last);
                    list.push(d);
                    assert(models(list@) == before.push(d@));
                } else {
                    let ghost whole = last@;
                    proof {
                        lemma_details(last);
                    }
                    last.details.push(d);
                    proof {
                        lemma_details(last);
                    }
                    assert(last@.details =~= whole.details.push(d@));
                    assert(last@ == DiagnosticView { details: whole.details.push(d@), ..whole });
                    list.push(last);
                    assert(models(list@) == before.drop_last().push(last@));
                }
            },
        }
    } else {
        list.push(d);
        assert(models(list@) == before.push(d@));
    }
}

/// Makes diagnostics of what the lines of an output say.
pub fn assemble_gcc(readings: &Vec<GccReading>) -> (r: Vec<Diagnostic>)
    requires
        ends_fit(reading_views(readings@)),
    ensures
        models(r@) == assembled(reading_views(readings@), readings@.len() as int),
{
    let ghost views = reading_views(readings@);
    let mut diagnostics: Vec<Diagnostic> = Vec::new();
    let mut i: usize = 0;
    assert(models(diagnostics@) == Seq::<DiagnosticView>::empty());
    while i < readings.len()
        invariant
            views == reading_views(readings@),
            ends_fit(views),
            i <= readings@.len(),
            models(diagnostics@) == assembled(views, i as int),
        decreases readings@.len() - i,
    {
        assert(views[i as int] == readings@[i as int]@);
        match &readings[i].entry {
            None => {},
            Some(e) => {
                if !is_foreign_file(e.file.as_str()) {
                    assert(own_entry(views, i as int));
                    let line = e.line.saturating_sub(1);
                    let end = match find_annotation(readings, i) {
                        Some(n) => Some(Position { line, column: e.column + n }),
                        None => None,
                    };
                    let d = Diagnostic {
                        level: e.level.clone(),
                        span: Some(
                            Span {
                                start: Position { line, column: e.column.saturating_sub(1) },
                                end,
                            },
                        ),
                        message: e.message.clone(),
                        code: copy_optional(&e.code),
                        details: Vec::new(),
                    };
                    proof {
                        lemma_details(d);
                    }
                    assert(d@.details =~= seq![]);
                    assert(d@.span == gcc_diagnostic(views, i as int).span);
                    assert(d@ == gcc_diagnostic(views, i as int));
                    attach_diagnostic(&mut diagnostics, d);
                }
            },
        }
        i += 1;
    }
    diagnostics
}

/// Whether every end of a message lies within the columns that can be counted.
pub fn gcc_ends_fit(readings: &Vec<GccReading>) -> (r: bool)
    ensures
        r == ends_fit(reading_views(readings@)),
{
    let ghost views = reading_views(readings@);
    let mut i: usize = 0;
    while i < readings.len()
        invariant
            views == reading_views(readings@),
            i <= readings@.len(),
            forall|k: int|
                0 <= k < i && #[trigger] own_entry(views, k) ==> {
                    annotation(views, k) matches Some(n) ==> views[k].entry->0.column + n
                        <= usize::MAX
                },
        decreases readings@.len() - i,
    {
        assert(views[i as int] == readings@[i as int]@);
        match &readings[i].entry {
            None => {},
            Some(e) => {
                if !is_foreign_file(e.file.as_str()) {
                    match find_annotation(readings, i) {
                        None => {},
                        Some(n) => {
                            if e.column > usize::MAX - n {
                                assert(own_entry(views, i as int));
                                return false;
                            }
                        },
                    }
                }
            },
        }
        i += 1;
    }
    true
}

/// Reads all lines of an output.
pub fn read_gcc_lines(stderr: &str) -> (r: Vec<GccReading>)
    ensures
        reading_views(r@) == gcc_readings(lines_of(stderr@)),
{
    let lines = split_lines(stderr);
    let ghost all = gcc_readings(lines_of(stderr@));
    let mut readings: Vec<GccReading> = Vec::new();
    let mut i: usize = 0;
    while i < lines.len()
        invariant
            texts(lines@) == lines_of(stderr@),
            all == gcc_readings(lines_of(stderr@)),
            i <= lines@.len(),
            reading_views(readings@) == all.take(i as int),
        decreases lines@.len() - i,
    {
        let ghost done = reading_views(readings@);
        let reading = read_gcc_line(lines[i].as_str());
        assert(texts(lines@)[i as int] == lines@[i as int]@);
        readings.push(reading);
        assert(reading_views(readings@) == done.push(reading@));
        i += 1;
        assert(all.take(i as int) == done.push(reading@));
    }
    assert(all.take(i as int) == all);
    readings
}

/// The diagnostics in an output of gcc. Each stands in the output as
///
/// ```text
/// FILE:LINE:COL: level: message [CODE]
///     LINE |     source line
///          |                  ^~~~~
/// ```
pub fn parse_gcc_diagnostics(stderr: &str) -> (r: Vec<Diagnostic>)
    requires
        ends_fit(gcc_readings(lines_of(stderr@))),
    ensures
        models(r@) == gcc_diagnostics(stderr@),
{
    let readings = read_gcc_lines(stderr);
    let r = assemble_gcc(&readings);
    assert(readings@.len() == reading_views(readings@).len());
    r
}

/// A message that ends with a code in brackets is parted from it, and from the
/// space between them. The message may hold brackets of its own if each is
/// closed.
pub proof fn law_gcc_code(message: Seq<char>, space: Seq<char>, code: Seq<char>)
    requires
        message.len() > 0 ==> !is_white_space(message.last()),
        forall|i: int|
            0 <= i < message.len() && #[trigger] message[i] == '[' ==> exists|j: int|
                i < j < message.len() && #[trigger] message[j] == ']',
        blank(space),
        code.len() > 0,
        lacks(code, ']'),
    ensures
        gcc_code_of(message + (space + (seq!['['] + (code + seq![']'])))) == (message, Some(code)),
{
    let text = message + (space + (seq!['['] + (code + seq![']'])));
    let p = CodedParts { message, space, code };
    assert(coded_splits(text, p));
    assert forall|q: CodedParts| #[trigger] coded_splits(text, q) implies p.message.len()
        <= q.message.len() by {
        if q.message.len() < message.len() {
            let at = q.message.len() + q.space.len();
            let tail = q.message + (q.space + (seq!['['] + (q.code + seq![']'])));
            assert(text[at as int] == tail[at as int]);
            assert(tail[at as int] == '[');
            assert(text.len() == at + 1 + q.code.len() + 1);
            assert(text.len() == message.len() + space.len() + 1 + code.len() + 1);
            if at < message.len() {
                assert(message[at as int] == '[');
                let j = choose|j: int| at < j < message.len() && #[trigger] message[j] == ']';
                assert(text[j] == tail[j]);
                let inner = q.code + seq![']'];
                assert(tail[j] == inner[j - at - 1]);
                assert(inner[j - at - 1] == q.code[j - at - 1]);
                assert(text[j] == message[j]);
            } else {
                let last = message.len() - 1;
                assert(text[last] == tail[last]);
                assert(tail[last] == q.space[last - q.message.len()]);
                assert(text[last] == message[last]);
                assert(is_white_space(q.space[last - q.message.len()]));
            }
        }
    }
    assert(coded_match(text, p));
    lemma_coded_unique(text, p, choose|q: CodedParts| coded_match(text, q));
}

/// A message that does not end with a bracket has no code and stays whole.
pub proof fn law_gcc_no_code(message: Seq<char>)
    requires
        message.len() > 0 ==> message.last() != ']',
    ensures
        gcc_code_of(message) == (message, None::<Seq<char>>),
{
    assert forall|p: CodedParts| !coded_match(message, p) by {
        if coded_match(message, p) {
            let tail = p.message + (p.space + (seq!['['] + (p.code + seq![']'])));
            assert(tail.last() == ']');
        }
    }
}

/// A text without the escape character has no control sequences to lose.
pub proof fn law_strip_plain(s: Seq<char>)
    requires
        lacks(s, '\x1b'),
    ensures
        without_csi(s) == s,
    decreases s.len(),
{
    if s.len() > 0 {
        assert(s[0] != '\x1b');
        assert forall|i: int| 0 <= i < s.skip(1).len() implies #[trigger] s.skip(1)[i] != '\x1b' by {
            assert(s[i + 1] != '\x1b');
        }
        law_strip_plain(s.skip(1));
        assert(s == seq![s[0]] + s.skip(1));
    } else {
        assert(s == Seq::<char>::empty());
    }
}

proof fn lemma_csi_numbers(numbers: Seq<char>, rest: Seq<char>)
    requires
        forall|i: int|
            0 <= i < numbers.len() ==> '0' <= #[trigger] numbers[i] <= '9' || numbers[i] == ';',
        rest.len() > 0,
        !('0' <= rest[0] <= '9' || rest[0] == ';'),
    ensures
        csi_numbers(numbers + rest) == numbers.len(),
    decreases numbers.len(),
{
    if numbers.len() > 0 {
        assert forall|i: int| 0 <= i < numbers.skip(1).len() implies '0' <= #[trigger] numbers.skip(
            1,
        )[i] <= '9' || numbers.skip(1)[i] == ';' by {
            assert('0' <= numbers[i + 1] <= '9' || numbers[i + 1] == ';');
        }
        lemma_csi_numbers(numbers.skip(1), rest);
        assert((numbers + rest).skip(1) == numbers.skip(1) + rest);
        assert((numbers + rest)[0] == numbers[0]);
    } else {
        assert(numbers + rest == rest);
    }
}

/// A control sequence after plain text is taken out, and nothing else with it.
pub proof fn law_strip_sequence(
    plain: Seq<char>,
    numbers: Seq<char>,
    letter: char,
    rest: Seq<char>,
)
    requires
        lacks(plain, '\x1b'),
        forall|i: int|
            0 <= i < numbers.len() ==> '0' <= #[trigger] numbers[i] <= '9' || numbers[i] == ';',
        'a' <= letter <= 'z' || 'A' <= letter <= 'Z',
    ensures
        without_csi(plain + (seq!['\x1b', '['] + (numbers + (seq![letter] + rest)))) == plain
            + without_csi(rest),
    decreases plain.len(),
{
    let sequence = seq!['\x1b', '['] + (numbers + (seq![letter] + rest));
    if plain.len() > 0 {
        assert(plain[0] != '\x1b');
        assert forall|i: int| 0 <= i < plain.skip(1).len() implies #[trigger] plain.skip(1)[i]
            != '\x1b' by {
            assert(plain[i + 1] != '\x1b');
        }
        law_strip_sequence(plain.skip(1), numbers, letter, rest);
        assert((plain + sequence).skip(1) == plain.skip(1) + sequence);
        assert((plain + sequence)[0] == plain[0]);
        assert(plain == seq![plain[0]] + plain.skip(1));
        assert(plain + without_csi(rest) == seq![plain[0]] + (plain.skip(1) + without_csi(rest)));
    } else {
        lemma_csi_numbers(numbers, seq![letter] + rest);
        assert(sequence.skip(2) == numbers + (seq![letter] + rest));
        assert(sequence[2 + numbers.len() as int] == letter);
        assert(sequence.skip(3 + numbers.len() as int) == rest);
        assert(plain + sequence == sequence);
        assert(plain + without_csi(rest) == without_csi(rest));
    }
}

/// A note without details, or another diagnostic whose details are such notes.
pub open spec fn notes_below(d: DiagnosticView) -> bool {
    &&& d.level == "note"@ ==> d.details.len() == 0
    &&& forall|j: int|
        0 <= j < d.details.len() ==> {
            &&& (#[trigger] d.details[j]).level == "note"@
            &&& d.details[j].details.len() == 0
        }
}

/// A list in which notes come first, if at all, and every other diagnostic may
/// have notes, and nothing else, as its details.
pub open spec fn notes_grouped(list: Seq<DiagnosticView>) -> bool {
    &&& forall|i: int, j: int|
        0 <= i < j < list.len() && (#[trigger] list[j]).level == "note"@ ==> (
        #[trigger] list[i]).level == "note"@
    &&& forall|i: int| 0 <= i < list.len() ==> notes_below(#[trigger] list[i])
}

/// In the diagnostics of gcc each note that follows another diagnostic is one
/// of its details.
pub proof fn law_gcc_notes_grouped(readings: Seq<GccReadingView>, n: int)
    ensures
        notes_grouped(assembled(readings, n)),
    decreases n,
{
    if n > 0 {
        law_gcc_notes_grouped(readings, n - 1);
        let list = assembled(readings, n - 1);
        if own_entry(readings, n - 1) {
            let d = gcc_diagnostic(readings, n - 1);
            let out = attach(list, d);
            let last = list.len() - 1;
            if d.level == "note"@ && list.len() > 0 && list.last().level != "note"@ {
                assert forall|i: int| 0 <= i < out.len() implies notes_below(
                    #[trigger] out[i],
                ) by {
                    assert(notes_below(list[i]));
                    if i == last {
                        assert(out[i].details == list[i].details.push(d));
                    }
                }
                assert forall|i: int, j: int|
                    0 <= i < j < out.len() && (#[trigger] out[j]).level == "note"@ implies (
                #[trigger] out[i]).level == "note"@ by {
                    assert(list[j].level == out[j].level);
                    assert(list[i].level == out[i].level);
                }
            } else {
                assert forall|i: int, j: int|
                    0 <= i < j < out.len() && (#[trigger] out[j]).level == "note"@ implies (
                #[trigger] out[i]).level == "note"@ by {
                    assert(out[i] == list[i]);
                    if j < list.len() {
                        assert(out[j] == list[j]);
                    } else {
                        assert(list[last].level == "note"@);
                    }
                }
                assert forall|i: int| 0 <= i < out.len() implies notes_below(
                    #[trigger] out[i],
                ) by {
                    if i <= last {
                        assert(notes_below(list[i]));
                    }
                }
            }
        }
    }
}

/// All diagnostics of a list: each without its details, and then its details.
pub open spec fn laid_out(list: Seq<DiagnosticView>) -> Seq<DiagnosticView>
    decreases list.len(),
{
    if list.len() == 0 {
        seq![]
    } else {
        laid_out(list.drop_last()).push(DiagnosticView { details: seq![], ..list.last() })
            + list.last().details
    }
}

/// The diagnostics of the messages of the program's own files that begin in the
/// first `n` lines, in their order.
pub open spec fn own_diagnostics(readings: Seq<GccReadingView>, n: int) -> Seq<DiagnosticView>
    decreases n,
{
    if n <= 0 {
        seq![]
    } else if own_entry(readings, n - 1) {
        own_diagnostics(readings, n - 1).push(gcc_diagnostic(readings, n - 1))
    } else {
        own_diagnostics(readings, n - 1)
    }
}

/// Every message of the program's own files is kept, once and in its place, and
/// no other: the diagnostics, each followed by its details, are those of these
/// messages in their order.
pub proof fn law_gcc_keeps_all(readings: Seq<GccReadingView>, n: int)
    ensures
        laid_out(assembled(readings, n)) == own_diagnostics(readings, n),
    decreases n,
{
    if n > 0 {
        law_gcc_keeps_all(readings, n - 1);
        let list = assembled(readings, n - 1);
        if own_entry(readings, n - 1) {
            let d = gcc_diagnostic(readings, n - 1);
            let out = attach(list, d);
            if out.len() == list.len() {
                let bare = DiagnosticView { details: seq![], ..list.last() };
                assert(out.drop_last() == list.drop_last());
                assert(out.last().details == list.last().details.push(d));
                assert(laid_out(out) == laid_out(list.drop_last()).push(bare)
                    + list.last().details.push(d));
                assert(laid_out(out) == laid_out(list).push(d));
            } else {
                assert(out.drop_last() == list);
                assert(laid_out(out) == laid_out(list).push(d) + d.details);
                assert(laid_out(out) == laid_out(list).push(d));
            }
        }
    }
}

/// The parts of a line that splits are those of its header.
proof fn lemma_gcc_header_splits(text: Seq<char>)
    requires
        gcc_header_of(text) is Some,
    ensures
        gcc_splits(text, gcc_header_of(text)->0),
{
}

/// A list whose levels, in details too, are levels of the schema.
pub open spec fn levels_known(list: Seq<DiagnosticView>) -> bool {
    forall|i: int|
        0 <= i < list.len() ==> {
            &&& known_level(#[trigger] list[i].level)
            &&& forall|j: int|
                0 <= j < list[i].details.len() ==> known_level(
                    (#[trigger] list[i].details[j]).level,
                )
        }
}

/// The levels of the diagnostics of gcc are levels of the schema.
pub proof fn law_gcc_levels(lines: Seq<Seq<char>>, n: int)
    requires
        n <= lines.len(),
    ensures
        levels_known(assembled(gcc_readings(lines), n)),
    decreases n,
{
    if n > 0 {
        law_gcc_levels(lines, n - 1);
        let readings = gcc_readings(lines);
        let list = assembled(readings, n - 1);
        if own_entry(readings, n - 1) {
            let d = gcc_diagnostic(readings, n - 1);
            assert(readings[n - 1] == gcc_reading(lines[n - 1]));
            lemma_gcc_header_splits(without_csi(lines[n - 1]));
            assert(known_level(d.level));
            let out = attach(list, d);
            assert forall|i: int| 0 <= i < out.len() implies {
                &&& known_level(#[trigger] out[i].level)
                &&& forall|j: int|
                    0 <= j < out[i].details.len() ==> known_level(
                        (#[trigger] out[i].details[j]).level,
                    )
            } by {
                if i < list.len() {
                    assert(list[i].level == out[i].level);
                }
            }
        }
    }
}

/// A line `   |   ^~~~` with `tildes` tildes has that many after its caret.
pub proof fn law_tilde_count(
    margin: Seq<char>,
    indent: Seq<char>,
    tildes: Seq<char>,
    rest: Seq<char>,
)
    requires
        blank(margin),
        lacks(indent, '^'),
        forall|i: int| 0 <= i < tildes.len() ==> #[trigger] tildes[i] == '~',
        rest.len() > 0 ==> rest[0] != '~',
    ensures
        tilde_count(margin + (seq!['|'] + (indent + (seq!['^'] + (tildes + rest))))) == Some(
            tildes.len(),
        ),
{
    let bar = seq!['|'] + (indent + (seq!['^'] + (tildes + rest)));
    lemma_trimmed_start(margin + bar, margin.len() as int);
    assert((margin + bar).skip(margin.len() as int) == bar);
    let after = indent + (seq!['^'] + (tildes + rest));
    assert(bar.skip(1) == after);
    lemma_before(after, '^', indent.len() as int);
    assert(after.skip(indent.len() as int + 1) == tildes + rest);
    lemma_leading(tildes, rest, '~');
}

/// A line that, control sequences aside, tells of a message in a file of the
/// program, and that is all of an output, makes one diagnostic.
pub proof fn law_gcc_line(text: Seq<char>, p: GccParts)
    requires
        lacks(text, '\n'),
        gcc_splits(without_csi(text), p),
        !foreign_file(p.file),
    ensures
        gcc_diagnostics(text) == seq![
            DiagnosticView {
                level: gcc_schema_level(p.level),
                span: Some(start_at(number_or_one(p.line), number_or_one(p.column))),
                message: gcc_code_of(p.message).0,
                code: gcc_code_of(p.message).1,
                details: seq![],
            },
        ],
{
    assert(gcc_text(p).len() > 0);
    law_lines_single(text);
    law_gcc_header(p);
    let readings = gcc_readings(lines_of(text));
    assert(readings[0] == gcc_reading(text));
    assert(readings.len() == 1);
    assert(own_entry(readings, 0));
    assert(annotation(readings, 0) is None);
    assert(assembled(readings, 0) == Seq::<DiagnosticView>::empty());
    assert(assembled(readings, 1) == attach(assembled(readings, 0), gcc_diagnostic(readings, 0)));
}

/// A message, the source line that it is about and the annotation of that line
/// make one diagnostic with an end: the column of the message and the number of
/// tildes added up.
pub proof fn law_gcc_annotated(header: Seq<char>, source: Seq<char>, caret: Seq<char>)
    requires
        gcc_reading(header).entry matches Some(e) && !foreign_file(e.file),
        gcc_reading(source).entry is None,
        gcc_reading(source).tildes is None,
        gcc_reading(caret).entry is None,
        gcc_reading(caret).tildes is Some,
        gcc_reading(header).entry->0.column + gcc_reading(caret).tildes->0 <= usize::MAX,
    ensures
        ({
            let e = gcc_reading(header).entry->0;
            let line = from_zero(e.line);
            assembled(gcc_readings(seq![header, source, caret]), 3) == seq![
                DiagnosticView {
                    level: e.level,
                    span: Some(
                        Span {
                            start: Position { line, column: from_zero(e.column) },
                            end: Some(
                                Position {
                                    line,
                                    column: (e.column + gcc_reading(caret).tildes->0) as usize,
                                },
                            ),
                        },
                    ),
                    message: e.message,
                    code: e.code,
                    details: seq![],
                },
            ]
        }),
{
    let readings = gcc_readings(seq![header, source, caret]);
    assert(readings[0] == gcc_reading(header));
    assert(readings[1] == gcc_reading(source));
    assert(readings[2] == gcc_reading(caret));
    assert(own_entry(readings, 0));
    assert(!own_entry(readings, 1));
    assert(!own_entry(readings, 2));
    reveal_with_fuel(first_tildes, 3);
    assert(annotation(readings, 0) == readings[2].tildes);
    reveal_with_fuel(assembled, 4);
    assert(assembled(readings, 3) == attach(seq![], gcc_diagnostic(readings, 0)));
}

/// A message that ends ends in the line in which it begins, and not before the
/// column in which it begins.
pub proof fn law_gcc_span_forward(readings: Seq<GccReadingView>, i: int)
    requires
        ends_fit(readings),
        0 <= i < readings.len(),
        own_entry(readings, i),
    ensures
        gcc_diagnostic(readings, i).span matches Some(span) && (span.end matches Some(end) ==> {
            &&& end.line == span.start.line
            &&& end.column >= span.start.column
        }),
{
}

/// Neither a line feed nor a carriage return is part of a control sequence.
pub open spec fn line_break(c: char) -> bool {
    c == '\n' || c == '\r'
}

/// The numbers of a control sequence end at a line break, if not before.
proof fn lemma_numbers_break(a: Seq<char>, c: char, b: Seq<char>)
    requires
        line_break(c),
    ensures
        csi_numbers(a + (seq![c] + b)) == csi_numbers(a),
        csi_numbers(a) <= a.len(),
    decreases a.len(),
{
    let whole = a + (seq![c] + b);
    if a.len() > 0 {
        lemma_numbers_break(a.skip(1), c, b);
        assert(whole.skip(1) == a.skip(1) + (seq![c] + b));
        assert(whole[0] == a[0]);
    } else {
        assert(whole[0] == c);
    }
}

/// A control sequence ends before a line break.
proof fn lemma_length_break(a: Seq<char>, c: char, b: Seq<char>)
    requires
        line_break(c),
        a.len() > 0,
    ensures
        csi_length(a + (seq![c] + b)) == csi_length(a),
        csi_length(a) <= a.len(),
{
    let whole = a + (seq![c] + b);
    assert(whole[0] == a[0]);
    assert(whole[a.len() as int] == c);
    if a.len() > 1 {
        assert(whole[1] == a[1]);
        assert(whole.skip(2) == a.skip(2) + (seq![c] + b));
        lemma_numbers_break(a.skip(2), c, b);
        assert forall|i: int| 0 <= i < a.len() implies whole[i] == #[trigger] a[i] by {}
    }
}

/// Stripping a text strips what comes before a line break and what comes after
/// it, and leaves the line break.
pub proof fn law_strip_break(a: Seq<char>, c: char, b: Seq<char>)
    requires
        line_break(c),
    ensures
        without_csi(a + (seq![c] + b)) == without_csi(a) + (seq![c] + without_csi(b)),
    decreases a.len(),
{
    let whole = a + (seq![c] + b);
    let tail = seq![c] + without_csi(b);
    if a.len() == 0 {
        assert(whole == seq![c] + b);
        assert(whole[0] == c);
        assert(whole.skip(1) == b);
        assert(without_csi(a) + tail == tail);
    } else {
        lemma_length_break(a, c, b);
        let n = csi_length(a) as int;
        if n > 0 {
            law_strip_break(a.skip(n), c, b);
            assert(whole.skip(n) == a.skip(n) + (seq![c] + b));
        } else {
            law_strip_break(a.skip(1), c, b);
            assert(whole.skip(1) == a.skip(1) + (seq![c] + b));
            assert(seq![a[0]] + (without_csi(a.skip(1)) + tail) == without_csi(a) + tail);
        }
    }
}

/// Stripping a text adds no character to it.
proof fn lemma_strip_lacks(s: Seq<char>, c: char)
    requires
        lacks(s, c),
    ensures
        lacks(without_csi(s), c),
    decreases s.len(),
{
    if s.len() > 0 {
        let n = if csi_length(s) > 0 {
            csi_length(s) as int
        } else {
            1
        };
        lemma_length_break(s, '\n', seq![]);
        assert forall|i: int| 0 <= i < s.skip(n).len() implies #[trigger] s.skip(n)[i] != c by {
            assert(s[i + n] != c);
        }
        lemma_strip_lacks(s.skip(n), c);
    }
}

/// No carriage return comes right before the escape character.
pub open spec fn returns_apart(s: Seq<char>) -> bool {
    forall|i: int|
        0 <= i < s.len() - 1 && #[trigger] s[i] == '\r' ==> s[i + 1] != '\x1b'
}

/// Then stripping a text brings no carriage return to its end.
proof fn lemma_strip_last(s: Seq<char>)
    requires
        returns_apart(s),
        s.len() > 0 ==> s.last() != '\r',
    ensures
        without_csi(s).len() > 0 ==> without_csi(s).last() != '\r',
    decreases s.len(),
{
    if s.len() > 0 {
        lemma_length_break(s, '\n', seq![]);
        let n = if csi_length(s) > 0 {
            csi_length(s) as int
        } else {
            1
        };
        let rest = s.skip(n);
        assert forall|i: int| 0 <= i < rest.len() - 1 && #[trigger] rest[i] == '\r' implies rest[i
            + 1] != '\x1b' by {
            assert(s[i + n] == '\r');
        }
        if rest.len() > 0 {
            assert(rest.last() == s.last());
        }
        lemma_strip_last(rest);
        if csi_length(s) == 0 && without_csi(rest).len() == 0 && rest.len() > 0 {
            assert(csi_length(rest) > 0);
            assert(s[1] == rest[0]);
        }
    }
}

/// Stripping a line, with or without the carriage return at its end, comes to
/// the same for a line that was stripped before.
proof fn lemma_strip_return(line: Seq<char>)
    requires
        returns_apart(line),
        without_csi(without_csi(line)) == without_csi(line),
    ensures
        without_csi(without_return(line)) == without_csi(without_return(without_csi(line))),
{
    let clean = without_csi(line);
    let none = Seq::<char>::empty();
    if line.len() > 0 && line.last() == '\r' {
        let short = line.drop_last();
        assert(line == short + (seq!['\r'] + none));
        law_strip_break(short, '\r', none);
        let clean_short = without_csi(short);
        assert(clean == clean_short + (seq!['\r'] + none));
        law_strip_break(clean_short, '\r', none);
        assert(clean.drop_last() == clean_short);
        let end = seq!['\r'] + none;
        assert((without_csi(clean_short) + end).len() == without_csi(clean_short).len() + 1);
        assert((clean_short + end).len() == clean_short.len() + 1);
        lemma_same_cut(without_csi(clean_short), end, clean_short, end);
    } else {
        lemma_strip_last(line);
    }
}

/// What a line says that holds neither a message nor an annotation.
pub open spec fn nothing_read() -> GccReadingView {
    GccReadingView { entry: None, tildes: None }
}

/// A line of nothing but control sequences says nothing.
proof fn lemma_empty_line(line: Seq<char>)
    requires
        without_csi(line).len() == 0,
    ensures
        gcc_reading(line) == nothing_read(),
{
    let clean = without_csi(line);
    assert forall|p: GccParts| !gcc_splits(clean, p) by {
        if gcc_splits(clean, p) {
            assert(gcc_text(p).len() >= p.file.len());
        }
    }
}

/// The lines of a stripped output say what the lines of the output say; a last
/// line that says nothing may be missing.
proof fn lemma_stripped_readings(s: Seq<char>)
    requires
        returns_apart(s),
        without_csi(without_csi(s)) == without_csi(s),
    ensures
        ({
            let all = gcc_readings(lines_of(s));
            let stripped = gcc_readings(lines_of(without_csi(s)));
            all == stripped || all == stripped.push(nothing_read())
        }),
    decreases s.len(),
{
    let t = without_csi(s);
    let all = gcc_readings(lines_of(s));
    let stripped = gcc_readings(lines_of(t));
    let n = before(s, '\n') as int;
    lemma_before_bounds(s, '\n');
    if s.len() == 0 {
        assert(t == s);
    } else if n == s.len() {
        lemma_strip_lacks(s, '\n');
        law_lines_single(s);
        assert(all =~= seq![gcc_reading(s)]);
        if t.len() == 0 {
            lemma_empty_line(s);
            assert(stripped =~= seq![]);
            assert(all =~= stripped.push(nothing_read()));
        } else {
            law_lines_single(t);
            assert(stripped =~= seq![gcc_reading(t)]);
        }
    } else {
        let line = s.take(n);
        let rest = s.skip(n + 1);
        assert(s == line + (seq!['\n'] + rest));
        law_strip_break(line, '\n', rest);
        let clean = without_csi(line);
        let clean_rest = without_csi(rest);
        law_strip_break(clean, '\n', clean_rest);
        lemma_strip_lacks(line, '\n');
        lemma_strip_lacks(clean, '\n');
        lemma_same_run(
            without_csi(clean),
            seq!['\n'] + without_csi(clean_rest),
            clean,
            seq!['\n'] + clean_rest,
            |c: char| c != '\n',
        );
        lemma_same_cut(seq!['\n'], without_csi(clean_rest), seq!['\n'], clean_rest);
        assert(returns_apart(line)) by {
            assert forall|i: int| 0 <= i < line.len() - 1 && #[trigger] line[i]
                == '\r' implies line[i + 1] != '\x1b' by {
                assert(s[i] == '\r');
            }
        }
        assert(returns_apart(rest)) by {
            assert forall|i: int| 0 <= i < rest.len() - 1 && #[trigger] rest[i]
                == '\r' implies rest[i + 1] != '\x1b' by {
                assert(s[n + 1 + i] == '\r');
            }
        }
        lemma_strip_return(line);
        lemma_stripped_readings(rest);
        law_lines_first(line, rest);
        law_lines_first(clean, clean_rest);
        let first = gcc_reading(without_return(line));
        assert(first == gcc_reading(without_return(clean)));
        let all_rest = gcc_readings(lines_of(rest));
        let stripped_rest = gcc_readings(lines_of(clean_rest));
        assert(all =~= seq![first] + all_rest);
        assert(stripped =~= seq![first] + stripped_rest);
        assert(seq![first] + stripped_rest.push(nothing_read()) =~= (seq![first]
            + stripped_rest).push(nothing_read()));
    }
}

/// A last line that says nothing holds no tildes.
proof fn lemma_padded_tildes(readings: Seq<GccReadingView>, from: int, to: int)
    requires
        0 <= from,
        to <= readings.len() + 1,
    ensures
        first_tildes(readings.push(nothing_read()), from, to) == first_tildes(
            readings,
            from,
            if to <= readings.len() {
                to
            } else {
                readings.len() as int
            },
        ),
    decreases to - from,
{
    if from < to {
        lemma_padded_tildes(readings, from + 1, to);
    }
}

/// A last line that says nothing changes no diagnostic.
proof fn lemma_padded(readings: Seq<GccReadingView>, n: int)
    requires
        0 <= n <= readings.len(),
    ensures
        assembled(readings.push(nothing_read()), n) == assembled(readings, n),
    decreases n,
{
    if n > 0 {
        lemma_padded(readings, n - 1);
        lemma_padded_annotation(readings, n - 1);
        assert(readings.push(nothing_read())[n - 1] == readings[n - 1]);
    }
}

/// A last line that says nothing annotates no message.
proof fn lemma_padded_annotation(readings: Seq<GccReadingView>, i: int)
    requires
        0 <= i < readings.len(),
    ensures
        annotation(readings.push(nothing_read()), i) == annotation(readings, i),
{
    let padded = readings.push(nothing_read());
    let to = if i + 4 < padded.len() {
        i + 4
    } else {
        padded.len() as int
    };
    lemma_padded_tildes(readings, i + 1, to);
}

/// The control sequences in an output of gcc change none of its diagnostics,
/// where taking them out leaves none behind and brings no carriage return to
/// the end of a line.
pub proof fn law_gcc_colours(stderr: Seq<char>)
    requires
        returns_apart(stderr),
        without_csi(without_csi(stderr)) == without_csi(stderr),
    ensures
        gcc_diagnostics(stderr) == gcc_diagnostics(without_csi(stderr)),
        ends_fit(gcc_readings(lines_of(stderr))) == ends_fit(
            gcc_readings(lines_of(without_csi(stderr))),
        ),
{
    lemma_stripped_readings(stderr);
    let all = gcc_readings(lines_of(stderr));
    let stripped = gcc_readings(lines_of(without_csi(stderr)));
    if all != stripped {
        let n = stripped.len() as int;
        lemma_padded(stripped, n);
        assert(!own_entry(all, n));
        assert forall|i: int| 0 <= i < n implies {
            &&& #[trigger] own_entry(all, i) == own_entry(stripped, i)
            &&& annotation(all, i) == annotation(stripped, i)
            &&& all[i] == stripped[i]
        } by {
            lemma_padded_annotation(stripped, i);
        }
        assert forall|i: int| 0 <= i < n implies own_entry(all, i) == #[trigger] own_entry(
            stripped,
            i,
        ) by {}
    }
}

/// The control sequences in an output of gcc change none of its diagnostics,
/// where it has no carriage returns, and no escape character outside of them.
pub proof fn law_gcc_plain_colours(stderr: Seq<char>)
    requires
        lacks(stderr, '\r'),
        lacks(without_csi(stderr), '\x1b'),
    ensures
        gcc_diagnostics(stderr) == gcc_diagnostics(without_csi(stderr)),
{
    law_strip_plain(without_csi(stderr));
    law_gcc_colours(stderr);
}

} // verus!
