//! The diagnostics in an output of gcc.

use vstd::prelude::*;

use crate::diagnostic::{models, Diagnostic, DiagnosticView};
use crate::gcc::{
    annotation, assembled, count_tildes, ends_fit, extract_tilde_count, first_tildes, gcc_code,
    gcc_code_of, gcc_diagnostic, gcc_diagnostics, gcc_ends_fit, gcc_entry, gcc_header,
    gcc_header_of, gcc_reading, gcc_readings, laid_out, law_gcc_keeps_all, law_gcc_notes_grouped,
    law_tilde_count, lemma_coded_unique, lemma_gcc_unique, notes_grouped, own_diagnostics,
    own_entry, parse_gcc_diagnostics, read_gcc_line, read_gcc_lines, reading_views, strip_ansi,
    tilde_count, GccEntry, GccHeader, GccReading, GccReadingView,
};
use crate::laws::diagnostic::{counted, from_outside, law_foreign, lemma_counted};
use crate::laws::order::{chosen, lemma_chosen_next};
use crate::pattern::{coded_match, csi_length, csi_numbers, gcc_splits, without_csi, CodedParts, GccParts};
use crate::text::{
    before, blank, is_white_space, lacks, law_lines_joined, leading, lemma_before_bounds, lines_of,
    number_or_one, optional_text, trimmed_start,
};

verus! {

/// `text` is an annotation: white space, a bar, no caret, a caret, tildes and no
/// more of them.
pub open spec fn annotation_parts(
    text: Seq<char>,
    margin: Seq<char>,
    indent: Seq<char>,
    tildes: Seq<char>,
    rest: Seq<char>,
) -> bool {
    &&& text == margin + (seq!['|'] + (indent + (seq!['^'] + (tildes + rest))))
    &&& blank(margin)
    &&& lacks(indent, '^')
    &&& forall|i: int| 0 <= i < tildes.len() ==> #[trigger] tildes[i] == '~'
    &&& rest.len() > 0 ==> rest[0] != '~'
}

/// `text` is an annotation with `n` tildes.
pub open spec fn annotates(text: Seq<char>, n: nat) -> bool {
    exists|margin: Seq<char>, indent: Seq<char>, tildes: Seq<char>, rest: Seq<char>| #[trigger]
        annotation_parts(text, margin, indent, tildes, rest) && tildes.len() == n
}

proof fn lemma_trim_parts(s: Seq<char>) -> (n: int)
    ensures
        0 <= n <= s.len(),
        blank(s.take(n)),
        trimmed_start(s) == s.skip(n),
    decreases s.len(),
{
    if s.len() > 0 && is_white_space(s[0]) {
        let n = lemma_trim_parts(s.skip(1));
        assert forall|i: int| 0 <= i < n + 1 implies is_white_space(#[trigger] s.take(n + 1)[i]) by {
            if i > 0 {
                assert(s.skip(1).take(n)[i - 1] == s[i]);
            }
        }
        assert(s.skip(1).skip(n) =~= s.skip(n + 1));
        n + 1
    } else {
        assert(s.skip(0) =~= s);
        0
    }
}

proof fn lemma_leading_parts(s: Seq<char>, c: char)
    ensures
        leading(s, c) <= s.len(),
        forall|i: int| 0 <= i < leading(s, c) ==> #[trigger] s[i] == c,
        leading(s, c) < s.len() ==> s[leading(s, c) as int] != c,
    decreases s.len(),
{
    if s.len() > 0 && s[0] == c {
        lemma_leading_parts(s.skip(1), c);
        assert forall|i: int| 0 <= i < leading(s, c) implies #[trigger] s[i] == c by {
            if i > 0 {
                assert(s.skip(1)[i - 1] == s[i]);
            }
        }
    }
}

/// The tildes of an annotation are counted, and a line that is none has none to
/// count.
pub proof fn law_tildes(text: Seq<char>)
    ensures
        forall|n: nat| #[trigger] annotates(text, n) ==> tilde_count(text) == Some(n),
        tilde_count(text) matches Some(n) ==> annotates(text, n),
{
    assert forall|n: nat| #[trigger] annotates(text, n) implies tilde_count(text) == Some(n) by {
        let (margin, indent, tildes, rest) = choose|
            margin: Seq<char>,
            indent: Seq<char>,
            tildes: Seq<char>,
            rest: Seq<char>,
        | #[trigger]
            annotation_parts(text, margin, indent, tildes, rest) && tildes.len() == n;
        law_tilde_count(margin, indent, tildes, rest);
    }
    if tilde_count(text) is Some {
        let k = lemma_trim_parts(text);
        let t = text.skip(k);
        let after = t.skip(1);
        lemma_before_bounds(after, '^');
        let n = before(after, '^') as int;
        let tail = after.skip(n + 1);
        lemma_leading_parts(tail, '~');
        let m = leading(tail, '~') as int;
        assert(tail =~= tail.take(m) + tail.skip(m));
        assert(after =~= after.take(n) + (seq!['^'] + tail));
        assert(t =~= seq!['|'] + after);
        assert(text =~= text.take(k) + t);
        assert(annotation_parts(text, text.take(k), after.take(n), tail.take(m), tail.skip(m)));
    }
}

/// Counting the tildes of a line finds those of an annotation, and nothing in
/// another line.
pub proof fn law_tildes_counted(line: &str, r: Option<usize>)
    requires
        call_ensures(count_tildes, (line,), r),
    ensures
        r matches Some(n) ==> annotates(line@, n as nat),
        r is None ==> forall|n: nat| !annotates(line@, n),
{
    law_tildes(line@);
}

/// The same, control sequences aside.
pub proof fn law_tildes_extracted(line: &str, r: Option<usize>)
    requires
        call_ensures(extract_tilde_count, (line,), r),
    ensures
        r matches Some(n) ==> annotates(without_csi(line@), n as nat),
        r is None ==> forall|n: nat| !annotates(without_csi(line@), n),
{
    law_tildes(without_csi(line@));
}

/// An annotation has one number of tildes.
pub proof fn law_annotates_once(text: Seq<char>, m: nat, n: nat)
    requires
        annotates(text, m),
        annotates(text, n),
    ensures
        m == n,
{
    law_tildes(text);
}

/// Stripping takes out control sequences.
pub proof fn law_stripped(s: &str, r: String)
    requires
        call_ensures(strip_ansi, (s,), r),
    ensures
        r@ == without_csi(s@),
{
}

/// The first line of a message is read as its parts are written, and another line
/// is not read.
pub proof fn law_header_read(line: &str, r: Option<GccHeader>, p: GccParts)
    requires
        call_ensures(gcc_header, (line,), r),
    ensures
        gcc_splits(line@, p) ==> (r matches Some(h) && {
            &&& h.file@ == p.file
            &&& h.line@ == p.line
            &&& h.column@ == p.column
            &&& h.level@ == p.level
            &&& h.message@ == p.message
        }),
        (forall|q: GccParts| !gcc_splits(line@, q)) ==> r is None,
{
    if gcc_splits(line@, p) {
        lemma_gcc_unique(line@, p, gcc_header_of(line@)->0);
    }
}

/// `code` is what stands in brackets at the end of `text`, and `message` what
/// comes before them and the space in front of them; without such a code it is
/// all of `text`.
pub open spec fn gcc_message_tells(
    text: Seq<char>,
    code: Option<Seq<char>>,
    message: Seq<char>,
) -> bool {
    &&& forall|q: CodedParts| #[trigger]
        coded_match(text, q) ==> code == Some(q.code) && message == q.message
    &&& (forall|q: CodedParts| !coded_match(text, q)) ==> code is None && message == text
}

proof fn lemma_gcc_message(text: Seq<char>)
    ensures
        gcc_message_tells(text, gcc_code_of(text).1, gcc_code_of(text).0),
{
    assert forall|q: CodedParts| #[trigger] coded_match(text, q) implies gcc_code_of(text) == (
        q.message,
        Some(q.code),
    ) by {
        lemma_coded_unique(text, q, choose|p: CodedParts| coded_match(text, p));
    }
}

/// A code in brackets is parted from a message, and nothing else.
pub proof fn law_gcc_code_parted(message: &str, r: (String, Option<String>))
    requires
        call_ensures(gcc_code, (message,), r),
    ensures
        gcc_message_tells(message@, optional_text(r.1), r.0@),
{
    lemma_gcc_message(message@);
}

/// `to` is the level of the schema for the level `from` of gcc.
pub open spec fn gcc_level_tells(from: Seq<char>, to: Seq<char>) -> bool {
    &&& from == "error"@ || from == "fatal error"@ ==> to == "error"@
    &&& from == "warning"@ ==> to == "warning"@
    &&& from == "note"@ ==> to == "note"@
}

proof fn lemma_gcc_words()
    ensures
        "error"@ != "fatal error"@,
        "warning"@ != "fatal error"@,
        "note"@ != "fatal error"@,
{
    reveal_strlit("error");
    reveal_strlit("fatal error");
    reveal_strlit("warning");
    reveal_strlit("note");
    assert("fatal error"@[0] == 'f' && "error"@[0] == 'e' && "warning"@[0] == 'w' && "note"@[0]
        == 'n');
}

/// No line from `from` on and before `to` is an annotation.
pub open spec fn bare(lines: Seq<Seq<char>>, from: int, to: int) -> bool {
    forall|j: int, n: nat|
        from <= j < to && j < lines.len() ==> !(#[trigger] annotates(without_csi(lines[j]), n))
}

/// The diagnostic `d` says what the message that begins in line `i`, with the
/// parts `p`, says. It ends after the tildes of the first annotation in the three
/// lines after its own, and has no end where there is none.
pub open spec fn gcc_tells(lines: Seq<Seq<char>>, i: int, p: GccParts, d: DiagnosticView) -> bool {
    &&& gcc_level_tells(p.level, d.level)
    &&& gcc_message_tells(p.message, d.code, d.message)
    &&& d.details.len() == 0
    &&& d.span matches Some(span) && {
        &&& counted(p.line, span.start.line)
        &&& counted(p.column, span.start.column)
        &&& bare(lines, i + 1, i + 4) ==> span.end is None
        &&& forall|j: int, n: nat|
            i < j < i + 4 && j < lines.len() && bare(lines, i + 1, j) && #[trigger] annotates(
                without_csi(lines[j]),
                n,
            ) ==> {
                &&& span.end matches Some(end) && {
                    &&& end.line == span.start.line
                    &&& number_or_one(p.column) + n <= usize::MAX ==> end.column == number_or_one(
                        p.column,
                    ) + n
                }
            }
    }
}

/// `line` is the first of a message about a file of the program.
pub open spec fn gcc_own(line: Seq<char>) -> bool {
    exists|p: GccParts| #[trigger] gcc_splits(without_csi(line), p) && !from_outside(p.file)
}

/// The lines in which messages about files of the program begin.
pub open spec fn gcc_own_lines(lines: Seq<Seq<char>>) -> spec_fn(int) -> bool {
    |i: int| gcc_own(lines[i])
}

/// What is read from a line is read from its parts.
proof fn lemma_reading(line: Seq<char>, p: GccParts)
    requires
        gcc_splits(without_csi(line), p),
    ensures
        gcc_reading(line).entry == Some(gcc_entry(p)),
{
    lemma_gcc_unique(without_csi(line), p, gcc_header_of(without_csi(line))->0);
}

proof fn lemma_own(lines: Seq<Seq<char>>, i: int)
    requires
        0 <= i < lines.len(),
    ensures
        own_entry(gcc_readings(lines), i) <==> gcc_own(lines[i]),
{
    let readings = gcc_readings(lines);
    let clean = without_csi(lines[i]);
    assert(readings[i] == gcc_reading(lines[i]));
    if own_entry(readings, i) {
        let p = gcc_header_of(clean)->0;
        assert(gcc_splits(clean, p));
        law_foreign(p.file);
    }
    if gcc_own(lines[i]) {
        let p = choose|p: GccParts| #[trigger] gcc_splits(clean, p) && !from_outside(p.file);
        lemma_reading(lines[i], p);
        law_foreign(p.file);
    }
}

/// The first annotation of a stretch of lines.
proof fn lemma_first_tildes(lines: Seq<Seq<char>>, from: int, to: int)
    requires
        0 <= from,
        to <= lines.len(),
    ensures
        bare(lines, from, to) ==> first_tildes(gcc_readings(lines), from, to) is None,
        forall|j: int, n: nat|
            from <= j < to && bare(lines, from, j) && #[trigger] annotates(
                without_csi(lines[j]),
                n,
            ) ==> first_tildes(gcc_readings(lines), from, to) == Some(n as usize),
    decreases to - from,
{
    let readings = gcc_readings(lines);
    if from < to {
        let clean = without_csi(lines[from]);
        assert(readings[from] == gcc_reading(lines[from]));
        law_tildes(clean);
        lemma_first_tildes(lines, from + 1, to);
        if bare(lines, from, to) {
            if readings[from].tildes is Some {
                assert(annotates(clean, tilde_count(clean)->0));
            }
            assert(bare(lines, from + 1, to));
        }
        assert forall|j: int, n: nat|
            from <= j < to && bare(lines, from, j) && #[trigger] annotates(
                without_csi(lines[j]),
                n,
            ) implies first_tildes(readings, from, to) == Some(n as usize) by {
            if j == from {
                assert(tilde_count(clean) == Some(n));
            } else {
                if readings[from].tildes is Some {
                    assert(annotates(clean, tilde_count(clean)->0));
                }
                assert(bare(lines, from + 1, j));
            }
        }
    }
}

proof fn lemma_tells(lines: Seq<Seq<char>>, i: int, p: GccParts)
    requires
        0 <= i < lines.len(),
        gcc_splits(without_csi(lines[i]), p),
    ensures
        gcc_tells(lines, i, p, gcc_diagnostic(gcc_readings(lines), i)),
{
    let readings = gcc_readings(lines);
    assert(readings[i] == gcc_reading(lines[i]));
    lemma_reading(lines[i], p);
    lemma_gcc_message(p.message);
    lemma_gcc_words();
    lemma_counted(p.line);
    lemma_counted(p.column);
    let to = if i + 4 < lines.len() {
        i + 4
    } else {
        lines.len() as int
    };
    lemma_first_tildes(lines, i + 1, to);
    let d = gcc_diagnostic(readings, i);
    assert(annotation(readings, i) == first_tildes(readings, i + 1, to));
    if bare(lines, i + 1, i + 4) {
        assert(bare(lines, i + 1, to));
    }
}

/// The list of the own diagnostics in the first lines.
proof fn lemma_own_chosen(lines: Seq<Seq<char>>, n: int) -> (at: Seq<int>)
    requires
        0 <= n <= lines.len(),
    ensures
        chosen(n, gcc_own_lines(lines), at),
        own_diagnostics(gcc_readings(lines), n).len() == at.len(),
        forall|k: int|
            0 <= k < at.len() ==> #[trigger] own_diagnostics(gcc_readings(lines), n)[k]
                == gcc_diagnostic(gcc_readings(lines), at[k]),
    decreases n,
{
    if n == 0 {
        Seq::empty()
    } else {
        let at = lemma_own_chosen(lines, n - 1);
        lemma_own(lines, n - 1);
        lemma_chosen_next(n - 1, gcc_own_lines(lines), at);
        let list = own_diagnostics(gcc_readings(lines), n);
        let earlier = own_diagnostics(gcc_readings(lines), n - 1);
        let out = if gcc_own(lines[n - 1]) {
            at.push(n - 1)
        } else {
            at
        };
        assert forall|k: int| 0 <= k < out.len() implies #[trigger] list[k] == gcc_diagnostic(
            gcc_readings(lines),
            out[k],
        ) by {
            if k < at.len() {
                assert(list[k] == earlier[k]);
            }
        }
        out
    }
}

/// The diagnostics of an output, each followed by its details, are those of the
/// messages about files of the program: one for each, in their order, and no
/// others. What each says depends on the line in which its message begins and on
/// the three lines after it alone. A note that follows a diagnostic of another
/// level is one of its details.
pub proof fn law_gcc_output(stderr: &str, r: Vec<Diagnostic>)
    requires
        call_ensures(parse_gcc_diagnostics, (stderr,), r),
    ensures
        exists|at: Seq<int>| #[trigger]
            chosen(lines_of(stderr@).len() as int, gcc_own_lines(lines_of(stderr@)), at) && laid_out(
                models(r@),
            ).len() == at.len() && forall|k: int, p: GccParts|
                0 <= k < at.len() && #[trigger] gcc_splits(without_csi(lines_of(stderr@)[at[k]]), p)
                    ==> gcc_tells(
                    lines_of(stderr@),
                    at[k],
                    p,
                    #[trigger] laid_out(models(r@))[k],
                ),
        notes_grouped(models(r@)),
{
    let lines = lines_of(stderr@);
    let readings = gcc_readings(lines);
    let n = lines.len() as int;
    law_gcc_keeps_all(readings, n);
    law_gcc_notes_grouped(readings, n);
    assert(models(r@) == assembled(readings, n));
    let at = lemma_own_chosen(lines, n);
    assert forall|k: int, p: GccParts|
        0 <= k < at.len() && #[trigger] gcc_splits(without_csi(lines[at[k]]), p) implies gcc_tells(
        lines,
        at[k],
        p,
        #[trigger] laid_out(models(r@))[k],
    ) by {
        assert(own_diagnostics(readings, n)[k] == gcc_diagnostic(readings, at[k]));
        lemma_tells(lines, at[k], p);
    }
}

/// What a list of diagnostics comes to, details and all, told of its fields: each
/// diagnostic is followed by its details.
pub proof fn law_laid_out(list: Seq<DiagnosticView>, d: DiagnosticView)
    ensures
        laid_out(Seq::<DiagnosticView>::empty()).len() == 0,
        laid_out(list.push(d)) == laid_out(list) + (seq![
            DiagnosticView {
                level: d.level,
                span: d.span,
                message: d.message,
                code: d.code,
                details: seq![],
            },
        ] + d.details),
{
    assert(list.push(d).drop_last() =~= list);
    assert(laid_out(list.push(d)) =~= laid_out(list) + (seq![
        DiagnosticView {
            level: d.level,
            span: d.span,
            message: d.message,
            code: d.code,
            details: seq![],
        },
    ] + d.details));
}

proof fn lemma_tildes_after(
    a: Seq<GccReadingView>,
    b: Seq<GccReadingView>,
    from: int,
    to: int,
)
    requires
        0 <= from,
        to <= b.len(),
    ensures
        first_tildes(a + b, a.len() + from, a.len() + to) == first_tildes(b, from, to),
    decreases to - from,
{
    if from < to {
        lemma_tildes_after(a, b, from + 1, to);
        assert((a + b)[a.len() + from] == b[from]);
    }
}

proof fn lemma_assembled_after(a: Seq<GccReadingView>, b: Seq<GccReadingView>, n: int)
    requires
        0 <= n <= b.len(),
        assembled(a + b, a.len() as int) == Seq::<DiagnosticView>::empty(),
    ensures
        assembled(a + b, a.len() + n) == assembled(b, n),
    decreases n,
{
    if n > 0 {
        lemma_assembled_after(a, b, n - 1);
        let i = n - 1;
        assert((a + b)[a.len() + i] == b[i]);
        let to = if i + 4 < b.len() {
            i + 4
        } else {
            b.len() as int
        };
        lemma_tildes_after(a, b, i + 1, to);
        assert(annotation(a + b, a.len() + i) == annotation(b, i));
    }
}

proof fn lemma_assembled_none(lines: Seq<Seq<char>>, all: Seq<GccReadingView>, n: int)
    requires
        0 <= n <= lines.len(),
        n <= all.len(),
        forall|i: int| 0 <= i < lines.len() ==> !gcc_own(#[trigger] lines[i]),
        forall|i: int| 0 <= i < n ==> #[trigger] all[i] == gcc_readings(lines)[i],
    ensures
        assembled(all, n) == Seq::<DiagnosticView>::empty(),
    decreases n,
{
    if n > 0 {
        lemma_assembled_none(lines, all, n - 1);
        lemma_own(lines, n - 1);
        assert(!gcc_own(lines[n - 1]));
        assert(all[n - 1] == gcc_readings(lines)[n - 1]);
    }
}

/// Lines in front of an output that hold no message about a file of the program
/// change none of its diagnostics.
pub proof fn law_gcc_in_front(front: Seq<char>, stderr: Seq<char>)
    requires
        front.len() > 0 ==> front.last() == '\n',
        forall|i: int| 0 <= i < lines_of(front).len() ==> !gcc_own(#[trigger] lines_of(front)[i]),
    ensures
        gcc_diagnostics(front + stderr) == gcc_diagnostics(stderr),
{
    law_lines_joined(front, stderr);
    let a = gcc_readings(lines_of(front));
    let b = gcc_readings(lines_of(stderr));
    assert(gcc_readings(lines_of(front + stderr)) =~= a + b);
    lemma_assembled_none(lines_of(front), a + b, a.len() as int);
    lemma_assembled_after(a, b, b.len() as int);
}

/// What is read from the first line of a message, and from a line as an
/// annotation.
pub proof fn law_gcc_line_read(line: &str, r: GccReading, p: GccParts)
    requires
        call_ensures(read_gcc_line, (line,), r),
    ensures
        gcc_splits(without_csi(line@), p) ==> (r.entry matches Some(e) && {
            &&& e.file@ == p.file
            &&& e.line == number_or_one(p.line)
            &&& e.column == number_or_one(p.column)
            &&& gcc_level_tells(p.level, e.level@)
            &&& gcc_message_tells(p.message, optional_text(e.code), e.message@)
        }),
        (forall|q: GccParts| !gcc_splits(without_csi(line@), q)) ==> r.entry is None,
        r.tildes is Some <==> exists|n: nat| annotates(without_csi(line@), n),
        forall|n: nat| #[trigger] annotates(without_csi(line@), n) && n <= usize::MAX ==> r.tildes
            == Some(n as usize),
{
    let clean = without_csi(line@);
    law_tildes(clean);
    if tilde_count(clean) is Some {
        assert(annotates(clean, tilde_count(clean)->0));
    }
    assert(r@.tildes == r.tildes);
    if gcc_splits(clean, p) {
        lemma_reading(line@, p);
        lemma_gcc_message(p.message);
        lemma_gcc_words();
        assert(r@.entry == Some(r.entry->0@));
    }
}

/// All lines are read, each for itself.
pub proof fn law_gcc_lines_read(
    stderr: &str,
    r: Vec<GccReading>,
    line: &str,
    one: GccReading,
    i: int,
)
    requires
        call_ensures(read_gcc_lines, (stderr,), r),
        call_ensures(read_gcc_line, (line,), one),
        0 <= i < lines_of(stderr@).len(),
        line@ == lines_of(stderr@)[i],
    ensures
        r@.len() == lines_of(stderr@).len(),
        r@[i]@ == one@,
{
    assert(reading_views(r@).len() == r@.len());
    assert(gcc_readings(lines_of(stderr@)).len() == lines_of(stderr@).len());
    assert(reading_views(r@)[i] == r@[i]@);
    assert(gcc_readings(lines_of(stderr@))[i] == gcc_reading(line@));
}

/// What a reading says is what its fields hold.
pub proof fn law_gcc_reading_view(r: GccReading, e: GccEntry)
    ensures
        r@.tildes == r.tildes,
        r.entry is Some <==> r@.entry is Some,
        r.entry == Some(e) ==> (r@.entry matches Some(v) && {
            &&& v.file == e.file@
            &&& v.line == e.line
            &&& v.column == e.column
            &&& v.level == e.level@
            &&& v.message == e.message@
            &&& v.code == optional_text(e.code)
        }),
{
}

/// The first tildes in the three lines after line `i` are `n`.
pub open spec fn next_tildes(readings: Seq<GccReading>, i: int, n: usize) -> bool {
    exists|j: int|
        i < j < i + 4 && j < readings.len() && (#[trigger] readings[j]).tildes == Some(n)
            && forall|l: int| i < l < j ==> (#[trigger] readings[l]).tildes is None
}

proof fn lemma_next_tildes(readings: Seq<GccReading>, from: int, to: int, n: usize)
    requires
        0 <= from,
        to <= readings.len(),
    ensures
        first_tildes(reading_views(readings), from, to) == Some(n) <==> exists|j: int|
            from <= j < to && (#[trigger] readings[j]).tildes == Some(n) && forall|l: int|
                from <= l < j ==> (#[trigger] readings[l]).tildes is None,
    decreases to - from,
{
    let views = reading_views(readings);
    if from < to {
        lemma_next_tildes(readings, from + 1, to, n);
        assert(views[from] == readings[from]@);
        assert(views[from].tildes == readings[from].tildes);
        if first_tildes(views, from, to) == Some(n) {
            if readings[from].tildes is Some {
                assert(readings[from].tildes == Some(n));
            } else {
                let j = choose|j: int|
                    from + 1 <= j < to && (#[trigger] readings[j]).tildes == Some(n) && forall|
                        l: int,
                    |
                        from + 1 <= l < j ==> (#[trigger] readings[l]).tildes is None;
                assert(readings[j].tildes == Some(n));
            }
        }
        if exists|j: int|
            from <= j < to && (#[trigger] readings[j]).tildes == Some(n) && forall|l: int|
                from <= l < j ==> (#[trigger] readings[l]).tildes is None {
            let j = choose|j: int|
                from <= j < to && (#[trigger] readings[j]).tildes == Some(n) && forall|l: int|
                    from <= l < j ==> (#[trigger] readings[l]).tildes is None;
            if j > from {
                assert(readings[from].tildes is None);
                assert(readings[j].tildes == Some(n));
            }
        }
    }
}

/// The ends of messages fit where the columns and the tildes of the messages about
/// files of the program add up to a number that can be counted.
pub proof fn law_gcc_ends_fit(readings: &Vec<GccReading>, r: bool)
    requires
        call_ensures(gcc_ends_fit, (readings,), r),
    ensures
        r <==> forall|i: int, n: usize|
            0 <= i < readings@.len() && #[trigger] next_tildes(readings@, i, n) ==> {
                readings@[i].entry matches Some(e) ==> from_outside(e.file@) || e.column + n
                    <= usize::MAX
            },
{
    let views = reading_views(readings@);
    assert forall|i: int, n: usize| 0 <= i < readings@.len() implies (annotation(views, i) == Some(
        n,
    ) <==> #[trigger] next_tildes(readings@, i, n)) by {
        let to = if i + 4 < views.len() {
            i + 4
        } else {
            views.len() as int
        };
        lemma_next_tildes(readings@, i + 1, to, n);
    }
    assert forall|i: int| 0 <= i < readings@.len() implies (#[trigger] own_entry(views, i) <==> (
    readings@[i].entry matches Some(e) && !from_outside(e.file@))) by {
        assert(views[i] == readings@[i]@);
        if readings@[i].entry is Some {
            law_foreign(readings@[i].entry->0.file@);
        }
    }
    if ends_fit(views) {
        assert forall|i: int, n: usize|
            0 <= i < readings@.len() && #[trigger] next_tildes(readings@, i, n) implies {
            readings@[i].entry matches Some(e) ==> from_outside(e.file@) || e.column + n
                <= usize::MAX
        } by {
            assert(views[i] == readings@[i]@);
            assert(annotation(views, i) == Some(n));
            if readings@[i].entry is Some && !from_outside(readings@[i].entry->0.file@) {
                assert(own_entry(views, i));
            }
        }
    } else {
        let i = choose|i: int|
            0 <= i < views.len() && #[trigger] own_entry(views, i) && !(annotation(views, i) matches Some(
                n,
            ) ==> views[i].entry->0.column + n <= usize::MAX);
        assert(views[i] == readings@[i]@);
        let n = annotation(views, i)->0;
        assert(next_tildes(readings@, i, n));
    }
}

/// An output is accepted where the columns and the tildes of its messages about
/// files of the program add up to a number that can be counted.
pub proof fn law_gcc_accepts(stderr: &str)
    requires
        forall|i: int, j: int, p: GccParts, n: nat|
            0 <= i < j < i + 4 && j < lines_of(stderr@).len() && #[trigger] gcc_splits(
                without_csi(lines_of(stderr@)[i]),
                p,
            ) && #[trigger] annotates(without_csi(lines_of(stderr@)[j]), n) && bare(
                lines_of(stderr@),
                i + 1,
                j,
            ) && !from_outside(p.file) ==> number_or_one(p.column) + n <= usize::MAX,
    ensures
        call_requires(parse_gcc_diagnostics, (stderr,)),
{
    let lines = lines_of(stderr@);
    let readings = gcc_readings(lines);
    assert forall|i: int| 0 <= i < readings.len() && #[trigger] own_entry(readings, i) implies (
    annotation(readings, i) matches Some(n) ==> readings[i].entry->0.column + n <= usize::MAX) by {
        if annotation(readings, i) is Some {
            let p = gcc_header_of(without_csi(lines[i]))->0;
            assert(readings[i] == gcc_reading(lines[i]));
            assert(gcc_splits(without_csi(lines[i]), p));
            law_foreign(p.file);
            let to = if i + 4 < lines.len() {
                i + 4
            } else {
                lines.len() as int
            };
            let j = lemma_found_tildes(lines, i + 1, to);
            let n = tilde_count(without_csi(lines[j]))->0;
            assert(annotates(without_csi(lines[j]), n));
            assert(number_or_one(p.column) + n <= usize::MAX);
        }
    }
}

/// Where tildes are found, a line is the first annotation.
proof fn lemma_found_tildes(lines: Seq<Seq<char>>, from: int, to: int) -> (j: int)
    requires
        0 <= from,
        to <= lines.len(),
        first_tildes(gcc_readings(lines), from, to) is Some,
    ensures
        from <= j < to,
        bare(lines, from, j),
        tilde_count(without_csi(lines[j])) matches Some(n) && annotates(
            without_csi(lines[j]),
            n,
        ) && first_tildes(gcc_readings(lines), from, to) == Some(n as usize),
    decreases to - from,
{
    let readings = gcc_readings(lines);
    let clean = without_csi(lines[from]);
    assert(readings[from] == gcc_reading(lines[from]));
    law_tildes(clean);
    if readings[from].tildes is Some {
        from
    } else {
        let j = lemma_found_tildes(lines, from + 1, to);
        assert forall|l: int, n: nat|
            from <= l < j && l < lines.len() implies !(#[trigger] annotates(
            without_csi(lines[l]),
            n,
        )) by {
            if l > from {
                assert(bare(lines, from + 1, j));
            }
        }
        j
    }
}

/// Text without the escape character stays as it is in front of any other.
pub proof fn law_strip_front(plain: Seq<char>, rest: Seq<char>)
    requires
        lacks(plain, '\x1b'),
    ensures
        without_csi(plain + rest) == plain + without_csi(rest),
    decreases plain.len(),
{
    if plain.len() == 0 {
        assert(plain + rest =~= rest);
        assert(plain + without_csi(rest) =~= without_csi(rest));
    } else {
        let all = plain + rest;
        assert(plain[0] != '\x1b');
        assert forall|i: int| 0 <= i < plain.skip(1).len() implies #[trigger] plain.skip(1)[i]
            != '\x1b' by {
            assert(plain[i + 1] != '\x1b');
        }
        law_strip_front(plain.skip(1), rest);
        assert(all[0] == plain[0]);
        assert(all.skip(1) =~= plain.skip(1) + rest);
        assert(seq![plain[0]] + (plain.skip(1) + without_csi(rest)) =~= plain + without_csi(rest));
    }
}

/// An escape character that begins no control sequence stays: one without a bracket
/// after it, or whose numbers are followed by no letter.
pub proof fn law_strip_kept(rest: Seq<char>, numbers: Seq<char>, after: Seq<char>)
    requires
        forall|i: int|
            0 <= i < numbers.len() ==> '0' <= #[trigger] numbers[i] <= '9' || numbers[i] == ';',
        after.len() > 0 ==> !('0' <= after[0] <= '9' || after[0] == ';' || 'a' <= after[0] <= 'z'
            || 'A' <= after[0] <= 'Z'),
        rest.len() == 0 || rest[0] != '[' || rest == seq!['['] + (numbers + after),
    ensures
        without_csi(seq!['\x1b'] + rest) == seq!['\x1b'] + without_csi(rest),
{
    let s = seq!['\x1b'] + rest;
    assert(s.skip(1) =~= rest);
    assert(csi_length(s) == 0) by {
        if s.len() > 2 && s[1] == '[' {
            assert(s.skip(2) =~= numbers + after);
            lemma_numbers(numbers, after);
            let n = 2 + numbers.len() as int;
            if n < s.len() {
                assert(s[n] == after[0]);
            }
        }
    }
}

proof fn lemma_numbers(numbers: Seq<char>, after: Seq<char>)
    requires
        forall|i: int|
            0 <= i < numbers.len() ==> '0' <= #[trigger] numbers[i] <= '9' || numbers[i] == ';',
        after.len() > 0 ==> !('0' <= after[0] <= '9' || after[0] == ';'),
    ensures
        csi_numbers(numbers + after) == numbers.len(),
    decreases numbers.len(),
{
    let s = numbers + after;
    if numbers.len() > 0 {
        assert forall|i: int|
            0 <= i < numbers.skip(1).len() implies '0' <= #[trigger] numbers.skip(1)[i] <= '9'
            || numbers.skip(1)[i] == ';' by {
            assert('0' <= numbers[i + 1] <= '9' || numbers[i + 1] == ';');
        }
        lemma_numbers(numbers.skip(1), after);
        assert(s.skip(1) =~= numbers.skip(1) + after);
        assert(s[0] == numbers[0]);
    } else {
        assert(s =~= after);
    }
}

} // verus!
