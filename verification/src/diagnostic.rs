//! The schema that every compiler's output is turned into.

use vstd::prelude::*;

use crate::text::{begins_with, contains_text, occurs_in, optional_text, same_text};

verus! {

/// A place in a source file; lines and columns count from zero.
#[derive(Clone, Copy, Debug, PartialEq, Eq)]
pub struct Position {
    pub line: usize,
    pub column: usize,
}

/// A stretch of a source file, or only its start.
#[derive(Clone, Copy, Debug, PartialEq, Eq)]
pub struct Span {
    pub start: Position,
    pub end: Option<Position>,
}

/// One message of a compiler, with the messages that belong to it.
#[derive(Debug, PartialEq, Eq)]
pub struct Diagnostic {
    pub level: String,
    pub span: Option<Span>,
    pub message: String,
    pub code: Option<String>,
    pub details: Vec<Diagnostic>,
}

/// What a diagnostic says.
#[verifier::ext_equal]
pub struct DiagnosticView {
    pub level: Seq<char>,
    pub span: Option<Span>,
    pub message: Seq<char>,
    pub code: Option<Seq<char>>,
    pub details: Seq<DiagnosticView>,
}

/// The model of a diagnostic.
pub open spec fn model(d: Diagnostic) -> DiagnosticView
    decreases d,
{
    DiagnosticView {
        level: d.level@,
        span: d.span,
        message: d.message@,
        code: optional_text(d.code),
        details: Seq::new(
            d.details@.len(),
            |i: int|
                if 0 <= i < d.details@.len() {
                    model(d.details@[i])
                } else {
                    arbitrary()
                },
        ),
    }
}

impl View for Diagnostic {
    type V = DiagnosticView;

    open spec fn view(&self) -> DiagnosticView {
        model(*self)
    }
}

/// The models of a list of diagnostics.
pub open spec fn models(list: Seq<Diagnostic>) -> Seq<DiagnosticView> {
    list.map_values(|d: Diagnostic| d@)
}

/// The details of a model are the models of the details.
pub proof fn lemma_details(d: Diagnostic)
    ensures
        d@.details == models(d.details@),
{
    assert(d@.details =~= models(d.details@));
}

/// What `read` makes of the lines that it does not pass over, in their order.
pub open spec fn collected(
    lines: Seq<Seq<char>>,
    read: spec_fn(Seq<char>) -> Option<DiagnosticView>,
) -> Seq<DiagnosticView>
    decreases lines.len(),
{
    if lines.len() == 0 {
        seq![]
    } else {
        let earlier = collected(lines.drop_last(), read);
        match read(lines.last()) {
            Some(d) => earlier.push(d),
            None => earlier,
        }
    }
}

/// What is made of a list of lines is made of each of its parts.
pub proof fn lemma_collected_joined(
    a: Seq<Seq<char>>,
    b: Seq<Seq<char>>,
    read: spec_fn(Seq<char>) -> Option<DiagnosticView>,
)
    ensures
        collected(a + b, read) == collected(a, read) + collected(b, read),
    decreases b.len(),
{
    if b.len() == 0 {
        assert(a + b == a);
        assert(collected(a, read) + collected(b, read) == collected(a, read));
    } else {
        lemma_collected_joined(a, b.drop_last(), read);
        assert((a + b).drop_last() == a + b.drop_last());
        assert((a + b).last() == b.last());
    }
}

/// Each diagnostic was made of a line.
pub proof fn lemma_collected_from(
    lines: Seq<Seq<char>>,
    read: spec_fn(Seq<char>) -> Option<DiagnosticView>,
    i: int,
)
    requires
        0 <= i < collected(lines, read).len(),
    ensures
        exists|k: int|
            0 <= k < lines.len() && read(#[trigger] lines[k]) == Some(collected(lines, read)[i]),
    decreases lines.len(),
{
    let earlier = collected(lines.drop_last(), read);
    if i < earlier.len() {
        lemma_collected_from(lines.drop_last(), read, i);
        let k = choose|k: int|
            0 <= k < lines.drop_last().len() && read(#[trigger] lines.drop_last()[k]) == Some(
                earlier[i],
            );
        assert(lines[k] == lines.drop_last()[k]);
    } else {
        assert(read(lines[lines.len() - 1]) == Some(collected(lines, read)[i]));
    }
}

/// The levels of the schema.
pub open spec fn known_level(level: Seq<char>) -> bool {
    ||| level == "error"@
    ||| level == "warning"@
    ||| level == "note"@
    ||| level == "help"@
}

/// One less, and zero for zero: from counting from one to counting from zero.
pub open spec fn from_zero(n: usize) -> usize {
    if n == 0 {
        0
    } else {
        (n - 1) as usize
    }
}

/// The span that begins at a line and a column counted from one.
pub open spec fn start_at(line: usize, column: usize) -> Span {
    Span { start: Position { line: from_zero(line), column: from_zero(column) }, end: None }
}

/// A file outside the program: one with an absolute path, or a header.
pub open spec fn foreign_file(file: Seq<char>) -> bool {
    ||| file.len() > 0 && file[0] == '/'
    ||| occurs_in(file, "/include/"@)
}

/// Tells the files of the system's headers and libraries.
pub fn is_foreign_file(file: &str) -> (r: bool)
    ensures
        r == foreign_file(file@),
{
    begins_with(file, '/') || contains_text(file, "/include/")
}

/// Whether a diagnostic is a note.
pub fn is_note(d: &Diagnostic) -> (r: bool)
    ensures
        r == (d@.level == "note"@),
{
    same_text(d.level.as_str(), "note")
}

} // verus!
