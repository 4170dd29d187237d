//! The output of rustc, which prints its messages as JSON.

use vstd::prelude::*;

use crate::diagnostic::{
    from_zero, known_level, lemma_details, models, Diagnostic, DiagnosticView, Position,
    Span,
};
use crate::text::{copy_optional, optional_text, same_text};

verus! {

/// The code of a message.
#[derive(Debug, PartialEq, Eq)]
pub struct RustcCode {
    pub code: String,
}

/// A place that a message points to; lines and columns count from one.
#[derive(Debug, PartialEq, Eq)]
pub struct RustcSpan {
    pub line_start: usize,
    pub line_end: usize,
    pub column_start: usize,
    pub column_end: usize,
    pub is_primary: bool,
    pub label: Option<String>,
}

/// A message, as far as it is used here.
#[derive(Debug, PartialEq, Eq)]
pub struct RustcMessage {
    pub message: String,
    pub code: Option<RustcCode>,
    pub level: String,
    pub spans: Vec<RustcSpan>,
    pub children: Vec<RustcMessage>,
    pub rendered: Option<String>,
}

/// A place among `spans` that is primary and has none before it.
pub open spec fn first_primary(spans: Seq<RustcSpan>, i: int) -> bool {
    &&& 0 <= i < spans.len()
    &&& spans[i].is_primary
    &&& forall|k: int| 0 <= k < i ==> !(#[trigger] spans[k]).is_primary
}

/// The place that stands for all: the first primary one, or else the first.
pub open spec fn primary(spans: Seq<RustcSpan>) -> Option<RustcSpan> {
    if exists|i: int| first_primary(spans, i) {
        Some(spans[choose|i: int| first_primary(spans, i)])
    } else if spans.len() > 0 {
        Some(spans[0])
    } else {
        None
    }
}

/// A place, counted from zero.
pub open spec fn our_span(s: RustcSpan) -> Span {
    Span {
        start: Position { line: from_zero(s.line_start), column: from_zero(s.column_start) },
        end: Some(Position { line: from_zero(s.line_end), column: from_zero(s.column_end) }),
    }
}

/// The level of the schema for a level of rustc.
pub open spec fn rustc_schema_level(level: Seq<char>) -> Seq<char> {
    if level == "error"@ || level == "error: internal compiler error"@ {
        "error"@
    } else if level == "warning"@ {
        "warning"@
    } else if level == "help"@ {
        "help"@
    } else {
        "note"@
    }
}

/// A place that is not primary and has a label.
pub open spec fn labelled(s: RustcSpan) -> bool {
    !s.is_primary && s.label is Some
}

/// The note that the label of a place makes.
pub open spec fn label_note(s: RustcSpan) -> DiagnosticView {
    DiagnosticView {
        level: "note"@,
        span: Some(our_span(s)),
        message: s.label->0@,
        code: None,
        details: seq![],
    }
}

/// The notes that the labels of places make, in their order.
pub open spec fn label_notes(spans: Seq<RustcSpan>) -> Seq<DiagnosticView>
    decreases spans.len(),
{
    if spans.len() == 0 {
        seq![]
    } else if labelled(spans.last()) {
        label_notes(spans.drop_last()).push(label_note(spans.last()))
    } else {
        label_notes(spans.drop_last())
    }
}

/// The place that a message points to.
pub open spec fn message_span(spans: Seq<RustcSpan>) -> Option<Span> {
    match primary(spans) {
        Some(s) => Some(our_span(s)),
        None => None,
    }
}

/// The content of an optional code.
pub open spec fn code_text(code: Option<RustcCode>) -> Option<Seq<char>> {
    match code {
        Some(c) => Some(c.code@),
        None => None,
    }
}

/// The diagnostic of a message: labels come before the messages below it.
pub open spec fn converted(m: RustcMessage) -> DiagnosticView
    decreases m,
{
    DiagnosticView {
        level: rustc_schema_level(m.level@),
        span: message_span(m.spans@),
        message: m.message@,
        code: code_text(m.code),
        details: label_notes(m.spans@) + Seq::new(
            m.children@.len(),
            |i: int|
                if 0 <= i < m.children@.len() {
                    converted(m.children@[i])
                } else {
                    arbitrary()
                },
        ),
    }
}

/// Picks the place that stands for all.
pub fn pick_primary(spans: &[RustcSpan]) -> (r: Option<&RustcSpan>)
    ensures
        match r {
            Some(s) => primary(spans@) == Some(*s),
            None => primary(spans@) is None,
        },
{
    let mut i: usize = 0;
    while i < spans.len()
        invariant
            i <= spans@.len(),
            forall|k: int| 0 <= k < i ==> !(#[trigger] spans@[k]).is_primary,
        decreases spans@.len() - i,
    {
        if spans[i].is_primary {
            proof {
                assert(first_primary(spans@, i as int));
                let k = choose|k: int| first_primary(spans@, k);
                assert(k == i);
            }
            return Some(&spans[i]);
        }
        i += 1;
    }
    assert(forall|k: int| !first_primary(spans@, k));
    if spans.len() > 0 {
        Some(&spans[0])
    } else {
        None
    }
}

/// Counts a place from zero.
pub fn span_to_our(s: &RustcSpan) -> (r: Span)
    ensures
        r == our_span(*s),
{
    Span {
        start: Position {
            line: s.line_start.saturating_sub(1),
            column: s.column_start.saturating_sub(1),
        },
        end: Some(
            Position {
                line: s.line_end.saturating_sub(1),
                column: s.column_end.saturating_sub(1),
            },
        ),
    }
}

/// The level of the schema for a level of rustc.
pub fn normalize_level(level: &str) -> (r: String)
    ensures
        r@ == rustc_schema_level(level@),
{
    if same_text(level, "error") || same_text(level, "error: internal compiler error") {
        "error".to_owned()
    } else if same_text(level, "warning") {
        "warning".to_owned()
    } else if same_text(level, "help") {
        "help".to_owned()
    } else {
        "note".to_owned()
    }
}

/// Makes notes of the labels of places.
fn notes_of_labels(spans: &Vec<RustcSpan>) -> (r: Vec<Diagnostic>)
    ensures
        models(r@) == label_notes(spans@),
{
    let mut notes: Vec<Diagnostic> = Vec::new();
    let mut i: usize = 0;
    assert(models(notes@) == Seq::<DiagnosticView>::empty());
    while i < spans.len()
        invariant
            i <= spans@.len(),
            models(notes@) == label_notes(spans@.take(i as int)),
        decreases spans@.len() - i,
    {
        let ghost done = models(notes@);
        let s = &spans[i];
        assert(spans@.take(i + 1).drop_last() == spans@.take(i as int));
        assert(spans@.take(i + 1).last() == *s);
        if !s.is_primary {
            match &s.label {
                None => {},
                Some(label) => {
                    let d = Diagnostic {
                        level: "note".to_owned(),
                        span: Some(span_to_our(s)),
                        message: label.clone(),
                        code: None,
                        details: Vec::new(),
                    };
                    proof {
                        lemma_details(d);
                        assert(d@.details =~= seq![]);
                        assert(d@ == label_note(*s));
                    }
                    notes.push(d);
                    assert(models(notes@) == done.push(d@));
                },
            }
        }
        i += 1;
    }
    assert(spans@.take(i as int) == spans@);
    notes
}

/// Makes a diagnostic of a message and all messages below it.
pub fn convert(msg: &RustcMessage) -> (r: Diagnostic)
    ensures
        r@ == converted(*msg),
    decreases msg,
{
    let span = match pick_primary(msg.spans.as_slice()) {
        Some(s) => Some(span_to_our(s)),
        None => None,
    };
    let mut details = notes_of_labels(&msg.spans);
    let ghost notes = label_notes(msg.spans@);
    let ghost below = Seq::new(msg.children@.len(), |i: int| converted(msg.children@[i]));
    let mut i: usize = 0;
    assert(models(details@) == notes + below.take(0));
    while i < msg.children.len()
        invariant
            i <= msg.children@.len(),
            below == Seq::new(msg.children@.len(), |i: int| converted(msg.children@[i])),
            models(details@) == notes + below.take(i as int),
        decreases msg.children@.len() - i,
    {
        let ghost done = models(details@);
        assert(decreases_to!(msg => msg.children@[i as int]));
        let child = convert(&msg.children[i]);
        details.push(child);
        assert(models(details@) == done.push(child@));
        i += 1;
        assert(notes + below.take(i as int) == done.push(child@));
    }
    let code = match &msg.code {
        Some(c) => Some(c.code.clone()),
        None => None,
    };
    let d = Diagnostic {
        level: normalize_level(msg.level.as_str()),
        span,
        message: msg.message.clone(),
        code,
        details,
    };
    proof {
        lemma_details(d);
        assert(below.take(i as int) == below);
        assert(d@.details =~= converted(*msg).details);
    }
    d
}

/// What to do with a line of the output.
#[derive(Debug, PartialEq, Eq)]
pub struct RustcStep {
    /// What to show to the user.
    pub shown: Option<String>,
    /// What to write down.
    pub diagnostic: Option<Diagnostic>,
}

/// Decides on a line of the output, given the message that it holds, if it
/// holds one: a message is shown as rustc renders it, and another line as it is.
pub fn rustc_step(line: &str, parsed: Option<RustcMessage>) -> (r: RustcStep)
    ensures
        line@.len() == 0 ==> r.shown is None && r.diagnostic is None,
        line@.len() > 0 ==> match parsed {
            Some(msg) => {
                &&& optional_text(r.shown) == optional_text(msg.rendered)
                &&& r.diagnostic matches Some(d) && d@ == converted(msg)
            },
            None => {
                &&& r.shown matches Some(s) && s@ == line@.push('\n')
                &&& r.diagnostic is None
            },
        },
{
    if line.is_empty() {
        return RustcStep { shown: None, diagnostic: None };
    }
    match parsed {
        Some(msg) => {
            let d = convert(&msg);
            RustcStep { shown: copy_optional(&msg.rendered), diagnostic: Some(d) }
        },
        None => {
            let mut shown = line.to_owned();
            shown.push('\n');
            RustcStep { shown: Some(shown), diagnostic: None }
        },
    }
}

/// The level of a diagnostic, and of all that is below it, is one of the schema.
pub open spec fn levels_known_below(d: DiagnosticView) -> bool
    decreases d,
{
    &&& known_level(d.level)
    &&& forall|i: int| 0 <= i < d.details.len() ==> levels_known_below(#[trigger] d.details[i])
}

proof fn lemma_label_notes(spans: Seq<RustcSpan>, i: int)
    requires
        0 <= i < label_notes(spans).len(),
    ensures
        exists|k: int|
            0 <= k < spans.len() && labelled(#[trigger] spans[k]) && label_notes(spans)[i]
                == label_note(spans[k]),
    decreases spans.len(),
{
    let earlier = spans.drop_last();
    if i < label_notes(earlier).len() {
        lemma_label_notes(earlier, i);
        let k = choose|k: int|
            0 <= k < earlier.len() && labelled(#[trigger] earlier[k]) && label_notes(earlier)[i]
                == label_note(earlier[k]);
        assert(spans[k] == earlier[k]);
    } else {
        assert(labelled(spans[spans.len() - 1]));
    }
}

/// Whatever rustc calls the levels of a message and of the messages below it,
/// the levels of its diagnostic are those of the schema.
pub proof fn law_rustc_levels(m: RustcMessage)
    ensures
        levels_known_below(converted(m)),
    decreases m,
{
    let d = converted(m);
    let notes = label_notes(m.spans@);
    assert forall|i: int| 0 <= i < d.details.len() implies levels_known_below(
        #[trigger] d.details[i],
    ) by {
        if i < notes.len() {
            lemma_label_notes(m.spans@, i);
            assert(d.details[i] == notes[i]);
        } else {
            let k = i - notes.len();
            assert(d.details[i] == converted(m.children@[k]));
            law_rustc_levels(m.children@[k]);
        }
    }
}

/// The levels of the schema stay what they are, so that normalizing twice is
/// the same as once.
pub proof fn law_normalize_stable(level: Seq<char>)
    ensures
        known_level(level) ==> rustc_schema_level(level) == level,
        known_level(rustc_schema_level(level)),
        rustc_schema_level(rustc_schema_level(level)) == rustc_schema_level(level),
{
    reveal_strlit("error");
    reveal_strlit("error: internal compiler error");
    reveal_strlit("warning");
    reveal_strlit("note");
    reveal_strlit("help");
    assert("note"@[0] == 'n' && "help"@[0] == 'h' && "error"@[0] == 'e' && "warning"@[0] == 'w');
    assert("error: internal compiler error"@[0] == 'e');
}

/// How many places of a message make a note.
pub open spec fn labels(spans: Seq<RustcSpan>) -> nat {
    spans.filter(|s: RustcSpan| labelled(s)).len()
}

/// A diagnostic has one detail for each label and each message directly below
/// its own; the labels come first.
pub proof fn law_rustc_details(m: RustcMessage, i: int)
    ensures
        converted(m).details.len() == labels(m.spans@) + m.children@.len(),
        0 <= i < m.children@.len() ==> converted(m).details[labels(m.spans@) + i] == converted(
            m.children@[i],
        ),
{
    lemma_label_count(m.spans@);
}

proof fn lemma_label_count(spans: Seq<RustcSpan>)
    ensures
        label_notes(spans).len() == labels(spans),
    decreases spans.len(),
{
    reveal(Seq::filter);
    if spans.len() > 0 {
        lemma_label_count(spans.drop_last());
    }
}

/// A message with places points to one of them: to a primary one if there is
/// any.
pub proof fn law_rustc_points(m: RustcMessage)
    ensures
        converted(m).span is Some <==> m.spans@.len() > 0,
        (exists|i: int| 0 <= i < m.spans@.len() && (#[trigger] m.spans@[i]).is_primary) ==> (
        primary(m.spans@) matches Some(s) && s.is_primary),
{
    let spans = m.spans@;
    if exists|i: int| 0 <= i < spans.len() && (#[trigger] spans[i]).is_primary {
        let i = choose|i: int| 0 <= i < spans.len() && (#[trigger] spans[i]).is_primary;
        lemma_first_primary(spans, i);
    }
}

pub proof fn lemma_first_primary(spans: Seq<RustcSpan>, i: int)
    requires
        0 <= i < spans.len(),
        spans[i].is_primary,
    ensures
        exists|k: int| first_primary(spans, k),
    decreases i,
{
    if exists|k: int| 0 <= k < i && (#[trigger] spans[k]).is_primary {
        let k = choose|k: int| 0 <= k < i && (#[trigger] spans[k]).is_primary;
        lemma_first_primary(spans, k);
    } else {
        assert(first_primary(spans, i));
    }
}

} // verus!
