//! The diagnostics of messages of rustc.

use vstd::prelude::*;

use crate::diagnostic::{Diagnostic, DiagnosticView, Span};
use crate::laws::diagnostic::law_diagnostic_view;
use crate::laws::order::{chosen, lemma_chosen_next, lemma_chosen_told};
use crate::rustc::{
    convert, converted, first_primary, label_notes, lemma_first_primary, normalize_level, our_span,
    pick_primary, primary, rustc_schema_level, rustc_step, span_to_our, RustcMessage, RustcSpan,
    RustcStep,
};

verus! {

/// `n` counts from zero what `k` counts from one; a zero stays a zero.
pub open spec fn one_less(k: usize, n: usize) -> bool {
    if k == 0 {
        n == 0
    } else {
        n + 1 == k
    }
}

/// `span` is the place `s`: its four numbers are those of `s`, each less one.
pub open spec fn same_place(s: RustcSpan, span: Span) -> bool {
    &&& one_less(s.line_start, span.start.line)
    &&& one_less(s.column_start, span.start.column)
    &&& span.end matches Some(end) && {
        &&& one_less(s.line_end, end.line)
        &&& one_less(s.column_end, end.column)
    }
}

proof fn lemma_same_place(s: RustcSpan)
    ensures
        same_place(s, our_span(s)),
{
}

/// The four numbers of a place are each exactly one less than those of rustc, as
/// long as these count from one.
pub proof fn law_place_counted(s: &RustcSpan, r: Span)
    requires
        call_ensures(span_to_our, (s,), r),
    ensures
        s.line_start >= 1 ==> r.start.line + 1 == s.line_start,
        s.column_start >= 1 ==> r.start.column + 1 == s.column_start,
        s.line_start == 0 ==> r.start.line == 0,
        s.column_start == 0 ==> r.start.column == 0,
        r.end matches Some(end) && {
            &&& s.line_end >= 1 ==> end.line + 1 == s.line_end
            &&& s.column_end >= 1 ==> end.column + 1 == s.column_end
            &&& s.line_end == 0 ==> end.line == 0
            &&& s.column_end == 0 ==> end.column == 0
        },
{
    lemma_same_place(*s);
}

/// The place at `i` stands for all: it is the first primary one, or the first of
/// all where none is primary.
pub open spec fn stands_for(spans: Seq<RustcSpan>, i: int) -> bool {
    &&& 0 <= i < spans.len()
    &&& if spans[i].is_primary {
        forall|k: int| 0 <= k < i ==> !(#[trigger] spans[k]).is_primary
    } else {
        i == 0 && forall|k: int| 0 <= k < spans.len() ==> !(#[trigger] spans[k]).is_primary
    }
}

proof fn lemma_primary(spans: Seq<RustcSpan>, i: int)
    ensures
        spans.len() == 0 ==> primary(spans) is None,
        stands_for(spans, i) ==> primary(spans) == Some(spans[i]),
        spans.len() > 0 ==> exists|k: int| stands_for(spans, k),
{
    if exists|k: int| 0 <= k < spans.len() && (#[trigger] spans[k]).is_primary {
        let k = choose|k: int| 0 <= k < spans.len() && (#[trigger] spans[k]).is_primary;
        lemma_first_primary(spans, k);
        let first = choose|k: int| first_primary(spans, k);
        assert(stands_for(spans, first));
        if stands_for(spans, i) {
            if i < first {
                assert(!spans[i].is_primary);
            }
            if first < i {
                assert(!spans[first].is_primary);
            }
        }
    } else {
        assert(forall|k: int| !first_primary(spans, k));
        if spans.len() > 0 {
            assert(stands_for(spans, 0));
        }
    }
}

/// The first primary place is picked, or the first of all where none is primary;
/// none is picked where there is none.
pub proof fn law_primary_picked(spans: &[RustcSpan], r: Option<&RustcSpan>, i: int)
    requires
        call_ensures(pick_primary, (spans,), r),
    ensures
        spans@.len() == 0 <==> r is None,
        stands_for(spans@, i) ==> (r matches Some(s) && *s == spans@[i]),
{
    lemma_primary(spans@, i);
}

/// Some place stands for all where there is any.
pub proof fn law_stands_for(spans: Seq<RustcSpan>)
    requires
        spans.len() > 0,
    ensures
        exists|i: int| stands_for(spans, i),
{
    lemma_primary(spans, 0);
}

/// `to` is the level of the schema for the level `from` of rustc.
pub open spec fn rustc_level_tells(from: Seq<char>, to: Seq<char>) -> bool {
    &&& from == "error"@ || from == "error: internal compiler error"@ ==> to == "error"@
    &&& from == "warning"@ ==> to == "warning"@
    &&& from == "help"@ ==> to == "help"@
    &&& from != "error"@ && from != "error: internal compiler error"@ && from != "warning"@ && from
        != "help"@ ==> to == "note"@
}

proof fn lemma_level(level: Seq<char>)
    ensures
        rustc_level_tells(level, rustc_schema_level(level)),
{
    reveal_strlit("error");
    reveal_strlit("error: internal compiler error");
    reveal_strlit("warning");
    reveal_strlit("help");
    assert("error"@[0] == 'e' && "error: internal compiler error"@[0] == 'e' && "warning"@[0] == 'w'
        && "help"@[0] == 'h');
}

/// Errors, warnings and helps keep their levels, an error of the compiler itself
/// is an error, and all else is a note.
pub proof fn law_level_normalized(level: &str, r: String)
    requires
        call_ensures(normalize_level, (level,), r),
    ensures
        rustc_level_tells(level@, r@),
{
    lemma_level(level@);
}

/// The places that are not primary and have a label.
pub open spec fn labelled_places(spans: Seq<RustcSpan>) -> spec_fn(int) -> bool {
    |i: int| !spans[i].is_primary && spans[i].label is Some
}

/// `d` is the note of the label of the place `s`.
pub open spec fn label_tells(s: RustcSpan, d: DiagnosticView) -> bool {
    &&& d.level == "note"@
    &&& d.span matches Some(span) && same_place(s, span)
    &&& s.label matches Some(label) && d.message == label@
    &&& d.code is None
    &&& d.details.len() == 0
}

proof fn lemma_labels(spans: Seq<RustcSpan>) -> (at: Seq<int>)
    ensures
        chosen(spans.len() as int, labelled_places(spans), at),
        label_notes(spans).len() == at.len(),
        forall|k: int|
            0 <= k < at.len() ==> label_tells(spans[at[k]], #[trigger] label_notes(spans)[k]),
    decreases spans.len(),
{
    if spans.len() == 0 {
        Seq::empty()
    } else {
        let earlier = spans.drop_last();
        let n = earlier.len() as int;
        let at = lemma_labels(earlier);
        let keep = labelled_places(spans);
        let before = labelled_places(earlier);
        assert forall|i: int| 0 <= i < n implies #[trigger] before(i) == keep(i) by {
            assert(earlier[i] == spans[i]);
        }
        lemma_chosen_told(n, before, keep, at);
        lemma_chosen_next(n, keep, at);
        lemma_same_place(spans[n]);
        let out = if keep(n) {
            at.push(n)
        } else {
            at
        };
        assert(spans.last() == spans[n]);
        assert forall|k: int| 0 <= k < out.len() implies label_tells(
            spans[out[k]],
            #[trigger] label_notes(spans)[k],
        ) by {
            if k < at.len() {
                assert(label_notes(spans)[k] == label_notes(earlier)[k]);
                assert(spans[at[k]] == earlier[at[k]]);
            }
        }
        out
    }
}

/// A message makes one diagnostic: with its message and its code as they are, the
/// level of the schema for its own, and the place that stands for all of its
/// places. The labels of its other places are the first of its details, one for
/// each and in their order.
pub proof fn law_converted(m: &RustcMessage, r: Diagnostic, i: int)
    requires
        call_ensures(convert, (m,), r),
    ensures
        r.message@ == m.message@,
        rustc_level_tells(m.level@, r.level@),
        r.code is Some <==> m.code is Some,
        r.code matches Some(code) ==> (m.code matches Some(c) && code@ == c.code@),
        m.spans@.len() == 0 ==> r.span is None,
        stands_for(m.spans@, i) ==> (r.span matches Some(span) && same_place(m.spans@[i], span)),
        exists|at: Seq<int>| #[trigger]
            chosen(m.spans@.len() as int, labelled_places(m.spans@), at) && r.details@.len()
                == at.len() + m.children@.len() && forall|k: int|
                0 <= k < at.len() ==> label_tells(m.spans@[at[k]], (#[trigger] r.details@[k])@),
{
    law_diagnostic_view(r);
    lemma_level(m.level@);
    lemma_primary(m.spans@, i);
    if 0 <= i < m.spans@.len() {
        lemma_same_place(m.spans@[i]);
    }
    let at = lemma_labels(m.spans@);
    let d = converted(*m);
    assert(r@ == d);
    assert forall|k: int| 0 <= k < at.len() implies label_tells(
        m.spans@[at[k]],
        (#[trigger] r.details@[k])@,
    ) by {
        assert(d.details[k] == label_notes(m.spans@)[k]);
    }
}

/// The messages below a message are converted as they would be by themselves, and
/// are the last of its details, in their order.
pub proof fn law_children_converted(
    m: &RustcMessage,
    r: Diagnostic,
    child: &RustcMessage,
    c: Diagnostic,
    i: int,
)
    requires
        call_ensures(convert, (m,), r),
        0 <= i < m.children@.len(),
        *child == m.children@[i],
        call_ensures(convert, (child,), c),
    ensures
        r.details@.len() >= m.children@.len(),
        r.details@[r.details@.len() - m.children@.len() + i]@ == c@,
{
    law_diagnostic_view(r);
    let n = label_notes(m.spans@).len() as int;
    let d = converted(*m);
    assert(r@ == d);
    assert(d.details[n + i] == converted(m.children@[i]));
    assert(d.details[n + i] == r.details@[n + i]@);
}

/// A line with a message shows the message as rustc renders it and writes its
/// diagnostic down; another line is shown as it is, with a line feed; and nothing
/// is done with an empty one.
pub proof fn law_rustc_step(line: &str, parsed: Option<RustcMessage>, r: RustcStep)
    requires
        call_ensures(rustc_step, (line, parsed), r),
    ensures
        line@.len() == 0 ==> r.shown is None && r.diagnostic is None,
        line@.len() > 0 && parsed is None ==> {
            &&& r.shown matches Some(shown) && shown@ == line@ + seq!['\n']
            &&& r.diagnostic is None
        },
        line@.len() > 0 ==> (parsed matches Some(m) ==> {
            &&& r.shown is Some <==> m.rendered is Some
            &&& r.shown matches Some(shown) ==> (m.rendered matches Some(text) && shown@ == text@)
            &&& r.diagnostic matches Some(d) && forall|message: &RustcMessage, c: Diagnostic|
                *message == m && #[trigger] call_ensures(convert, (message,), c) ==> d@ == c@
        }),
{
    if line@.len() > 0 && parsed is None {
        assert(line@.push('\n') =~= line@ + seq!['\n']);
    }
}

} // verus!
