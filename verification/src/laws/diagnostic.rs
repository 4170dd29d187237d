//! Diagnostics and what they say.

use vstd::prelude::*;

use crate::diagnostic::{
    collected, foreign_file, from_zero, is_foreign_file, is_note, lemma_details, models, start_at,
    Diagnostic, DiagnosticView,
};
use crate::laws::order::{chosen, lemma_chosen_next};
use crate::laws::text::{lemma_occurs, lemma_occurs_parts, written};
use crate::text::{number_or_one, usize_of};

verus! {

/// What a diagnostic says is what its fields hold, and so for all below it.
pub proof fn law_diagnostic_view(d: Diagnostic)
    ensures
        d@.level == d.level@,
        d@.span == d.span,
        d@.message == d.message@,
        d.code is Some <==> d@.code is Some,
        d.code matches Some(c) ==> d@.code == Some(c@),
        d@.details.len() == d.details@.len(),
        forall|i: int|
            0 <= i < d.details@.len() ==> d@.details[i] == (#[trigger] d.details@[i])@,
{
    lemma_details(d);
}

/// What a list of diagnostics says is what each of them says.
pub proof fn law_diagnostics_view(list: Seq<Diagnostic>)
    ensures
        models(list).len() == list.len(),
        forall|i: int| 0 <= i < list.len() ==> models(list)[i] == (#[trigger] list[i])@,
{
}

/// A file with an absolute path, or below a directory `include`.
pub open spec fn from_outside(file: Seq<char>) -> bool {
    ||| file.len() > 0 && file[0] == '/'
    ||| exists|a: Seq<char>, b: Seq<char>| file == #[trigger] (a + ("/include/"@ + b))
}

/// Files with absolute paths and files below a directory `include` are foreign,
/// and no others.
pub proof fn law_foreign(file: Seq<char>)
    ensures
        foreign_file(file) <==> from_outside(file),
{
    if foreign_file(file) && !(file.len() > 0 && file[0] == '/') {
        lemma_occurs_parts(file, "/include/"@);
    }
    if exists|a: Seq<char>, b: Seq<char>| file == #[trigger] (a + ("/include/"@ + b)) {
        let (a, b) = choose|a: Seq<char>, b: Seq<char>| file == #[trigger] (a + ("/include/"@ + b));
        lemma_occurs(a, "/include/"@, b);
    }
}

/// Foreign files are told from others.
pub proof fn law_foreign_told(file: &str, r: bool)
    requires
        call_ensures(is_foreign_file, (file,), r),
    ensures
        r <==> from_outside(file@),
{
    law_foreign(file@);
}

/// A note is a diagnostic of the level `note`.
pub proof fn law_note_told(d: &Diagnostic, r: bool)
    requires
        call_ensures(is_note, (d,), r),
    ensures
        r <==> d.level@ == "note"@,
{
    law_diagnostic_view(*d);
}

/// `n` is the number that `s` stands for, counted from zero instead of one; a
/// zero, and a text that is no number, stand for the first.
pub open spec fn counted(s: Seq<char>, n: usize) -> bool {
    match usize_of(s) {
        Some(k) => if k == 0 {
            n == 0
        } else {
            n + 1 == k
        },
        None => n == 0,
    }
}

/// A number that was written down is counted from zero.
pub proof fn law_counted_written(k: nat, n: usize)
    requires
        1 <= k <= usize::MAX,
        counted(written(k), n),
    ensures
        n + 1 == k,
{
    crate::laws::text::law_number_written(k);
}

/// The number of a text, counted from zero.
pub proof fn lemma_counted(s: Seq<char>)
    ensures
        counted(s, from_zero(number_or_one(s))),
{
}

/// A place without an end: its start is counted from zero.
pub proof fn lemma_start(line: Seq<char>, column: Seq<char>)
    ensures
        ({
            let span = start_at(number_or_one(line), number_or_one(column));
            &&& span.end is None
            &&& counted(line, span.start.line)
            &&& counted(column, span.start.column)
        }),
{
}

/// The lines that are not passed over.
pub open spec fn told_lines(
    lines: Seq<Seq<char>>,
    read: spec_fn(Seq<char>) -> Option<DiagnosticView>,
) -> spec_fn(int) -> bool {
    |i: int| read(lines[i]) is Some
}

/// What is made of lines is made of those that are not passed over, one by one
/// and in their order.
pub proof fn lemma_collected_chosen(
    lines: Seq<Seq<char>>,
    read: spec_fn(Seq<char>) -> Option<DiagnosticView>,
) -> (at: Seq<int>)
    ensures
        chosen(lines.len() as int, told_lines(lines, read), at),
        collected(lines, read).len() == at.len(),
        forall|k: int|
            0 <= k < at.len() ==> Some(#[trigger] collected(lines, read)[k]) == read(lines[at[k]]),
    decreases lines.len(),
{
    let keep = told_lines(lines, read);
    if lines.len() == 0 {
        Seq::empty()
    } else {
        let earlier = lines.drop_last();
        let n = earlier.len() as int;
        let at = lemma_collected_chosen(earlier, read);
        let keep_earlier = told_lines(earlier, read);
        assert(chosen(n, keep, at)) by {
            assert forall|k: int| 0 <= k < at.len() implies 0 <= #[trigger] at[k] < n && keep(
                at[k],
            ) by {
                assert(keep_earlier(at[k]));
                assert(earlier[at[k]] == lines[at[k]]);
            }
            assert forall|i: int| 0 <= i < n && #[trigger] keep(i) implies at.contains(i) by {
                assert(earlier[i] == lines[i]);
                assert(keep_earlier(i));
            }
        }
        lemma_chosen_next(n, keep, at);
        let out = if keep(n) {
            at.push(n)
        } else {
            at
        };
        assert(lines.last() == lines[n]);
        assert forall|k: int| 0 <= k < out.len() implies Some(
            #[trigger] collected(lines, read)[k],
        ) == read(lines[out[k]]) by {
            if k < at.len() {
                assert(collected(lines, read)[k] == collected(earlier, read)[k]);
                assert(keep_earlier(at[k]));
                assert(earlier[at[k]] == lines[at[k]]);
            }
        }
        out
    }
}

} // verus!
