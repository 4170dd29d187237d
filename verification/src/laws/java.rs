//! The class that names a Java program, and what is packed into its archive.

use vstd::prelude::*;

use crate::java::{
    class_counts, class_file, get_class_name, jar_arguments, jar_arguments_of, java_file_name,
    law_class_declared, manifest_text,
};
use crate::laws::order::{chosen, lemma_chosen_next, lemma_chosen_told};
use crate::laws::text::law_lines;
use crate::pattern::{class_splits, name_character, ClassParts};
use crate::source::{open_braces, place_of, Place};
use crate::text::{lacks, lines_of, texts};

verus! {

/// The declaration with the parts `p` has no modifiers, or stands in the program
/// itself, outside of all braces and not in the middle of a word.
pub open spec fn names_program(p: ClassParts) -> bool {
    ||| p.modifiers.len() == 0
    ||| {
        &&& place_of(p.before) == Place::Code
        &&& open_braces(p.before) == 0
        &&& p.before.len() == 0 || !(name_character(p.before.last()) || p.before.last() as u32
            >= 0x80)
    }
}

/// The first declaration of a public class that can name the program does, with
/// all of its name; without one the program is called `Main`.
pub proof fn law_class_named(content: &str, r: String, p: ClassParts)
    requires
        call_ensures(get_class_name, (content,), r),
    ensures
        class_splits(content@, p) && names_program(p) && (p.after.len() > 0 ==> !name_character(
            p.after[0],
        )) && (forall|q: ClassParts| #[trigger]
            class_splits(content@, q) && names_program(q) ==> p.before.len() <= q.before.len())
            ==> r@ == p.name,
        (forall|q: ClassParts| #[trigger] class_splits(content@, q) ==> !names_program(q)) ==> r@
            == "Main"@,
{
    assert forall|q: ClassParts| #[trigger] class_counts(content@, q) <==> class_splits(content@, q)
        && names_program(q) by {}
    if class_splits(content@, p) && names_program(p) && (p.after.len() > 0 ==> !name_character(
        p.after[0],
    )) && (forall|q: ClassParts| #[trigger]
        class_splits(content@, q) && names_program(q) ==> p.before.len() <= q.before.len()) {
        assert(class_counts(content@, p));
        law_class_declared(content@, p);
    }
    if forall|q: ClassParts| #[trigger] class_splits(content@, q) ==> !names_program(q) {
        assert forall|q: ClassParts| !class_counts(content@, q) by {
            if class_splits(content@, q) {
                assert(!names_program(q));
            }
        }
        crate::java::law_class_fallback(content@);
    }
}

/// The source file of a class is called by its name, with `.java` after it.
pub proof fn law_file_named(class: &str, r: String)
    requires
        call_ensures(java_file_name, (class,), r),
    ensures
        r@.len() == class@.len() + 5,
        r@.take(class@.len() as int) == class@,
        r@.skip(class@.len() as int) == ".java"@,
{
    reveal_strlit(".java");
    assert(r@.take(class@.len() as int) =~= class@);
    assert(r@.skip(class@.len() as int) =~= ".java"@);
}

/// A manifest has two lines: its version and the class to run.
pub proof fn law_manifest(class: &str, r: String)
    requires
        call_ensures(manifest_text, (class,), r),
    ensures
        r@ == "Manifest-Version: 1.0\nMain-Class: "@ + (class@ + seq!['\n']),
        lacks(class@, '\n') && (class@.len() > 0 ==> class@.last() != '\r') ==> lines_of(r@) == seq![
            "Manifest-Version: 1.0"@,
            "Main-Class: "@ + class@,
        ],
{
    reveal_strlit("Manifest-Version: 1.0\nMain-Class: ");
    reveal_strlit("Manifest-Version: 1.0");
    reveal_strlit("Main-Class: ");
    assert(r@ =~= "Manifest-Version: 1.0\nMain-Class: "@ + (class@ + seq!['\n']));
    let first = "Manifest-Version: 1.0"@;
    let second = "Main-Class: "@ + class@;
    let none = Seq::<char>::empty();
    assert(r@ =~= first + (seq!['\n'] + (second + (seq!['\n'] + none))));
    if lacks(class@, '\n') && (class@.len() > 0 ==> class@.last() != '\r') {
        assert forall|i: int| 0 <= i < second.len() implies #[trigger] second[i] != '\n' by {
            if i >= "Main-Class: "@.len() {
                assert(second[i] == class@[i - "Main-Class: "@.len()]);
            }
        }
        assert(first.last() != '\r');
        if class@.len() > 0 {
            assert(second.last() == class@.last());
        } else {
            assert(second.last() == ' ');
        }
        law_lines(first, second + (seq!['\n'] + none));
        law_lines(second, none);
        assert(lines_of(r@) =~= seq![first, second]);
    }
}

/// The entries that end with `.class`.
pub open spec fn class_entries(entries: Seq<String>) -> spec_fn(int) -> bool {
    |i: int| ends_with_class(entries[i]@)
}

/// `name` ends with `.class`.
pub open spec fn ends_with_class(name: Seq<char>) -> bool {
    exists|stem: Seq<char>| name == #[trigger] (stem + ".class"@)
}

proof fn lemma_class_file(name: Seq<char>)
    ensures
        class_file(name) <==> ends_with_class(name),
{
    let at = name.len() - ".class"@.len();
    if class_file(name) {
        assert forall|i: int| 0 <= i < ".class"@.len() implies name[at + i] == #[trigger] ".class"@[i] by {
            assert(name.subrange(at, at + ".class"@.len())[i] == ".class"@[i]);
        }
        assert(name =~= name.take(at) + ".class"@);
    }
    if ends_with_class(name) {
        let stem = choose|stem: Seq<char>| name == #[trigger] (stem + ".class"@);
        assert(name.subrange(at, at + ".class"@.len()) =~= ".class"@);
    }
}

proof fn lemma_filtered(entries: Seq<String>, kept: spec_fn(Seq<char>) -> bool) -> (at: Seq<int>)
    requires
        forall|name: Seq<char>| #[trigger] kept(name) == class_file(name),
    ensures
        chosen(entries.len() as int, class_entries(entries), at),
        texts(entries).filter(kept).len() == at.len(),
        forall|k: int|
            0 <= k < at.len() ==> #[trigger] texts(entries).filter(kept)[k] == entries[at[k]]@,
    decreases entries.len(),
{
    reveal(Seq::filter);
    if entries.len() == 0 {
        Seq::empty()
    } else {
        let earlier = entries.drop_last();
        let n = earlier.len() as int;
        let at = lemma_filtered(earlier, kept);
        let keep = class_entries(entries);
        let before = class_entries(earlier);
        assert forall|i: int| 0 <= i < n implies #[trigger] before(i) == keep(i) by {
            assert(earlier[i] == entries[i]);
        }
        lemma_chosen_told(n, before, keep, at);
        lemma_chosen_next(n, keep, at);
        lemma_class_file(entries[n]@);
        assert(texts(entries).drop_last() =~= texts(earlier));
        assert(texts(entries).last() == entries[n]@);
        let out = if keep(n) {
            at.push(n)
        } else {
            at
        };
        let all = texts(entries).filter(kept);
        let some = texts(earlier).filter(kept);
        assert forall|k: int| 0 <= k < out.len() implies #[trigger] all[k] == entries[out[k]]@ by {
            if k < at.len() {
                assert(all[k] == some[k]);
                assert(entries[at[k]] == earlier[at[k]]);
            }
        }
        out
    }
}

/// `jar` is told to create an archive with a manifest, and to pack every entry
/// that ends with `.class`, in their order, and no other.
pub proof fn law_jar(output: &str, manifest: &str, entries: &Vec<String>, r: Vec<String>)
    requires
        call_ensures(jar_arguments, (output, manifest, entries), r),
    ensures
        r@.len() >= 3,
        r@[0]@ == "cfm"@,
        r@[1]@ == output@,
        r@[2]@ == manifest@,
        exists|at: Seq<int>| #[trigger]
            chosen(entries@.len() as int, class_entries(entries@), at) && r@.len() == 3 + at.len()
                && forall|k: int|
                0 <= k < at.len() ==> (#[trigger] entries@[at[k]])@ == r@[3 + k]@,
{
    let kept = |name: Seq<char>| class_file(name);
    let at = lemma_filtered(entries@, kept);
    let list = texts(r@);
    let packed = texts(entries@).filter(kept);
    assert(list == jar_arguments_of(output@, manifest@, texts(entries@)));
    assert(list.len() == 3 + packed.len());
    assert(list.len() == r@.len());
    assert(list[0] == r@[0]@ && list[1] == r@[1]@ && list[2] == r@[2]@);
    assert forall|k: int| 0 <= k < at.len() implies (#[trigger] entries@[at[k]])@ == r@[3 + k]@ by {
        assert(list[3 + k] == packed[k]);
        assert(list[3 + k] == r@[3 + k]@);
    }
}

} // verus!
