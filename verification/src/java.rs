//! The name of a Java program's class, and the files that are named after it.

use vstd::prelude::*;

use crate::pattern::{
    class_declaration, class_match, class_modifiers, class_name, class_splits, fixed_captures, gap,
    group_text, groups_of, lemma_groups, modified, modifier_word, name_character, ClassParts,
    ModifierParts, JAVA_CLASS,
};
use crate::source::{is_top_level, top_level};
use crate::text::{
    characters, ends_with_text, is_white_space, lemma_same_cut, lemma_same_run, occurs_at, occurs_in, text_between,
    texts,
};

verus! {

/// `content` declares a class with the parts `p` that can give it its name: one
/// with modifiers stands outside of braces, comments and literals.
pub open spec fn class_counts(content: Seq<char>, p: ClassParts) -> bool {
    &&& class_splits(content, p)
    &&& p.modifiers.len() == 0 || top_level(p.before)
}

/// The parts `p` are those of the first class that counts, with all of its name.
pub open spec fn class_first(content: Seq<char>, p: ClassParts) -> bool {
    &&& class_counts(content, p)
    &&& forall|q: ClassParts| #[trigger]
        class_counts(content, q) ==> {
            &&& p.before.len() <= q.before.len()
            &&& p.before.len() == q.before.len() ==> q.name.len() <= p.name.len()
        }
}

/// The name of the public class that a source declares; `Main` for none.
pub open spec fn class_of(content: Seq<char>) -> Seq<char> {
    if exists|p: ClassParts| class_first(content, p) {
        (choose|p: ClassParts| class_first(content, p)).name
    } else {
        "Main"@
    }
}

/// A modifier has no white space in it and is not the start of `class`.
proof fn lemma_modifier(word: Seq<char>)
    requires
        modifier_word(word),
    ensures
        word.len() > 0,
        word[0] != 'c',
        forall|i: int| 0 <= i < word.len() ==> !is_white_space(#[trigger] word[i]),
{
    reveal_strlit("abstract");
    reveal_strlit("final");
    reveal_strlit("sealed");
    reveal_strlit("non-sealed");
    reveal_strlit("strictfp");
}

/// What comes after a gap before `class` or a modifier begins with no white
/// space, and with a `c` where there is no modifier.
proof fn lemma_modified_begins(modifiers: Seq<ModifierParts>, rest: Seq<char>)
    requires
        class_modifiers(modifiers),
        rest.len() > 0,
        rest[0] == 'c',
    ensures
        modified(modifiers, rest).len() > 0,
        !is_white_space(modified(modifiers, rest)[0]),
        modified(modifiers, rest)[0] == 'c' <==> modifiers.len() == 0,
{
    if modifiers.len() > 0 {
        lemma_modifier(modifiers[0].word);
        assert(modified(modifiers, rest)[0] == modifiers[0].word[0]);
    }
}

/// Modifiers are some text, and no modifiers are none.
proof fn lemma_modifiers_shown(modifiers: Seq<ModifierParts>)
    requires
        class_modifiers(modifiers),
    ensures
        modified(modifiers, seq![]).len() == 0 <==> modifiers.len() == 0,
{
    if modifiers.len() > 0 {
        lemma_modifier(modifiers[0].word);
    }
}

/// Modifiers before `class` are read in one way.
proof fn lemma_same_modifiers(
    a: Seq<ModifierParts>,
    x: Seq<char>,
    b: Seq<ModifierParts>,
    y: Seq<char>,
)
    requires
        class_modifiers(a),
        class_modifiers(b),
        x.len() > 0,
        x[0] == 'c',
        y.len() > 0,
        y[0] == 'c',
        modified(a, x) == modified(b, y),
    ensures
        x == y,
        a.len() == 0 <==> b.len() == 0,
    decreases a.len(),
{
    lemma_modified_begins(a, x);
    lemma_modified_begins(b, y);
    if a.len() > 0 {
        let a1 = modified(a.skip(1), x);
        let b1 = modified(b.skip(1), y);
        assert(modifier_word(a[0].word) && gap(a[0].space));
        assert(modifier_word(b[0].word) && gap(b[0].space));
        lemma_modifier(a[0].word);
        lemma_modifier(b[0].word);
        assert((a[0].space + a1)[0] == a[0].space[0]);
        assert((b[0].space + b1)[0] == b[0].space[0]);
        lemma_same_run(
            a[0].word,
            a[0].space + a1,
            b[0].word,
            b[0].space + b1,
            |c: char| !is_white_space(c),
        );
        lemma_rest_modifiers(a);
        lemma_rest_modifiers(b);
        lemma_modified_begins(a.skip(1), x);
        lemma_modified_begins(b.skip(1), y);
        lemma_same_run(a[0].space, a1, b[0].space, b1, |c: char| is_white_space(c));
        lemma_same_modifiers(a.skip(1), x, b.skip(1), y);
    }
}

/// What follows on the first modifier are modifiers too.
proof fn lemma_rest_modifiers(a: Seq<ModifierParts>)
    requires
        class_modifiers(a),
        a.len() > 0,
    ensures
        class_modifiers(a.skip(1)),
{
    assert forall|i: int| 0 <= i < a.skip(1).len() implies modifier_word(
        (#[trigger] a.skip(1)[i]).word,
    ) && gap(a.skip(1)[i].space) by {
        assert(a.skip(1)[i] == a[i + 1]);
    }
}

/// Two splits that begin in the same place differ at most in where the name
/// ends.
proof fn lemma_class_cut(text: Seq<char>, p: ClassParts, q: ClassParts)
    requires
        class_splits(text, p),
        class_splits(text, q),
        p.before.len() == q.before.len(),
    ensures
        p.before == q.before,
        p.modifiers.len() == 0 <==> q.modifiers.len() == 0,
        p.name + p.after == q.name + q.after,
{
    reveal_strlit("class");
    let p4 = p.name + p.after;
    let q4 = q.name + q.after;
    let p3 = "class"@ + (p.name_gap + p4);
    let q3 = "class"@ + (q.name_gap + q4);
    let p2 = modified(p.modifiers, p3);
    let q2 = modified(q.modifiers, q3);
    let p1 = "public"@ + (p.public_gap + p2);
    let q1 = "public"@ + (q.public_gap + q2);
    let space = |c: char| is_white_space(c);
    lemma_same_cut(p.before, p1, q.before, q1);
    lemma_same_cut("public"@, p.public_gap + p2, "public"@, q.public_gap + q2);
    assert(p3[0] == 'c');
    assert(q3[0] == 'c');
    lemma_modified_begins(p.modifiers, p3);
    lemma_modified_begins(q.modifiers, q3);
    lemma_same_run(p.public_gap, p2, q.public_gap, q2, space);
    lemma_same_modifiers(p.modifiers, p3, q.modifiers, q3);
    lemma_same_cut("class"@, p.name_gap + p4, "class"@, q.name_gap + q4);
    assert(p4[0] == p.name[0] && name_character(p.name[0]));
    assert(q4[0] == q.name[0] && name_character(q.name[0]));
    lemma_same_run(p.name_gap, p4, q.name_gap, q4, space);
}

/// A source has one name at most.
proof fn lemma_class_unique(text: Seq<char>, p: ClassParts, q: ClassParts)
    requires
        class_first(text, p),
        class_first(text, q),
    ensures
        p.name == q.name,
{
    lemma_class_cut(text, p, q);
    lemma_same_cut(p.name, p.after, q.name, q.after);
}

/// Where a split's `public` stands.
proof fn lemma_public_occurs(text: Seq<char>, p: ClassParts)
    requires
        class_splits(text, p),
    ensures
        occurs_at(text, "public"@, p.before.len() as int),
{
    let at = p.before.len() as int;
    let rest = p.public_gap + modified(p.modifiers, "class"@ + (p.name_gap + (p.name + p.after)));
    assert(text == p.before + ("public"@ + rest));
    assert(text.subrange(at, at + "public"@.len()) == "public"@);
}

/// The first public class that counts gives the source its name, which ends
/// where its characters end.
pub proof fn law_class_declared(text: Seq<char>, p: ClassParts)
    requires
        class_counts(text, p),
        p.after.len() > 0 ==> !name_character(p.after[0]),
        forall|q: ClassParts| #[trigger]
            class_counts(text, q) ==> p.before.len() <= q.before.len(),
    ensures
        class_of(text) == p.name,
{
    assert forall|q: ClassParts| #[trigger] class_counts(text, q) implies {
        &&& p.before.len() <= q.before.len()
        &&& p.before.len() == q.before.len() ==> q.name.len() <= p.name.len()
    } by {
        if p.before.len() == q.before.len() && q.name.len() > p.name.len() {
            lemma_class_cut(text, p, q);
            let at = p.name.len() as int;
            assert((q.name + q.after)[at] == q.name[at]);
            assert((p.name + p.after)[at] == p.after[0]);
        }
    }
    assert(class_first(text, p));
    lemma_class_unique(text, p, choose|q: ClassParts| class_first(text, q));
}

/// Outside of braces, comments and literals a public class gives the source its
/// name whatever modifiers it has, where no `public` comes before its own.
pub proof fn law_class_modifiers(text: Seq<char>, p: ClassParts)
    requires
        class_splits(text, p),
        top_level(p.before),
        p.after.len() > 0 ==> !name_character(p.after[0]),
        forall|at: int| #[trigger] occurs_at(text, "public"@, at) ==> p.before.len() <= at,
    ensures
        class_of(text) == p.name,
{
    assert forall|q: ClassParts| #[trigger] class_counts(text, q) implies p.before.len()
        <= q.before.len() by {
        lemma_public_occurs(text, q);
    }
    law_class_declared(text, p);
}

/// Within braces, comments and literals a class with modifiers does not give the
/// source its name.
pub proof fn law_class_nested(text: Seq<char>)
    requires
        forall|p: ClassParts| #[trigger]
            class_splits(text, p) ==> p.modifiers.len() > 0 && !top_level(p.before),
    ensures
        class_of(text) == "Main"@,
{
}

/// The name of a class is no longer than the source.
proof fn lemma_name_fits(text: Seq<char>, p: ClassParts)
    requires
        class_splits(text, p),
    ensures
        p.name.len() <= text.len(),
{
    lemma_modified_length(p.modifiers, "class"@ + (p.name_gap + (p.name + p.after)));
}

/// Modifiers make a text no shorter.
proof fn lemma_modified_length(modifiers: Seq<ModifierParts>, rest: Seq<char>)
    ensures
        modified(modifiers, rest).len() >= rest.len(),
    decreases modifiers.len(),
{
    if modifiers.len() > 0 {
        lemma_modified_length(modifiers.skip(1), rest);
    }
}

/// Where a source declares public classes that count, one of them comes first.
proof fn lemma_class_found(text: Seq<char>, p: ClassParts)
    requires
        class_counts(text, p),
    ensures
        exists|q: ClassParts| class_first(text, q),
    decreases p.before.len(), text.len() - p.name.len(),
{
    if !class_first(text, p) {
        let q = choose|q: ClassParts| #[trigger]
            class_counts(text, q) && !{
                &&& p.before.len() <= q.before.len()
                &&& p.before.len() == q.before.len() ==> q.name.len() <= p.name.len()
            };
        if p.before.len() == q.before.len() {
            lemma_name_fits(text, q);
        }
        lemma_class_found(text, q);
    }
}

/// A source that declares no public class that counts is called `Main`; any
/// other has the name of one that it declares.
pub proof fn law_class_fallback(text: Seq<char>)
    ensures
        (forall|p: ClassParts| !class_counts(text, p)) ==> class_of(text) == "Main"@,
        (exists|p: ClassParts| class_counts(text, p)) ==> exists|p: ClassParts| #[trigger]
            class_counts(text, p) && class_of(text) == p.name,
{
    if exists|p: ClassParts| class_counts(text, p) {
        lemma_class_found(text, choose|p: ClassParts| class_counts(text, p));
        assert(class_counts(text, choose|p: ClassParts| class_first(text, p)));
    }
}

/// A source in which `public` does not occur is called `Main`.
pub proof fn law_class_default(text: Seq<char>)
    requires
        !occurs_in(text, "public"@),
    ensures
        class_of(text) == "Main"@,
{
    assert forall|p: ClassParts| !class_first(text, p) by {
        if class_first(text, p) {
            lemma_public_occurs(text, p);
        }
    }
}

/// A source's name is made of the characters of a name, of which there is one
/// at least.
pub proof fn law_class_valid(text: Seq<char>)
    ensures
        class_name(class_of(text)),
{
    reveal_strlit("Main");
}

/// A split of what comes after `from` characters is a split of the whole.
proof fn lemma_class_lift(text: Seq<char>, from: int, p: ClassParts) -> (q: ClassParts)
    requires
        0 <= from <= text.len(),
        class_splits(text.skip(from), p),
    ensures
        q == (ClassParts { before: text.take(from) + p.before, ..p }),
        class_splits(text, q),
        q.before == text.take(from + p.before.len()),
        from + p.before.len() < text.len(),
{
    let q = ClassParts { before: text.take(from) + p.before, ..p };
    let tail = class_declaration(p, p.after);
    reveal_strlit("public");
    assert(tail.len() > 0);
    assert(class_declaration(q, q.after) == tail);
    assert(text == text.take(from) + text.skip(from));
    assert(text == q.before + tail);
    assert(text.take(from + p.before.len()) == q.before);
    q
}

/// A split that begins after `from` characters is one of what comes after them.
proof fn lemma_class_lower(text: Seq<char>, from: int, q: ClassParts) -> (p: ClassParts)
    requires
        class_splits(text, q),
        0 <= from <= q.before.len(),
    ensures
        p == (ClassParts { before: q.before.skip(from), ..q }),
        class_splits(text.skip(from), p),
{
    let p = ClassParts { before: q.before.skip(from), ..q };
    assert(class_declaration(p, p.after) == class_declaration(q, q.after));
    assert(text.skip(from) == p.before + class_declaration(p, p.after));
    p
}

/// The name of the public class that a source declares. Falls back to `Main`
/// where there is none.
///
/// The first declaration counts. One with modifiers between `public` and `class`
/// counts only outside of braces, comments and literals; one without them counts
/// wherever it stands. A name is read as far as ASCII letters, digits, underscores
/// and dollar signs go.
pub fn get_class_name(content: &str) -> (r: String)
    ensures
        r@ == class_of(content@),
{
    let chars = characters(content);
    let ghost text = content@;
    let total: usize = chars.len();
    let mut from: usize = 0;
    while from < total
        invariant
            text == content@,
            chars@ == text,
            total == text.len(),
            from <= total,
            forall|q: ClassParts| #[trigger] class_counts(text, q) ==> from <= q.before.len(),
        decreases total - from,
    {
        let rest = text_between(&chars, from, total);
        assert(rest@ == text.skip(from as int));
        let g = match fixed_captures(JAVA_CLASS, rest.as_str()) {
            Some(g) => g,
            None => {
                proof {
                    assert forall|q: ClassParts| !class_counts(text, q) by {
                        if class_counts(text, q) {
                            let p = lemma_class_lower(text, from as int, q);
                        }
                    }
                }
                return "Main".to_owned();
            },
        };
        let ghost p = choose|p: ClassParts| #[trigger]
            class_match(rest@, p) && groups_of(Some(g)) == Some(
                seq![
                    Some(p.before + class_declaration(p, seq![])),
                    Some(p.before),
                    Some(modified(p.modifiers, seq![])),
                    Some(p.name),
                ],
            );
        let ghost found = lemma_class_lift(text, from as int, p);
        proof {
            lemma_groups(g);
            lemma_modifiers_shown(p.modifiers);
            assert forall|q: ClassParts| #[trigger] class_counts(text, q) implies {
                &&& found.before.len() <= q.before.len()
                &&& found.before.len() == q.before.len() ==> q.name.len() <= found.name.len()
            } by {
                let lowered = lemma_class_lower(text, from as int, q);
                assert(class_splits(rest@, lowered));
            }
        }
        let before = characters(group_text(&g, 1).as_str());
        let modifiers = characters(group_text(&g, 2).as_str());
        let at: usize = from + before.len();
        if modifiers.len() == 0 || is_top_level(&chars, at) {
            proof {
                assert(class_first(text, found));
                lemma_class_unique(text, found, choose|q: ClassParts| class_first(text, q));
            }
            return group_text(&g, 3);
        }
        proof {
            assert forall|q: ClassParts| #[trigger] class_counts(text, q) implies at + 1
                <= q.before.len() by {
                if q.before.len() == at {
                    lemma_class_cut(text, found, q);
                }
            }
        }
        from = at + 1;
    }
    proof {
        assert forall|q: ClassParts| !class_counts(text, q) by {
            if class_counts(text, q) {
                lemma_public_occurs(text, q);
                reveal_strlit("public");
            }
        }
    }
    "Main".to_owned()
}

/// The name that the source file of a class must have.
pub fn java_file_name(class: &str) -> (r: String)
    ensures
        r@ == class@ + ".java"@,
{
    let mut name = class.to_owned();
    name.append(".java");
    name
}

/// The manifest of an archive that runs a class.
pub open spec fn manifest_of(class: Seq<char>) -> Seq<char> {
    "Manifest-Version: 1.0\nMain-Class: "@ + class + seq!['\n']
}

/// The manifest of an archive that runs a class.
pub fn manifest_text(class: &str) -> (r: String)
    ensures
        r@ == manifest_of(class@),
{
    let mut manifest = "Manifest-Version: 1.0\nMain-Class: ".to_owned();
    manifest.append(class);
    manifest.push('\n');
    assert(manifest@ == manifest_of(class@));
    manifest
}

/// `name` ends with `.class`.
pub open spec fn class_file(name: Seq<char>) -> bool {
    occurs_at(name, ".class"@, name.len() - ".class"@.len())
}

/// The arguments with which `jar` packs the class files among `entries`.
pub open spec fn jar_arguments_of(
    output: Seq<char>,
    manifest: Seq<char>,
    entries: Seq<Seq<char>>,
) -> Seq<Seq<char>> {
    seq!["cfm"@, output, manifest] + entries.filter(|name: Seq<char>| class_file(name))
}

/// The arguments with which `jar` packs the class files of a directory, given
/// the names of all its entries.
pub fn jar_arguments(output: &str, manifest: &str, entries: &Vec<String>) -> (r: Vec<String>)
    ensures
        texts(r@) == jar_arguments_of(output@, manifest@, texts(entries@)),
{
    let ghost all = texts(entries@);
    let ghost kept = |name: Seq<char>| class_file(name);
    let ghost head = seq!["cfm"@, output@, manifest@];
    let mut arguments: Vec<String> = Vec::new();
    arguments.push("cfm".to_owned());
    arguments.push(output.to_owned());
    arguments.push(manifest.to_owned());
    assert(texts(arguments@) == head);
    proof {
        reveal(Seq::filter);
        assert(all.take(0).filter(kept) == Seq::<Seq<char>>::empty());
        assert(head + Seq::<Seq<char>>::empty() == head);
    }
    let mut i: usize = 0;
    while i < entries.len()
        invariant
            all == texts(entries@),
            kept == (|name: Seq<char>| class_file(name)),
            i <= entries@.len(),
            texts(arguments@) == head + all.take(i as int).filter(kept),
        decreases entries@.len() - i,
    {
        let ghost done = texts(arguments@);
        proof {
            reveal(Seq::filter);
            assert(all.take(i + 1).drop_last() == all.take(i as int));
            assert(all[i as int] == entries@[i as int]@);
            assert(all.take(i + 1).last() == all[i as int]);
        }
        if ends_with_text(entries[i].as_str(), ".class") {
            arguments.push(entries[i].clone());
            assert(texts(arguments@) == done.push(all[i as int]));
        }
        i += 1;
    }
    assert(all.take(i as int) == all);
    arguments
}

proof fn lemma_filtered_from(
    list: Seq<Seq<char>>,
    kept: spec_fn(Seq<char>) -> bool,
    name: Seq<char>,
)
    requires
        list.filter(kept).contains(name),
    ensures
        list.contains(name),
        kept(name),
    decreases list.len(),
{
    reveal(Seq::filter);
    if list.len() > 0 {
        let earlier = list.drop_last();
        if earlier.filter(kept).contains(name) {
            lemma_filtered_from(earlier, kept, name);
            let i = choose|i: int| 0 <= i < earlier.len() && earlier[i] == name;
            assert(list[i] == name);
        } else {
            let i = choose|i: int| 0 <= i < list.filter(kept).len() && list.filter(kept)[i] == name;
            if i < earlier.filter(kept).len() {
                assert(earlier.filter(kept)[i] == name);
            }
            assert(list[list.len() - 1] == name);
        }
    }
}

/// Every class file of the directory is packed, and nothing else.
pub proof fn law_jar_packs_classes(
    output: Seq<char>,
    manifest: Seq<char>,
    entries: Seq<Seq<char>>,
    name: Seq<char>,
)
    ensures
        jar_arguments_of(output, manifest, entries).skip(3).contains(name) <==> entries.contains(
            name,
        ) && class_file(name),
{
    let kept = |name: Seq<char>| class_file(name);
    assert(jar_arguments_of(output, manifest, entries).skip(3) == entries.filter(kept));
    if entries.contains(name) && class_file(name) {
        let i = choose|i: int| 0 <= i < entries.len() && entries[i] == name;
        entries.lemma_filter_contains(kept, i);
    }
    if entries.filter(kept).contains(name) {
        lemma_filtered_from(entries, kept, name);
    }
}

} // verus!
