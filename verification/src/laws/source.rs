//! Comments, literals and braces of a Java source.

use vstd::prelude::*;

use crate::pattern::name_character;
use crate::source::{is_code, is_top_level, open_braces, place_after, place_of, top_level, Place};
use crate::text::lacks;

verus! {

/// `piece` leaves the program where it was: after it comes the program itself
/// again, with as many braces open as before.
pub open spec fn leaves(before: Seq<char>, piece: Seq<char>) -> bool {
    &&& place_of(before + piece) == Place::Code
    &&& open_braces(before + piece) == open_braces(before)
}

proof fn lemma_push(s: Seq<char>, c: char)
    ensures
        place_of(s.push(c)) == place_after(place_of(s), c),
        open_braces(s.push(c)) == if is_code(place_of(s), c) && c == '{' {
            open_braces(s) + 1
        } else if is_code(place_of(s), c) && c == '}' && open_braces(s) > 0 {
            (open_braces(s) - 1) as nat
        } else {
            open_braces(s)
        },
{
    assert(s.push(c).drop_last() =~= s);
}

/// A source begins with the program itself, outside of all braces.
pub proof fn law_source_begins()
    ensures
        place_of(Seq::<char>::empty()) == Place::Code,
        open_braces(Seq::<char>::empty()) == 0,
{
}

/// In the program itself a brace opens, and a brace closes one that is open. Any
/// other character but a slash, a quote and an apostrophe leaves the program where
/// it was.
pub proof fn law_code(before: Seq<char>, c: char)
    requires
        place_of(before) == Place::Code,
        c != '/' && c != '"' && c != '\'',
    ensures
        place_of(before.push(c)) == Place::Code,
        c == '{' ==> open_braces(before.push(c)) == open_braces(before) + 1,
        c == '}' && open_braces(before) > 0 ==> open_braces(before.push(c)) + 1 == open_braces(
            before,
        ),
        c == '}' && open_braces(before) == 0 ==> open_braces(before.push(c)) == 0,
        c != '{' && c != '}' ==> open_braces(before.push(c)) == open_braces(before),
{
    lemma_push(before, c);
}

/// A slash that begins no comment changes nothing for what comes after it.
pub proof fn law_slash(before: Seq<char>, c: char)
    requires
        place_of(before) == Place::Code,
        c != '/' && c != '*',
    ensures
        !top_level(before.push('/')),
        place_of(before.push('/').push(c)) == place_of(before.push(c)),
        open_braces(before.push('/').push(c)) == open_braces(before.push(c)),
{
    lemma_push(before, '/');
    lemma_push(before.push('/'), c);
    lemma_push(before, c);
}

proof fn lemma_line_comment(before: Seq<char>, comment: Seq<char>)
    requires
        place_of(before) == Place::Code,
        lacks(comment, '\n'),
        lacks(comment, '\r'),
    ensures
        place_of(before + (seq!['/', '/'] + comment)) == Place::LineComment,
        open_braces(before + (seq!['/', '/'] + comment)) == open_braces(before),
    decreases comment.len(),
{
    let s = before + (seq!['/', '/'] + comment);
    if comment.len() == 0 {
        lemma_push(before, '/');
        lemma_push(before.push('/'), '/');
        assert(s =~= before.push('/').push('/'));
    } else {
        let shorter = before + (seq!['/', '/'] + comment.drop_last());
        lemma_line_comment(before, comment.drop_last());
        lemma_push(shorter, comment.last());
        assert(s =~= shorter.push(comment.last()));
    }
}

/// A comment up to the end of a line leaves the program where it was, whatever is
/// in it; before the end of the line nothing in it belongs to the program.
pub proof fn law_line_comment(before: Seq<char>, comment: Seq<char>)
    requires
        place_of(before) == Place::Code,
        lacks(comment, '\n'),
        lacks(comment, '\r'),
    ensures
        !top_level(before + (seq!['/', '/'] + comment)),
        leaves(before, seq!['/', '/'] + (comment + seq!['\n'])),
        leaves(before, seq!['/', '/'] + (comment + seq!['\r'])),
{
    lemma_line_comment(before, comment);
    let s = before + (seq!['/', '/'] + comment);
    lemma_push(s, '\n');
    lemma_push(s, '\r');
    assert(s.push('\n') =~= before + (seq!['/', '/'] + (comment + seq!['\n'])));
    assert(s.push('\r') =~= before + (seq!['/', '/'] + (comment + seq!['\r'])));
}

/// `*/` does not occur in `s`.
pub open spec fn unclosed(s: Seq<char>) -> bool {
    forall|i: int| 0 <= i < s.len() - 1 && #[trigger] s[i] == '*' ==> s[i + 1] != '/'
}

proof fn lemma_block_comment(before: Seq<char>, comment: Seq<char>)
    requires
        place_of(before) == Place::Code,
        unclosed(comment),
    ensures
        ({
            let s = before + (seq!['/', '*'] + comment);
            &&& place_of(s) == if comment.len() > 0 && comment.last() == '*' {
                Place::BlockCommentStar
            } else {
                Place::BlockComment
            }
            &&& open_braces(s) == open_braces(before)
        }),
    decreases comment.len(),
{
    let s = before + (seq!['/', '*'] + comment);
    if comment.len() == 0 {
        lemma_push(before, '/');
        lemma_push(before.push('/'), '*');
        assert(s =~= before.push('/').push('*'));
    } else {
        let earlier = comment.drop_last();
        let shorter = before + (seq!['/', '*'] + earlier);
        assert forall|i: int|
            0 <= i < earlier.len() - 1 && #[trigger] earlier[i] == '*' implies earlier[i + 1]
            != '/' by {
            assert(comment[i] == '*');
        }
        lemma_block_comment(before, earlier);
        lemma_push(shorter, comment.last());
        assert(s =~= shorter.push(comment.last()));
        if earlier.len() > 0 && earlier.last() == '*' {
            assert(comment[comment.len() - 2] == '*');
        }
    }
}

/// A comment between `/*` and `*/` leaves the program where it was, whatever is in
/// it; before it is closed nothing in it belongs to the program.
pub proof fn law_block_comment(before: Seq<char>, comment: Seq<char>)
    requires
        place_of(before) == Place::Code,
        unclosed(comment),
    ensures
        !top_level(before + (seq!['/', '*'] + comment)),
        leaves(before, seq!['/', '*'] + (comment + seq!['*', '/'])),
{
    lemma_block_comment(before, comment);
    let s = before + (seq!['/', '*'] + comment);
    lemma_push(s, '*');
    lemma_push(s.push('*'), '/');
    assert(s.push('*').push('/') =~= before + (seq!['/', '*'] + (comment + seq!['*', '/'])));
}

/// `s` is made of characters other than `end`, line feeds and backslashes, and of
/// backslashes with any character after each.
pub open spec fn literal(s: Seq<char>, end: char) -> bool
    decreases s.len(),
{
    if s.len() == 0 {
        true
    } else if s.len() > 1 && s[s.len() - 2] == '\\' && literal(s.take(s.len() - 2), end) {
        true
    } else {
        s.last() != end && s.last() != '\n' && s.last() != '\\' && literal(s.drop_last(), end)
    }
}

proof fn lemma_text(before: Seq<char>, text: Seq<char>)
    requires
        place_of(before) == Place::Code,
        literal(text, '"'),
    ensures
        ({
            let s = before + (seq!['"'] + text);
            &&& place_of(s) == if text.len() == 0 {
                Place::Quote
            } else {
                Place::Text
            }
            &&& open_braces(s) == open_braces(before)
        }),
    decreases text.len(),
{
    let s = before + (seq!['"'] + text);
    if text.len() == 0 {
        lemma_push(before, '"');
        assert(s =~= before.push('"'));
    } else if text.len() > 1 && text[text.len() - 2] == '\\' && literal(
        text.take(text.len() - 2),
        '"',
    ) {
        let shorter = before + (seq!['"'] + text.take(text.len() - 2));
        lemma_text(before, text.take(text.len() - 2));
        lemma_push(shorter, '\\');
        lemma_push(shorter.push('\\'), text.last());
        assert(s =~= shorter.push('\\').push(text.last()));
    } else {
        let shorter = before + (seq!['"'] + text.drop_last());
        lemma_text(before, text.drop_last());
        lemma_push(shorter, text.last());
        assert(s =~= shorter.push(text.last()));
    }
}

/// A text in quotes leaves the program where it was, whatever is in it; before it
/// is closed nothing in it belongs to the program. The end of a line closes it too.
pub proof fn law_text_literal(before: Seq<char>, text: Seq<char>)
    requires
        place_of(before) == Place::Code,
        literal(text, '"'),
        text.len() > 0,
    ensures
        !top_level(before + (seq!['"'] + text)),
        !top_level((before + (seq!['"'] + text)).push('\\')),
        leaves(before, seq!['"'] + (text + seq!['"'])),
        leaves(before, seq!['"'] + (text + seq!['\n'])),
{
    lemma_text(before, text);
    let s = before + (seq!['"'] + text);
    lemma_push(s, '"');
    lemma_push(s, '\n');
    lemma_push(s, '\\');
    assert(s.push('\n') =~= before + (seq!['"'] + (text + seq!['\n'])));
    assert(s.push('"') =~= before + (seq!['"'] + (text + seq!['"'])));
}

/// An empty text changes nothing for what comes after it.
pub proof fn law_empty_text(before: Seq<char>, c: char)
    requires
        place_of(before) == Place::Code,
        c != '"',
    ensures
        !top_level(before.push('"')),
        !top_level(before.push('"').push('"')),
        place_of(before.push('"').push('"').push(c)) == place_of(before.push(c)),
        open_braces(before.push('"').push('"').push(c)) == open_braces(before.push(c)),
{
    lemma_push(before, '"');
    lemma_push(before.push('"'), '"');
    lemma_push(before.push('"').push('"'), c);
    lemma_push(before, c);
}

proof fn lemma_character(before: Seq<char>, text: Seq<char>)
    requires
        place_of(before) == Place::Code,
        literal(text, '\''),
    ensures
        ({
            let s = before + (seq!['\''] + text);
            &&& place_of(s) == Place::Character
            &&& open_braces(s) == open_braces(before)
        }),
    decreases text.len(),
{
    let s = before + (seq!['\''] + text);
    if text.len() == 0 {
        lemma_push(before, '\'');
        assert(s =~= before.push('\''));
    } else if text.len() > 1 && text[text.len() - 2] == '\\' && literal(
        text.take(text.len() - 2),
        '\'',
    ) {
        let shorter = before + (seq!['\''] + text.take(text.len() - 2));
        lemma_character(before, text.take(text.len() - 2));
        lemma_push(shorter, '\\');
        lemma_push(shorter.push('\\'), text.last());
        assert(s =~= shorter.push('\\').push(text.last()));
    } else {
        let shorter = before + (seq!['\''] + text.drop_last());
        lemma_character(before, text.drop_last());
        lemma_push(shorter, text.last());
        assert(s =~= shorter.push(text.last()));
    }
}

/// A character in apostrophes leaves the program where it was, whatever it is;
/// before it is closed nothing in it belongs to the program. The end of a line
/// closes it too.
pub proof fn law_character_literal(before: Seq<char>, text: Seq<char>)
    requires
        place_of(before) == Place::Code,
        literal(text, '\''),
    ensures
        !top_level(before + (seq!['\''] + text)),
        !top_level((before + (seq!['\''] + text)).push('\\')),
        leaves(before, seq!['\''] + (text + seq!['\''])),
        leaves(before, seq!['\''] + (text + seq!['\n'])),
{
    lemma_character(before, text);
    let s = before + (seq!['\''] + text);
    lemma_push(s, '\'');
    lemma_push(s, '\n');
    lemma_push(s, '\\');
    assert(s.push('\n') =~= before + (seq!['\''] + (text + seq!['\n'])));
    assert(s.push('\'') =~= before + (seq!['\''] + (text + seq!['\''])));
}

proof fn lemma_text_block(before: Seq<char>, text: Seq<char>)
    requires
        place_of(before) == Place::Code,
        lacks(text, '"'),
        lacks(text, '\\'),
    ensures
        ({
            let s = before + (seq!['"', '"', '"'] + text);
            &&& place_of(s) == Place::TextBlock
            &&& open_braces(s) == open_braces(before)
        }),
    decreases text.len(),
{
    let s = before + (seq!['"', '"', '"'] + text);
    if text.len() == 0 {
        lemma_push(before, '"');
        lemma_push(before.push('"'), '"');
        lemma_push(before.push('"').push('"'), '"');
        assert(s =~= before.push('"').push('"').push('"'));
    } else {
        let shorter = before + (seq!['"', '"', '"'] + text.drop_last());
        lemma_text_block(before, text.drop_last());
        lemma_push(shorter, text.last());
        assert(s =~= shorter.push(text.last()));
    }
}

/// A text block without quotes and backslashes leaves the program where it was,
/// whatever else is in it; before it is closed nothing in it belongs to the
/// program.
pub proof fn law_text_block(before: Seq<char>, text: Seq<char>)
    requires
        place_of(before) == Place::Code,
        lacks(text, '"'),
        lacks(text, '\\'),
    ensures
        !top_level(before + (seq!['"', '"', '"'] + text)),
        leaves(before, seq!['"', '"', '"'] + (text + seq!['"', '"', '"'])),
{
    lemma_text_block(before, text);
    let s = before + (seq!['"', '"', '"'] + text);
    lemma_push(s, '"');
    lemma_push(s.push('"'), '"');
    lemma_push(s.push('"').push('"'), '"');
    assert(s.push('"').push('"').push('"') =~= before + (seq!['"', '"', '"'] + (text
        + seq!['"', '"', '"'])));
}

/// `piece` stays in the text block that it stands in.
pub open spec fn stays_in_block(before: Seq<char>, piece: Seq<char>) -> bool {
    &&& place_of(before + piece) == Place::TextBlock
    &&& open_braces(before + piece) == open_braces(before)
}

/// Within a text block three quotes close it. Up to two of them, and a character
/// behind a backslash, do not; none of it belongs to the program.
pub proof fn law_in_text_block(before: Seq<char>, c: char, any: char)
    requires
        place_of(before) == Place::TextBlock,
        c != '"' && c != '\\',
    ensures
        leaves(before, seq!['"', '"', '"']),
        stays_in_block(before, seq![c]),
        stays_in_block(before, seq!['"', c]),
        stays_in_block(before, seq!['"', '"', c]),
        stays_in_block(before, seq!['\\', any]),
        stays_in_block(before, seq!['"', '\\', any]),
        stays_in_block(before, seq!['"', '"', '\\', any]),
        !top_level(before),
        !top_level(before + seq!['"']),
        !top_level(before + seq!['"', '"']),
        !top_level(before + seq!['\\']),
        !top_level(before + seq!['"', '\\']),
        !top_level(before + seq!['"', '"', '\\']),
{
    let one = before.push('"');
    let two = one.push('"');
    let slash = before.push('\\');
    let one_slash = one.push('\\');
    let two_slash = two.push('\\');
    lemma_push(before, '"');
    lemma_push(one, '"');
    lemma_push(two, '"');
    lemma_push(before, c);
    lemma_push(one, c);
    lemma_push(two, c);
    lemma_push(before, '\\');
    lemma_push(one, '\\');
    lemma_push(two, '\\');
    lemma_push(slash, any);
    lemma_push(one_slash, any);
    lemma_push(two_slash, any);
    assert(before + seq!['"'] =~= one);
    assert(before + seq!['"', '"'] =~= two);
    assert(before + seq!['"', '"', '"'] =~= two.push('"'));
    assert(before + seq![c] =~= before.push(c));
    assert(before + seq!['"', c] =~= one.push(c));
    assert(before + seq!['"', '"', c] =~= two.push(c));
    assert(before + seq!['\\'] =~= slash);
    assert(before + seq!['"', '\\'] =~= one_slash);
    assert(before + seq!['"', '"', '\\'] =~= two_slash);
    assert(before + seq!['\\', any] =~= slash.push(any));
    assert(before + seq!['"', '\\', any] =~= one_slash.push(any));
    assert(before + seq!['"', '"', '\\', any] =~= two_slash.push(any));
}

/// Three quotes begin a text block.
pub proof fn law_text_block_begins(before: Seq<char>)
    requires
        place_of(before) == Place::Code,
    ensures
        stays_in_block(before, seq!['"', '"', '"']),
{
    lemma_text_block(before, Seq::<char>::empty());
    assert(seq!['"', '"', '"'] + Seq::<char>::empty() =~= seq!['"', '"', '"']);
}

/// A word of the program begins outside of all braces where the program itself is
/// there, no brace is open, and no character of a word comes right before.
pub proof fn law_top_level(chars: &Vec<char>, to: usize, r: bool)
    requires
        to <= chars@.len(),
        call_ensures(is_top_level, (chars, to), r),
    ensures
        r <==> {
            let s = chars@.take(to as int);
            &&& place_of(s) == Place::Code
            &&& open_braces(s) == 0
            &&& s.len() == 0 || !(name_character(s.last()) || s.last() as u32 >= 0x80)
        },
{
}

} // verus!
