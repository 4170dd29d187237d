//! What surrounds a place in a Java source: comments, literals and braces.

use vstd::prelude::*;

use crate::pattern::name_character;

verus! {

/// What the next character of a source belongs to.
#[derive(Clone, Copy, Debug, PartialEq, Eq, Structural)]
pub enum Place {
    /// The program itself.
    Code,
    /// The program, after a slash.
    Slash,
    /// A comment up to the end of the line.
    LineComment,
    /// A comment up to `*/`.
    BlockComment,
    /// Such a comment, after a star.
    BlockCommentStar,
    /// A text, after the quote that opens it.
    Quote,
    /// An empty text, or a text block, after two quotes.
    QuoteQuote,
    /// A text up to the next quote.
    Text,
    /// A text, after a backslash.
    TextEscape,
    /// A text block up to three quotes.
    TextBlock,
    /// A text block, after a backslash.
    TextBlockEscape,
    /// A text block, after a quote.
    TextBlockQuote,
    /// A text block, after two quotes.
    TextBlockQuoteQuote,
    /// A character up to the next apostrophe.
    Character,
    /// A character, after a backslash.
    CharacterEscape,
}

/// What follows on the character `c` of the program itself.
pub open spec fn after_code(c: char) -> Place {
    if c == '/' {
        Place::Slash
    } else if c == '"' {
        Place::Quote
    } else if c == '\'' {
        Place::Character
    } else {
        Place::Code
    }
}

/// What follows on the character `c` of a text.
pub open spec fn after_text(c: char) -> Place {
    if c == '\\' {
        Place::TextEscape
    } else if c == '"' || c == '\n' {
        Place::Code
    } else {
        Place::Text
    }
}

/// What follows on the character `c` of a text block; `quoted` is what follows on
/// a quote.
pub open spec fn after_block(c: char, quoted: Place) -> Place {
    if c == '\\' {
        Place::TextBlockEscape
    } else if c == '"' {
        quoted
    } else {
        Place::TextBlock
    }
}

/// Whether the character `c` in `place` belongs to the program itself.
pub open spec fn is_code(place: Place, c: char) -> bool {
    match place {
        Place::Code => true,
        Place::Slash => c != '/' && c != '*',
        Place::QuoteQuote => c != '"',
        _ => false,
    }
}

/// What follows on the character `c` in `place`.
pub open spec fn place_after(place: Place, c: char) -> Place {
    if is_code(place, c) {
        after_code(c)
    } else {
        match place {
            Place::Code => Place::Code,
            Place::Slash => if c == '/' {
                Place::LineComment
            } else {
                Place::BlockComment
            },
            Place::LineComment => if c == '\n' || c == '\r' {
                Place::Code
            } else {
                Place::LineComment
            },
            Place::BlockComment => if c == '*' {
                Place::BlockCommentStar
            } else {
                Place::BlockComment
            },
            Place::BlockCommentStar => if c == '/' {
                Place::Code
            } else if c == '*' {
                Place::BlockCommentStar
            } else {
                Place::BlockComment
            },
            Place::Quote => if c == '"' {
                Place::QuoteQuote
            } else {
                after_text(c)
            },
            Place::QuoteQuote => Place::TextBlock,
            Place::Text => after_text(c),
            Place::TextEscape => Place::Text,
            Place::TextBlock => after_block(c, Place::TextBlockQuote),
            Place::TextBlockEscape => Place::TextBlock,
            Place::TextBlockQuote => after_block(c, Place::TextBlockQuoteQuote),
            Place::TextBlockQuoteQuote => after_block(c, Place::Code),
            Place::Character => if c == '\\' {
                Place::CharacterEscape
            } else if c == '\'' || c == '\n' {
                Place::Code
            } else {
                Place::Character
            },
            Place::CharacterEscape => Place::Character,
        }
    }
}

/// What follows on the text `s`.
pub open spec fn place_of(s: Seq<char>) -> Place
    decreases s.len(),
{
    if s.len() == 0 {
        Place::Code
    } else {
        place_after(place_of(s.drop_last()), s.last())
    }
}

/// How many braces of the program itself are open at the end of `s`. A brace that
/// closes none does not count.
pub open spec fn open_braces(s: Seq<char>) -> nat
    decreases s.len(),
{
    if s.len() == 0 {
        0
    } else {
        let n = open_braces(s.drop_last());
        let code = is_code(place_of(s.drop_last()), s.last());
        if code && s.last() == '{' {
            n + 1
        } else if code && s.last() == '}' && n > 0 {
            (n - 1) as nat
        } else {
            n
        }
    }
}

/// A word of the program itself that stands outside of all braces can begin after
/// `s`.
pub open spec fn top_level(s: Seq<char>) -> bool {
    &&& place_of(s) == Place::Code
    &&& open_braces(s) == 0
    &&& s.len() > 0 ==> !name_character(s.last()) && (s.last() as u32) < 0x80
}

/// Tells what belongs to the program itself.
fn read_is_code(place: Place, c: char) -> (r: bool)
    ensures
        r == is_code(place, c),
{
    match place {
        Place::Code => true,
        Place::Slash => c != '/' && c != '*',
        Place::QuoteQuote => c != '"',
        _ => false,
    }
}

/// Goes on by one character of a text.
fn read_text(c: char) -> (r: Place)
    ensures
        r == after_text(c),
{
    if c == '\\' {
        Place::TextEscape
    } else if c == '"' || c == '\n' {
        Place::Code
    } else {
        Place::Text
    }
}

/// Goes on by one character of a text block.
fn read_block(c: char, quoted: Place) -> (r: Place)
    ensures
        r == after_block(c, quoted),
{
    if c == '\\' {
        Place::TextBlockEscape
    } else if c == '"' {
        quoted
    } else {
        Place::TextBlock
    }
}

/// Goes on by one character of a comment or a literal, or of the program itself.
fn read_place(place: Place, c: char) -> (r: Place)
    ensures
        r == place_after(place, c),
{
    if read_is_code(place, c) {
        return match c {
            '/' => Place::Slash,
            '"' => Place::Quote,
            '\'' => Place::Character,
            _ => Place::Code,
        };
    }
    match place {
        Place::Code => Place::Code,
        Place::Slash => if c == '/' {
            Place::LineComment
        } else {
            Place::BlockComment
        },
        Place::LineComment => if c == '\n' || c == '\r' {
            Place::Code
        } else {
            Place::LineComment
        },
        Place::BlockComment => if c == '*' {
            Place::BlockCommentStar
        } else {
            Place::BlockComment
        },
        Place::BlockCommentStar => match c {
            '/' => Place::Code,
            '*' => Place::BlockCommentStar,
            _ => Place::BlockComment,
        },
        Place::Quote => if c == '"' {
            Place::QuoteQuote
        } else {
            read_text(c)
        },
        Place::QuoteQuote => Place::TextBlock,
        Place::Text => read_text(c),
        Place::TextEscape => Place::Text,
        Place::TextBlock => read_block(c, Place::TextBlockQuote),
        Place::TextBlockEscape => Place::TextBlock,
        Place::TextBlockQuote => read_block(c, Place::TextBlockQuoteQuote),
        Place::TextBlockQuoteQuote => read_block(c, Place::Code),
        Place::Character => match c {
            '\\' => Place::CharacterEscape,
            '\'' | '\n' => Place::Code,
            _ => Place::Character,
        },
        Place::CharacterEscape => Place::Character,
    }
}

/// Tells whether a word of the program itself, outside of all braces, can begin
/// after `to` characters.
pub fn is_top_level(chars: &Vec<char>, to: usize) -> (r: bool)
    requires
        to <= chars@.len(),
    ensures
        r == top_level(chars@.take(to as int)),
{
    let mut place = Place::Code;
    let mut open: usize = 0;
    let mut i: usize = 0;
    while i < to
        invariant
            i <= to <= chars@.len(),
            place == place_of(chars@.take(i as int)),
            open == open_braces(chars@.take(i as int)),
            open <= i,
        decreases to - i,
    {
        assert(chars@.take(i + 1).drop_last() == chars@.take(i as int));
        let c = chars[i];
        if read_is_code(place, c) {
            if c == '{' {
                open += 1;
            } else if c == '}' && open > 0 {
                open -= 1;
            }
        }
        place = read_place(place, c);
        i += 1;
    }
    if place != Place::Code || open > 0 {
        false
    } else if to == 0 {
        true
    } else {
        let c = chars[to - 1];
        !(('a' <= c && c <= 'z') || ('A' <= c && c <= 'Z') || ('0' <= c && c <= '9') || c == '_'
            || c == '$' || c as u32 >= 0x80)
    }
}

} // verus!
