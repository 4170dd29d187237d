//! The patterns that the output of compilers is matched with, what they mean,
//! and the calls into the `regex` crate.
//!
//! Each pattern comes with a grammar: the parts that a text is made of, and the
//! condition under which a text splits into such parts. Where a text splits in
//! more than one way, the grammar says which way the pattern prefers.

use vstd::prelude::*;

use crate::text::{blank, is_white_space, lacks, optional_text};

verus! {

/// The class `\d`: the characters of the Unicode category `Nd`.
#[verifier::opaque]
pub open spec fn is_decimal(c: char) -> bool {
    let u = c as u32;
    ||| 0x30 <= u < 0x3a
    ||| 0x660 <= u < 0x66a
    ||| 0x6f0 <= u < 0x6fa
    ||| 0x7c0 <= u < 0x7ca
    ||| 0x966 <= u < 0x970
    ||| 0x9e6 <= u < 0x9f0
    ||| 0xa66 <= u < 0xa70
    ||| 0xae6 <= u < 0xaf0
    ||| 0xb66 <= u < 0xb70
    ||| 0xbe6 <= u < 0xbf0
    ||| 0xc66 <= u < 0xc70
    ||| 0xce6 <= u < 0xcf0
    ||| 0xd66 <= u < 0xd70
    ||| 0xde6 <= u < 0xdf0
    ||| 0xe50 <= u < 0xe5a
    ||| 0xed0 <= u < 0xeda
    ||| 0xf20 <= u < 0xf2a
    ||| 0x1040 <= u < 0x104a
    ||| 0x1090 <= u < 0x109a
    ||| 0x17e0 <= u < 0x17ea
    ||| 0x1810 <= u < 0x181a
    ||| 0x1946 <= u < 0x1950
    ||| 0x19d0 <= u < 0x19da
    ||| 0x1a80 <= u < 0x1a8a
    ||| 0x1a90 <= u < 0x1a9a
    ||| 0x1b50 <= u < 0x1b5a
    ||| 0x1bb0 <= u < 0x1bba
    ||| 0x1c40 <= u < 0x1c4a
    ||| 0x1c50 <= u < 0x1c5a
    ||| 0xa620 <= u < 0xa62a
    ||| 0xa8d0 <= u < 0xa8da
    ||| 0xa900 <= u < 0xa90a
    ||| 0xa9d0 <= u < 0xa9da
    ||| 0xa9f0 <= u < 0xa9fa
    ||| 0xaa50 <= u < 0xaa5a
    ||| 0xabf0 <= u < 0xabfa
    ||| 0xff10 <= u < 0xff1a
    ||| 0x104a0 <= u < 0x104aa
    ||| 0x10d30 <= u < 0x10d3a
    ||| 0x10d40 <= u < 0x10d4a
    ||| 0x11066 <= u < 0x11070
    ||| 0x110f0 <= u < 0x110fa
    ||| 0x11136 <= u < 0x11140
    ||| 0x111d0 <= u < 0x111da
    ||| 0x112f0 <= u < 0x112fa
    ||| 0x11450 <= u < 0x1145a
    ||| 0x114d0 <= u < 0x114da
    ||| 0x11650 <= u < 0x1165a
    ||| 0x116c0 <= u < 0x116ca
    ||| 0x116d0 <= u < 0x116e4
    ||| 0x11730 <= u < 0x1173a
    ||| 0x118e0 <= u < 0x118ea
    ||| 0x11950 <= u < 0x1195a
    ||| 0x11bf0 <= u < 0x11bfa
    ||| 0x11c50 <= u < 0x11c5a
    ||| 0x11d50 <= u < 0x11d5a
    ||| 0x11da0 <= u < 0x11daa
    ||| 0x11f50 <= u < 0x11f5a
    ||| 0x16130 <= u < 0x1613a
    ||| 0x16a60 <= u < 0x16a6a
    ||| 0x16ac0 <= u < 0x16aca
    ||| 0x16b50 <= u < 0x16b5a
    ||| 0x16d70 <= u < 0x16d7a
    ||| 0x1ccf0 <= u < 0x1ccfa
    ||| 0x1d7ce <= u < 0x1d800
    ||| 0x1e140 <= u < 0x1e14a
    ||| 0x1e2f0 <= u < 0x1e2fa
    ||| 0x1e4f0 <= u < 0x1e4fa
    ||| 0x1e5f1 <= u < 0x1e5fb
    ||| 0x1e950 <= u < 0x1e95a
    ||| 0x1fbf0 <= u < 0x1fbfa
}

/// Among the ASCII characters the class `\d` holds the digits.
pub proof fn lemma_ascii_decimal(c: char)
    requires
        (c as u32) < 0x80,
    ensures
        is_decimal(c) == ('0' <= c <= '9'),
{
    reveal(is_decimal);
}

/// `s` holds at least one character, and characters of the class `\d` alone.
pub open spec fn decimals(s: Seq<char>) -> bool {
    &&& s.len() > 0
    &&& forall|i: int| 0 <= i < s.len() ==> is_decimal(#[trigger] s[i])
}

/// `s` holds at least one character, and white space alone.
pub open spec fn gap(s: Seq<char>) -> bool {
    s.len() > 0 && blank(s)
}

/// `s` holds at least one character and no line feed.
pub open spec fn within_line(s: Seq<char>) -> bool {
    s.len() > 0 && lacks(s, '\n')
}

/// White space at the start of a message would belong to the space before it,
/// unless nothing were left of the message then.
pub open spec fn message_begins(message: Seq<char>) -> bool {
    message.len() == 1 || !is_white_space(message[0])
}

/// The groups of a match, the whole match first; `None` where nothing matched.
pub type Groups = Option<Seq<Option<Seq<char>>>>;

/// The contents of the groups of a match.
pub open spec fn groups_of(found: Option<Vec<Option<String>>>) -> Groups {
    match found {
        Some(groups) => Some(groups@.map_values(|g: Option<String>| optional_text(g))),
        None => None,
    }
}

/// The first line of a message of gcc.
pub const GCC_HEADER: &'static str =
    r"^(?P<file>[^:\n]+):(?P<line>\d+):(?P<col>\d+): (?P<level>error|warning|note|fatal error): (?P<msg>.+)$";

/// The parts of the first line of a message of gcc.
#[verifier::ext_equal]
pub struct GccParts {
    pub file: Seq<char>,
    pub line: Seq<char>,
    pub column: Seq<char>,
    pub level: Seq<char>,
    pub message: Seq<char>,
}

/// The levels that gcc prints.
pub open spec fn gcc_level(level: Seq<char>) -> bool {
    ||| level == "error"@
    ||| level == "warning"@
    ||| level == "note"@
    ||| level == "fatal error"@
}

/// `file:line:column: level: message`
pub open spec fn gcc_text(p: GccParts) -> Seq<char> {
    p.file + (seq![':'] + (p.line + (seq![':'] + (p.column + (seq![':', ' '] + (p.level + (
    seq![':', ' '] + p.message)))))))
}

/// `text` is made of the parts `p`; it cannot be made of others.
pub open spec fn gcc_splits(text: Seq<char>, p: GccParts) -> bool {
    &&& text == gcc_text(p)
    &&& p.file.len() > 0
    &&& lacks(p.file, ':')
    &&& lacks(p.file, '\n')
    &&& decimals(p.line)
    &&& decimals(p.column)
    &&& gcc_level(p.level)
    &&& within_line(p.message)
}

/// What matching `GCC_HEADER` with `text` finds.
pub open spec fn gcc_found(text: Seq<char>, found: Groups) -> bool {
    match found {
        None => forall|p: GccParts| !gcc_splits(text, p),
        Some(g) => exists|p: GccParts| #[trigger]
            gcc_splits(text, p) && g == seq![
                Some(text),
                Some(p.file),
                Some(p.line),
                Some(p.column),
                Some(p.level),
                Some(p.message),
            ],
    }
}

/// The name of a warning option at the end of a message of gcc.
pub const GCC_CODE: &'static str = r"\s*\[([^\]]+)\]$";

/// The parts of a message that ends with a code in brackets.
#[verifier::ext_equal]
pub struct CodedParts {
    pub message: Seq<char>,
    pub space: Seq<char>,
    pub code: Seq<char>,
}

/// `text` is made of the parts `p`: `message [code]`
pub open spec fn coded_splits(text: Seq<char>, p: CodedParts) -> bool {
    &&& text == p.message + (p.space + (seq!['['] + (p.code + seq![']'])))
    &&& blank(p.space)
    &&& p.code.len() > 0
    &&& lacks(p.code, ']')
}

/// `GCC_CODE` matches `text` with the parts `p`: its match begins as early as
/// any can.
pub open spec fn coded_match(text: Seq<char>, p: CodedParts) -> bool {
    &&& coded_splits(text, p)
    &&& forall|q: CodedParts| #[trigger]
        coded_splits(text, q) ==> p.message.len() <= q.message.len()
}

/// What matching `GCC_CODE` with `text` finds.
pub open spec fn coded_found(text: Seq<char>, found: Groups) -> bool {
    match found {
        None => forall|p: CodedParts| !coded_splits(text, p),
        Some(g) => exists|p: CodedParts| #[trigger]
            coded_match(text, p) && g == seq![
                Some(p.space + (seq!['['] + (p.code + seq![']']))),
                Some(p.code),
            ],
    }
}

/// A message of mcs.
pub const MCS_LINE: &'static str =
    r"^(.+?)\((\d+),?(\d+)?\):\s+(error|warning)\s+(CS\d+):\s+(.+)$";

/// The parts of a message of mcs.
#[verifier::ext_equal]
pub struct McsParts {
    pub file: Seq<char>,
    pub line: Seq<char>,
    pub comma: Seq<char>,
    pub column: Option<Seq<char>>,
    pub level_gap: Seq<char>,
    pub level: Seq<char>,
    pub code_gap: Seq<char>,
    pub code: Seq<char>,
    pub message_gap: Seq<char>,
    pub message: Seq<char>,
}

/// An optional part: nothing where it is missing.
pub open spec fn part(s: Option<Seq<char>>) -> Seq<char> {
    match s {
        Some(s) => s,
        None => seq![],
    }
}

/// `file(line,column): level code: message`
pub open spec fn mcs_text(p: McsParts) -> Seq<char> {
    p.file + (seq!['('] + (p.line + (p.comma + (part(p.column) + (seq![')', ':'] + (p.level_gap + (
    p.level + (p.code_gap + (p.code + (seq![':'] + (p.message_gap + p.message)))))))))))
}

/// `text` is made of the parts `p`.
pub open spec fn mcs_splits(text: Seq<char>, p: McsParts) -> bool {
    &&& text == mcs_text(p)
    &&& within_line(p.file)
    &&& decimals(p.line)
    &&& p.comma.len() == 0 || p.comma == seq![',']
    &&& p.column matches Some(column) ==> decimals(column)
    &&& gap(p.level_gap)
    &&& p.level == "error"@ || p.level == "warning"@
    &&& gap(p.code_gap)
    &&& p.code.len() > 2 && p.code.take(2) == seq!['C', 'S'] && decimals(p.code.skip(2))
    &&& gap(p.message_gap)
    &&& within_line(p.message)
}

/// `MCS_LINE` matches `text` with the parts `p`: the file is as short as it can
/// be; then the line number, and then the space before the message, are as long
/// as they can be.
pub open spec fn mcs_match(text: Seq<char>, p: McsParts) -> bool {
    &&& mcs_splits(text, p)
    &&& forall|q: McsParts| #[trigger]
        mcs_splits(text, q) ==> {
            &&& p.file.len() <= q.file.len()
            &&& p.file.len() == q.file.len() ==> {
                &&& q.line.len() <= p.line.len()
                &&& p.line.len() == q.line.len() ==> q.message_gap.len() <= p.message_gap.len()
            }
        }
}

/// What matching `MCS_LINE` with `text` finds.
pub open spec fn mcs_found(text: Seq<char>, found: Groups) -> bool {
    match found {
        None => forall|p: McsParts| !mcs_splits(text, p),
        Some(g) => exists|p: McsParts| #[trigger]
            mcs_match(text, p) && g == seq![
                Some(text),
                Some(p.file),
                Some(p.line),
                p.column,
                Some(p.level),
                Some(p.code),
                Some(p.message),
            ],
    }
}

/// A message of fpc.
pub const FPC_LINE: &'static str =
    r"^(.+?)\((\d+),(\d+)\)\s+(Fatal|Error|Warning|Note|Hint):\s+(.+)$";

/// The parts of a message of fpc.
#[verifier::ext_equal]
pub struct FpcParts {
    pub file: Seq<char>,
    pub line: Seq<char>,
    pub column: Seq<char>,
    pub level_gap: Seq<char>,
    pub level: Seq<char>,
    pub message_gap: Seq<char>,
    pub message: Seq<char>,
}

/// The levels that fpc prints.
pub open spec fn fpc_level(level: Seq<char>) -> bool {
    ||| level == "Fatal"@
    ||| level == "Error"@
    ||| level == "Warning"@
    ||| level == "Note"@
    ||| level == "Hint"@
}

/// `file(line,column) level: message`
pub open spec fn fpc_text(p: FpcParts) -> Seq<char> {
    p.file + (seq!['('] + (p.line + (seq![','] + (p.column + (seq![')'] + (p.level_gap + (p.level + (
    seq![':'] + (p.message_gap + p.message)))))))))
}

/// `text` is made of the parts `p`.
pub open spec fn fpc_splits(text: Seq<char>, p: FpcParts) -> bool {
    &&& text == fpc_text(p)
    &&& within_line(p.file)
    &&& decimals(p.line)
    &&& decimals(p.column)
    &&& gap(p.level_gap)
    &&& fpc_level(p.level)
    &&& gap(p.message_gap)
    &&& within_line(p.message)
}

/// `FPC_LINE` matches `text` with the parts `p`: the file is as short as it can
/// be, and then the space before the message as long as it can be.
pub open spec fn fpc_match(text: Seq<char>, p: FpcParts) -> bool {
    &&& fpc_splits(text, p)
    &&& forall|q: FpcParts| #[trigger]
        fpc_splits(text, q) ==> {
            &&& p.file.len() <= q.file.len()
            &&& p.file.len() == q.file.len() ==> q.message_gap.len() <= p.message_gap.len()
        }
}

/// What matching `FPC_LINE` with `text` finds.
pub open spec fn fpc_found(text: Seq<char>, found: Groups) -> bool {
    match found {
        None => forall|p: FpcParts| !fpc_splits(text, p),
        Some(g) => exists|p: FpcParts| #[trigger]
            fpc_match(text, p) && g == seq![
                Some(text),
                Some(p.file),
                Some(p.line),
                Some(p.column),
                Some(p.level),
                Some(p.message),
            ],
    }
}

/// The number at the start of a message of fpc.
pub const FPC_CODE: &'static str = r"^\((\d+)\)\s+(.+)$";

/// The parts of a message that begins with a number in brackets.
#[verifier::ext_equal]
pub struct NumberedParts {
    pub code: Seq<char>,
    pub space: Seq<char>,
    pub message: Seq<char>,
}

/// `text` is made of the parts `p`: `(code) message`
pub open spec fn numbered_splits(text: Seq<char>, p: NumberedParts) -> bool {
    &&& text == seq!['('] + (p.code + (seq![')'] + (p.space + p.message)))
    &&& decimals(p.code)
    &&& gap(p.space)
    &&& within_line(p.message)
}

/// `FPC_CODE` matches `text` with the parts `p`: the space before the message
/// is as long as it can be.
pub open spec fn numbered_match(text: Seq<char>, p: NumberedParts) -> bool {
    &&& numbered_splits(text, p)
    &&& forall|q: NumberedParts| #[trigger]
        numbered_splits(text, q) ==> q.space.len() <= p.space.len()
}

/// What matching `FPC_CODE` with `text` finds.
pub open spec fn numbered_found(text: Seq<char>, found: Groups) -> bool {
    match found {
        None => forall|p: NumberedParts| !numbered_splits(text, p),
        Some(g) => exists|p: NumberedParts| #[trigger]
            numbered_match(text, p) && g == seq![Some(text), Some(p.code), Some(p.message)],
    }
}

/// The end of the pattern for the first line of a message of javac; the name of
/// the source file comes before it.
pub const JAVAC_TAIL: &'static str = r":(\d+): (error|warning): (.+)";

/// The characters that mean something in a pattern.
pub open spec fn meta_character(c: char) -> bool {
    ||| c == '\\' || c == '.' || c == '+' || c == '*' || c == '?' || c == '(' || c == ')'
    ||| c == '|' || c == '[' || c == ']' || c == '{' || c == '}' || c == '^' || c == '$'
    ||| c == '#' || c == '&' || c == '-' || c == '~'
}

/// The pattern that stands for the text `s` itself.
pub open spec fn escaped(s: Seq<char>) -> Seq<char>
    decreases s.len(),
{
    if s.len() == 0 {
        seq![]
    } else if meta_character(s.last()) {
        escaped(s.drop_last()).push('\\').push(s.last())
    } else {
        escaped(s.drop_last()).push(s.last())
    }
}

/// The pattern for the first line of a message on the source file `name`.
pub open spec fn javac_pattern(name: Seq<char>) -> Seq<char> {
    escaped(name) + JAVAC_TAIL@
}

/// The parts of the first line of a message of javac.
#[verifier::ext_equal]
pub struct JavacParts {
    pub before: Seq<char>,
    pub line: Seq<char>,
    pub level: Seq<char>,
    pub message: Seq<char>,
    pub after: Seq<char>,
}

/// `name:line: level: message`, with other text before and after it.
pub open spec fn javac_text(name: Seq<char>, p: JavacParts) -> Seq<char> {
    p.before + (name + (seq![':'] + (p.line + (seq![':', ' '] + (p.level + (seq![':', ' '] + (
    p.message + p.after)))))))
}

/// `text` is made of the parts `p`.
pub open spec fn javac_splits(name: Seq<char>, text: Seq<char>, p: JavacParts) -> bool {
    &&& text == javac_text(name, p)
    &&& decimals(p.line)
    &&& p.level == "error"@ || p.level == "warning"@
    &&& within_line(p.message)
}

/// The pattern for `name` matches `text` with the parts `p`: its match begins
/// as early as any can, and the message is as long as it can be.
pub open spec fn javac_match(name: Seq<char>, text: Seq<char>, p: JavacParts) -> bool {
    &&& javac_splits(name, text, p)
    &&& forall|q: JavacParts| #[trigger]
        javac_splits(name, text, q) ==> {
            &&& p.before.len() <= q.before.len()
            &&& p.before.len() == q.before.len() ==> q.message.len() <= p.message.len()
        }
}

/// What matching the pattern for `name` with `text` finds.
pub open spec fn javac_found(name: Seq<char>, text: Seq<char>, found: Groups) -> bool {
    match found {
        None => forall|p: JavacParts| !javac_splits(name, text, p),
        Some(g) => exists|p: JavacParts| #[trigger]
            javac_match(name, text, p) && g == seq![
                Some(
                    name + (seq![':'] + (p.line + (seq![':', ' '] + (p.level + (seq![':', ' ']
                        + p.message))))),
                ),
                Some(p.line),
                Some(p.level),
                Some(p.message),
            ],
    }
}

/// A line with a caret under a source line.
pub const JAVAC_CARET: &'static str = r"^(\s*)\^$";

/// `text` is white space `space` and a caret.
pub open spec fn caret_splits(text: Seq<char>, space: Seq<char>) -> bool {
    text == space.push('^') && blank(space)
}

/// What matching `JAVAC_CARET` with `text` finds.
pub open spec fn caret_found(text: Seq<char>, found: Groups) -> bool {
    match found {
        None => forall|space: Seq<char>| !caret_splits(text, space),
        Some(g) => exists|space: Seq<char>| #[trigger]
            caret_splits(text, space) && g == seq![Some(text), Some(space)],
    }
}

/// The declaration of a public class, with or without modifiers, and all text
/// before it.
pub const JAVA_CLASS: &'static str =
    r"(?s)^(.*?)public\s+((?:(?:abstract|final|sealed|non-sealed|strictfp)\s+)*)class\s+([a-zA-Z0-9_$]+)";

/// A modifier of a class, and the space after it.
#[verifier::ext_equal]
pub struct ModifierParts {
    pub word: Seq<char>,
    pub space: Seq<char>,
}

/// The parts of a source with a public class.
#[verifier::ext_equal]
pub struct ClassParts {
    pub before: Seq<char>,
    pub public_gap: Seq<char>,
    pub modifiers: Seq<ModifierParts>,
    pub name_gap: Seq<char>,
    pub name: Seq<char>,
    pub after: Seq<char>,
}

/// The modifiers that a class may have after `public`.
pub open spec fn modifier_word(word: Seq<char>) -> bool {
    ||| word == "abstract"@
    ||| word == "final"@
    ||| word == "sealed"@
    ||| word == "non-sealed"@
    ||| word == "strictfp"@
}

/// Each of the modifiers is such a word, and has space after it.
pub open spec fn class_modifiers(modifiers: Seq<ModifierParts>) -> bool {
    forall|i: int|
        0 <= i < modifiers.len() ==> modifier_word((#[trigger] modifiers[i]).word) && gap(
            modifiers[i].space,
        )
}

/// The modifiers one after the other, and `rest` after them.
pub open spec fn modified(modifiers: Seq<ModifierParts>, rest: Seq<char>) -> Seq<char>
    decreases modifiers.len(),
{
    if modifiers.len() == 0 {
        rest
    } else {
        modifiers[0].word + (modifiers[0].space + modified(modifiers.skip(1), rest))
    }
}

/// The characters of the name of a class.
pub open spec fn name_character(c: char) -> bool {
    ||| 'a' <= c <= 'z'
    ||| 'A' <= c <= 'Z'
    ||| '0' <= c <= '9'
    ||| c == '_'
    ||| c == '$'
}

/// `s` holds at least one character, and characters of a name alone.
pub open spec fn class_name(s: Seq<char>) -> bool {
    &&& s.len() > 0
    &&& forall|i: int| 0 <= i < s.len() ==> name_character(#[trigger] s[i])
}

/// `public modifiers class name`, with `rest` after it.
pub open spec fn class_declaration(p: ClassParts, rest: Seq<char>) -> Seq<char> {
    "public"@ + (p.public_gap + modified(
        p.modifiers,
        "class"@ + (p.name_gap + (p.name + rest)),
    ))
}

/// `text` is made of the parts `p`: the declaration of a class, with other text
/// before and after it.
pub open spec fn class_splits(text: Seq<char>, p: ClassParts) -> bool {
    &&& text == p.before + class_declaration(p, p.after)
    &&& gap(p.public_gap)
    &&& class_modifiers(p.modifiers)
    &&& gap(p.name_gap)
    &&& class_name(p.name)
}

/// `JAVA_CLASS` matches `text` with the parts `p`: the text before the
/// declaration is as short as it can be, and then the name as long as it can be.
pub open spec fn class_match(text: Seq<char>, p: ClassParts) -> bool {
    &&& class_splits(text, p)
    &&& forall|q: ClassParts| #[trigger]
        class_splits(text, q) ==> {
            &&& p.before.len() <= q.before.len()
            &&& p.before.len() == q.before.len() ==> q.name.len() <= p.name.len()
        }
}

/// What matching `JAVA_CLASS` with `text` finds.
pub open spec fn class_found(text: Seq<char>, found: Groups) -> bool {
    match found {
        None => forall|p: ClassParts| !class_splits(text, p),
        Some(g) => exists|p: ClassParts| #[trigger]
            class_match(text, p) && g == seq![
                Some(p.before + class_declaration(p, seq![])),
                Some(p.before),
                Some(modified(p.modifiers, seq![])),
                Some(p.name),
            ],
    }
}

/// A control sequence of a terminal: escape, bracket, numbers, letter.
pub const CSI: &'static str = r"\x1b\[[0-9;]*[a-zA-Z]";

/// How many digits and semicolons come first.
pub open spec fn csi_numbers(s: Seq<char>) -> nat
    decreases s.len(),
{
    if s.len() > 0 && ('0' <= s[0] <= '9' || s[0] == ';') {
        1 + csi_numbers(s.skip(1))
    } else {
        0
    }
}

/// The length of the control sequence that `s` begins with; zero for none.
pub open spec fn csi_length(s: Seq<char>) -> nat {
    if s.len() > 2 && s[0] == '\x1b' && s[1] == '[' {
        let n = 2 + csi_numbers(s.skip(2));
        if n < s.len() && ('a' <= s[n as int] <= 'z' || 'A' <= s[n as int] <= 'Z') {
            n + 1
        } else {
            0
        }
    } else {
        0
    }
}

/// `s` without its control sequences.
pub open spec fn without_csi(s: Seq<char>) -> Seq<char>
    decreases s.len(),
{
    if s.len() == 0 {
        seq![]
    } else if csi_length(s) > 0 {
        without_csi(s.skip(csi_length(s) as int))
    } else {
        seq![s[0]] + without_csi(s.skip(1))
    }
}

/// The patterns that are matched as they stand.
pub open spec fn fixed_pattern(pattern: Seq<char>) -> bool {
    ||| pattern == GCC_HEADER@
    ||| pattern == GCC_CODE@
    ||| pattern == MCS_LINE@
    ||| pattern == FPC_LINE@
    ||| pattern == FPC_CODE@
    ||| pattern == JAVAC_CARET@
    ||| pattern == JAVA_CLASS@
}

/// What matching a fixed pattern with `text` finds.
pub open spec fn fixed_found(pattern: Seq<char>, text: Seq<char>, found: Groups) -> bool {
    &&& pattern == GCC_HEADER@ ==> gcc_found(text, found)
    &&& pattern == GCC_CODE@ ==> coded_found(text, found)
    &&& pattern == MCS_LINE@ ==> mcs_found(text, found)
    &&& pattern == FPC_LINE@ ==> fpc_found(text, found)
    &&& pattern == FPC_CODE@ ==> numbered_found(text, found)
    &&& pattern == JAVAC_CARET@ ==> caret_found(text, found)
    &&& pattern == JAVA_CLASS@ ==> class_found(text, found)
}

/// The longest name of a file whose pattern is sure to be accepted.
pub const SURE_NAME_LENGTH: usize = 4096;

/// The error of `regex::Regex::new`.
#[verifier::external_type_specification]
#[verifier::external_body]
pub struct ExRegexError(regex::Error);

/// Calls `regex::Regex::new` and, on what it returns, `regex::Regex::captures`.
///
/// The fixed patterns are valid. The pattern for a file is a literal and a valid
/// tail, and is refused only where its compiled form exceeds the crate's limit
/// of ten mebibytes, far from what a name of `SURE_NAME_LENGTH` takes. From
/// which length on it is refused is left unsaid: the size counts the machine's
/// pointers. A search prefers the leftmost match; among those, from left to
/// right, each repetition, also that of a modifier, takes as much as it can
/// (`+`, `*`, `?`) or as little as it can (`+?`, `*?`), and the first of several
/// words that leads to a match is taken. Under `(?s)` the dot stands for line
/// feeds too. The grammars say which parts of the text the groups are then.
#[verifier::external_body]
fn captures(pattern: &str, text: &str) -> (r: Result<Option<Vec<Option<String>>>, regex::Error>)
    requires
        fixed_pattern(pattern@) || exists|name: Seq<char>| pattern@ == javac_pattern(name),
    ensures
        fixed_pattern(pattern@) ==> r is Ok,
        r matches Ok(found) ==> fixed_found(pattern@, text@, groups_of(found)),
        forall|name: Seq<char>| pattern@ == #[trigger] javac_pattern(name) ==> {
            &&& name.len() <= SURE_NAME_LENGTH ==> r is Ok
            &&& r matches Ok(found) ==> javac_found(name, text@, groups_of(found))
        },
{
    Ok(
        regex::Regex::new(pattern)?.captures(text).map(
            |c| c.iter().map(|m| m.map(|m| m.as_str().to_string())).collect(),
        ),
    )
}

/// Calls `regex::Regex::new` and, on what it returns, `regex::Regex::replace`
/// with the empty text: the first match is taken out. A match of `GCC_CODE`
/// reaches to the end of the text.
#[verifier::external_body]
pub(crate) fn without_first(pattern: &str, text: &str, replacement: &str) -> (r: String)
    requires
        pattern@ == GCC_CODE@,
        replacement@.len() == 0,
    ensures
        forall|p: CodedParts| #[trigger] coded_match(text@, p) ==> r@ == p.message,
        (forall|p: CodedParts| !coded_splits(text@, p)) ==> r@ == text@,
{
    regex::Regex::new(pattern).unwrap().replace(text, replacement).to_string()
}

/// Calls `regex::Regex::new` and, on what it returns,
/// `regex::Regex::replace_all` with the empty text: all matches of `CSI` are
/// taken out, from left to right; what is then joined is not searched again.
#[verifier::external_body]
pub(crate) fn without_all(pattern: &str, text: &str, replacement: &str) -> (r: String)
    requires
        pattern@ == CSI@,
        replacement@.len() == 0,
    ensures
        r@ == without_csi(text@),
{
    regex::Regex::new(pattern).unwrap().replace_all(text, replacement).to_string()
}

/// Calls `regex::escape`, which puts a backslash before each character that
/// means something in a pattern.
#[verifier::external_body]
fn escape(text: &str) -> (r: String)
    ensures
        r@ == escaped(text@),
{
    regex::escape(text)
}

/// Matches one of the fixed patterns with a text.
pub fn fixed_captures(pattern: &str, text: &str) -> (found: Option<Vec<Option<String>>>)
    requires
        fixed_pattern(pattern@),
    ensures
        fixed_found(pattern@, text@, groups_of(found)),
{
    match captures(pattern, text) {
        Ok(found) => found,
        Err(_) => None,
    }
}

/// The pattern for a source file's messages was refused for its size, with this
/// error.
#[derive(Debug)]
pub struct PatternRefused {
    pub cause: regex::Error,
}

/// The pattern for the first line of a message on the source file `name`.
pub fn javac_header_pattern(name: &str) -> (r: String)
    ensures
        r@ == javac_pattern(name@),
{
    let mut pattern = escape(name);
    pattern.append(JAVAC_TAIL);
    pattern
}

/// Matches the pattern for the source file `name` with a text.
pub fn javac_captures(pattern: &str, name: &str, text: &str) -> (r: Result<
    Option<Vec<Option<String>>>,
    PatternRefused,
>)
    requires
        pattern@ == javac_pattern(name@),
    ensures
        name@.len() <= SURE_NAME_LENGTH ==> r is Ok,
        r matches Ok(found) ==> javac_found(name@, text@, groups_of(found)),
{
    match captures(pattern, text) {
        Ok(found) => Ok(found),
        Err(cause) => Err(PatternRefused { cause }),
    }
}

/// The groups of a match are the contents of what was found, one by one.
pub proof fn lemma_groups(found: Vec<Option<String>>)
    ensures
        groups_of(Some(found)) matches Some(views) && {
            &&& views.len() == found@.len()
            &&& forall|i: int|
                0 <= i < found@.len() ==> views[i] == optional_text(
                    #[trigger] found@[i],
                )
        },
{
}

/// The text of a group that took part in a match.
pub fn group_text(groups: &Vec<Option<String>>, i: usize) -> (r: String)
    requires
        i < groups@.len(),
        groups@[i as int] is Some,
    ensures
        Some(r@) == optional_text(groups@[i as int]),
{
    match &groups[i] {
        Some(s) => s.clone(),
        None => String::new(),
    }
}

} // verus!
