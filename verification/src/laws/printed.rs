//! What compilers print, as they print it, and what becomes of it.

use vstd::prelude::*;

use crate::diagnostic::{models, Diagnostic};
use crate::fpc::{
    law_fpc_code, law_fpc_line, law_fpc_plain_file, parse_fpc_diagnostics, read_fpc_line,
};
use crate::gcc::{
    law_gcc_code, law_gcc_line, law_gcc_no_code, law_strip_plain, parse_gcc_diagnostics,
};
use crate::java::{get_class_name, law_class_modifiers};
use crate::javac::{javac_lines, javac_parts_of, law_javac_parts, parse_javac_diagnostics};
use crate::laws::diagnostic::{
    from_outside, law_counted_written, law_diagnostic_view, law_diagnostics_view, law_foreign,
    lemma_start,
};
use crate::laws::fpc::{law_fpc_read, law_fpc_written};
use crate::laws::gcc::gcc_own;
use crate::laws::javac::{law_javac_begins, law_javac_nothing, law_javac_output};
use crate::laws::mcs::{law_mcs_read, law_mcs_written};
use crate::laws::text::{lemma_written, written};
use crate::mcs::{law_mcs_plain_file, parse_mcs_diagnostics, read_mcs_line};
use crate::pattern::{
    class_declaration, class_splits, coded_match, coded_splits, decimals, fpc_match, fpc_splits,
    fpc_text, gcc_splits, gcc_text, is_decimal, javac_match, javac_splits, javac_text,
    lemma_ascii_decimal, mcs_match, mcs_splits, mcs_text, modified, name_character, numbered_match,
    numbered_splits, without_csi, ClassParts, CodedParts, FpcParts, GccParts, JavacParts, McsParts,
    ModifierParts, NumberedParts, PatternRefused,
};
use crate::source::{open_braces, place_of, Place};
use crate::text::{ascii_digits, blank, is_white_space, lacks, law_lines_single, lines_of};

verus! {

proof fn lemma_decimals(s: Seq<char>)
    requires
        ascii_digits(s),
    ensures
        decimals(s),
        lacks(s, '\n'),
        lacks(s, '\x1b'),
{
    assert forall|i: int| 0 <= i < s.len() implies is_decimal(#[trigger] s[i]) by {
        lemma_ascii_decimal(s[i]);
    }
}

/// A message of one line that begins with no white space.
pub open spec fn one_line(message: Seq<char>) -> bool {
    message.len() > 0 && lacks(message, '\n') && !is_white_space(message[0])
}

/// The name of a file of the program, without an opening bracket.
pub open spec fn own_file(file: Seq<char>) -> bool {
    file.len() > 0 && lacks(file, '\n') && lacks(file, '(') && !from_outside(file)
}

/// The line `file(line,column): error CSnumber: message`, or one with `warning` in
/// its place, makes one diagnostic.
pub proof fn law_mcs_printed(
    stderr: &str,
    r: Vec<Diagnostic>,
    file: Seq<char>,
    line: nat,
    column: nat,
    level: Seq<char>,
    number: Seq<char>,
    message: Seq<char>,
)
    requires
        call_ensures(parse_mcs_diagnostics, (stderr,), r),
        own_file(file),
        1 <= line <= usize::MAX,
        1 <= column <= usize::MAX,
        level == "error"@ || level == "warning"@,
        number.len() > 0,
        forall|i: int| 0 <= i < number.len() ==> '0' <= #[trigger] number[i] <= '9',
        one_line(message),
        stderr@ == file + (seq!['('] + (written(line) + (seq![','] + (written(column) + (seq![
            ')',
            ':',
            ' ',
        ] + (level + (seq![' ', 'C', 'S'] + (number + (seq![':', ' '] + message))))))))),
    ensures
        r@.len() == 1,
        r@[0].level@ == level,
        r@[0].message@ == message,
        r@[0].code matches Some(code) && code@ == seq!['C', 'S'] + number,
        r@[0].details@.len() == 0,
        r@[0].span matches Some(span) && {
            &&& span.start.line + 1 == line
            &&& span.start.column + 1 == column
            &&& span.end is None
        },
{
    let p = McsParts {
        file,
        line: written(line),
        comma: seq![','],
        column: Some(written(column)),
        level_gap: seq![' '],
        level,
        code_gap: seq![' '],
        code: seq!['C', 'S'] + number,
        message_gap: seq![' '],
        message,
    };
    lemma_written(line);
    lemma_written(column);
    lemma_decimals(p.line);
    lemma_decimals(written(column));
    lemma_decimals(number);
    assert(p.code.take(2) =~= seq!['C', 'S']);
    assert(p.code.skip(2) =~= number);
    assert(mcs_text(p) =~= stderr@);
    assert(mcs_splits(mcs_text(p), p));
    law_mcs_plain_file(p);
    law_mcs_written(stderr, r, p, line, column);
}

/// What mcs calls an error or a warning, and nothing else, makes a diagnostic: its
/// line is `file(line,column): level CSnumber: message`, where the column, and the
/// comma, may be missing, with white space of any length before the level, the
/// code and the message.
pub proof fn law_mcs_only(line: &str, r: Option<Diagnostic>)
    requires
        call_ensures(read_mcs_line, (line,), r),
        r is Some,
    ensures
        exists|p: McsParts| #[trigger]
            mcs_match(line@, p) && {
                let place = p.line + (p.comma + match p.column {
                    Some(column) => column,
                    None => seq![],
                });
                &&& line@ == p.file + (seq!['('] + (place + (seq![')', ':'] + (p.level_gap + (p.level
                    + (p.code_gap + (p.code + (seq![':'] + (p.message_gap + p.message)))))))))
                &&& p.file.len() > 0 && p.line.len() > 0 && p.message.len() > 0
                &&& lacks(p.file, '\n') && lacks(p.message, '\n')
                &&& p.comma == seq![','] || p.comma.len() == 0
                &&& p.level == "error"@ || p.level == "warning"@
                &&& p.level_gap.len() > 0 && p.code_gap.len() > 0 && p.message_gap.len() > 0
                &&& blank(p.level_gap + (p.code_gap + p.message_gap))
                &&& p.code.len() > 2 && p.code[0] == 'C' && p.code[1] == 'S'
                &&& forall|i: int| 0 <= i < p.line.len() ==> is_decimal(#[trigger] p.line[i])
                &&& forall|i: int| 2 <= i < p.code.len() ==> is_decimal(#[trigger] p.code[i])
                &&& p.column matches Some(column) ==> column.len() > 0 && forall|i: int|
                    0 <= i < column.len() ==> is_decimal(#[trigger] column[i])
            },
{
    if forall|p: McsParts| !mcs_match(line@, p) {
        law_mcs_read(line, r, arbitrary());
    }
    let p = choose|p: McsParts| mcs_match(line@, p);
    assert(mcs_match(line@, p));
    let place = p.line + (p.comma + match p.column {
        Some(column) => column,
        None => seq![],
    });
    assert(line@ =~= p.file + (seq!['('] + (place + (seq![')', ':'] + (p.level_gap + (p.level + (
    p.code_gap + (p.code + (seq![':'] + (p.message_gap + p.message))))))))));
    assert(p.code[0] == p.code.take(2)[0] && p.code[1] == p.code.take(2)[1]);
    assert forall|i: int| 2 <= i < p.code.len() implies is_decimal(#[trigger] p.code[i]) by {
        assert(p.code.skip(2)[i - 2] == p.code[i]);
    }
}

/// The line `file(line,column) level: message` makes one diagnostic, with the
/// level of the schema for each level of fpc. A number in brackets at the start of
/// the message is its code.
pub proof fn law_fpc_printed(
    output: &str,
    r: Vec<Diagnostic>,
    file: Seq<char>,
    line: nat,
    column: nat,
    level: Seq<char>,
    message: Seq<char>,
    number: Seq<char>,
    rest: Seq<char>,
)
    requires
        call_ensures(parse_fpc_diagnostics, (output,), r),
        own_file(file),
        1 <= line <= usize::MAX,
        1 <= column <= usize::MAX,
        level == "Fatal"@ || level == "Error"@ || level == "Warning"@ || level == "Note"@ || level
            == "Hint"@,
        one_line(message),
        output@ == file + (seq!['('] + (written(line) + (seq![','] + (written(column) + (seq![
            ')',
            ' ',
        ] + (level + (seq![':', ' '] + message))))))),
    ensures
        r@.len() == 1,
        level == "Fatal"@ || level == "Error"@ ==> r@[0].level@ == "error"@,
        level == "Warning"@ ==> r@[0].level@ == "warning"@,
        level == "Note"@ ==> r@[0].level@ == "note"@,
        level == "Hint"@ ==> r@[0].level@ == "help"@,
        message[0] != '(' ==> r@[0].message@ == message && r@[0].code is None,
        message == seq!['('] + (number + (seq![')', ' '] + rest)) && number.len() > 0 && (forall|
            i: int,
        |
            0 <= i < number.len() ==> '0' <= #[trigger] number[i] <= '9') && one_line(rest) ==> {
            &&& r@[0].message@ == rest
            &&& r@[0].code matches Some(code) && code@ == number
        },
        r@[0].details@.len() == 0,
        r@[0].span matches Some(span) && {
            &&& span.start.line + 1 == line
            &&& span.start.column + 1 == column
            &&& span.end is None
        },
{
    let p = FpcParts {
        file,
        line: written(line),
        column: written(column),
        level_gap: seq![' '],
        level,
        message_gap: seq![' '],
        message,
    };
    lemma_written(line);
    lemma_written(column);
    lemma_decimals(p.line);
    lemma_decimals(p.column);
    assert(fpc_text(p) =~= output@);
    assert(fpc_splits(fpc_text(p), p));
    law_fpc_plain_file(p);
    law_fpc_written(output, r, p, line, column);
    if message == seq!['('] + (number + (seq![')', ' '] + rest)) && number.len() > 0 && (forall|
        i: int,
    |
        0 <= i < number.len() ==> '0' <= #[trigger] number[i] <= '9') && one_line(rest) {
        lemma_decimals(number);
        law_fpc_code(number, seq![' '], rest);
        assert(message =~= seq!['('] + (number + (seq![')'] + (seq![' '] + rest))));
        law_foreign(file);
        law_fpc_line(p);
        law_diagnostics_view(r@);
        assert(r@[0]@ == models(r@)[0]);
        law_diagnostic_view(r@[0]);
    }
}

/// What fpc calls fatal, an error, a warning, a note or a hint, and nothing else,
/// makes a diagnostic: its line is `file(line,column) level: message`, with white
/// space of any length before the level and the message.
pub proof fn law_fpc_only(line: &str, r: Option<Diagnostic>)
    requires
        call_ensures(read_fpc_line, (line,), r),
        r is Some,
    ensures
        exists|p: FpcParts| #[trigger]
            fpc_match(line@, p) && {
                &&& line@ == p.file + (seq!['('] + (p.line + (seq![','] + (p.column + (seq![')'] + (
                p.level_gap + (p.level + (seq![':'] + (p.message_gap + p.message)))))))))
                &&& p.file.len() > 0 && p.line.len() > 0 && p.column.len() > 0 && p.message.len() > 0
                &&& lacks(p.file, '\n') && lacks(p.message, '\n')
                &&& p.level == "Fatal"@ || p.level == "Error"@ || p.level == "Warning"@ || p.level
                    == "Note"@ || p.level == "Hint"@
                &&& p.level_gap.len() > 0 && p.message_gap.len() > 0
                &&& blank(p.level_gap + p.message_gap)
                &&& forall|i: int| 0 <= i < p.line.len() ==> is_decimal(#[trigger] p.line[i])
                &&& forall|i: int| 0 <= i < p.column.len() ==> is_decimal(#[trigger] p.column[i])
            },
{
    if forall|p: FpcParts| !fpc_match(line@, p) {
        law_fpc_read(line, r, arbitrary());
    }
    let p = choose|p: FpcParts| fpc_match(line@, p);
    assert(fpc_match(line@, p));
}

/// The line `file:line:column: level: message`, or one with `[code]` after its
/// message, makes one diagnostic. A fatal error is an error.
pub proof fn law_gcc_printed(
    stderr: &str,
    r: Vec<Diagnostic>,
    file: Seq<char>,
    line: nat,
    column: nat,
    level: Seq<char>,
    message: Seq<char>,
    text: Seq<char>,
    code: Seq<char>,
)
    requires
        call_ensures(parse_gcc_diagnostics, (stderr,), r),
        file.len() > 0 && lacks(file, ':') && lacks(file, '\n') && lacks(file, '\x1b'),
        !from_outside(file),
        1 <= line <= usize::MAX,
        1 <= column <= usize::MAX,
        level == "error"@ || level == "warning"@ || level == "note"@ || level == "fatal error"@,
        message.len() > 0 && lacks(message, '\n') && lacks(message, '\x1b'),
        stderr@ == file + (seq![':'] + (written(line) + (seq![':'] + (written(column) + (seq![
            ':',
            ' ',
        ] + (level + (seq![':', ' '] + message))))))),
    ensures
        r@.len() == 1,
        level == "fatal error"@ ==> r@[0].level@ == "error"@,
        level != "fatal error"@ ==> r@[0].level@ == level,
        message.last() != ']' ==> r@[0].message@ == message && r@[0].code is None,
        message == text + (seq![' ', '['] + (code + seq![']'])) && lacks(text, '[') && (text.len()
            > 0 ==> !is_white_space(text.last())) && code.len() > 0 && lacks(code, ']') ==> {
            &&& r@[0].message@ == text
            &&& r@[0].code matches Some(c) && c@ == code
        },
        r@[0].details@.len() == 0,
        r@[0].span matches Some(span) && {
            &&& span.start.line + 1 == line
            &&& span.start.column + 1 == column
            &&& span.end is None
        },
{
    let p = GccParts { file, line: written(line), column: written(column), level, message };
    lemma_written(line);
    lemma_written(column);
    lemma_decimals(p.line);
    lemma_decimals(p.column);
    reveal_strlit("error");
    reveal_strlit("warning");
    reveal_strlit("note");
    reveal_strlit("fatal error");
    assert(gcc_text(p) =~= stderr@);
    assert(lacks(level, '\n') && lacks(level, '\x1b'));
    assert(lacks(stderr@, '\n'));
    assert(lacks(stderr@, '\x1b'));
    law_strip_plain(stderr@);
    assert(gcc_splits(without_csi(stderr@), p));
    law_foreign(file);
    law_gcc_line(stderr@, p);
    law_diagnostics_view(r@);
    assert(r@[0]@ == models(r@)[0]);
    law_diagnostic_view(r@[0]);
    lemma_start(p.line, p.column);
    let d = models(r@)[0];
    law_counted_written(line, d.span->0.start.line);
    law_counted_written(column, d.span->0.start.column);
    if message.last() != ']' {
        law_gcc_no_code(message);
    }
    if message == text + (seq![' ', '['] + (code + seq![']'])) && lacks(text, '[') && (text.len()
        > 0 ==> !is_white_space(text.last())) && code.len() > 0 && lacks(code, ']') {
        law_gcc_code(text, seq![' '], code);
        assert(message =~= text + (seq![' '] + (seq!['['] + (code + seq![']']))));
    }
}

/// What gcc calls an error, a warning, a note or a fatal error, and nothing else,
/// begins a message: its line is `file:line:column: level: message`, control
/// sequences aside.
pub proof fn law_gcc_only(line: Seq<char>)
    requires
        gcc_own(line),
    ensures
        exists|p: GccParts| #[trigger]
            gcc_splits(without_csi(line), p) && {
                &&& without_csi(line) == p.file + (seq![':'] + (p.line + (seq![':'] + (p.column + (
                seq![':', ' '] + (p.level + (seq![':', ' '] + p.message)))))))
                &&& p.file.len() > 0 && p.line.len() > 0 && p.column.len() > 0 && p.message.len() > 0
                &&& lacks(p.file, ':') && lacks(p.file, '\n') && lacks(p.message, '\n')
                &&& p.level == "error"@ || p.level == "warning"@ || p.level == "note"@ || p.level
                    == "fatal error"@
                &&& forall|i: int| 0 <= i < p.line.len() ==> is_decimal(#[trigger] p.line[i])
                &&& forall|i: int| 0 <= i < p.column.len() ==> is_decimal(#[trigger] p.column[i])
            },
{
    let p = choose|p: GccParts| #[trigger]
        gcc_splits(without_csi(line), p) && !from_outside(p.file);
    assert(gcc_splits(without_csi(line), p));
}

/// The line `name:line: error: message`, or one with `warning` in its place, makes
/// one diagnostic in the first column.
pub proof fn law_javac_printed(
    stderr: &str,
    name: &str,
    r: Vec<Diagnostic>,
    line: nat,
    level: Seq<char>,
    message: Seq<char>,
)
    requires
        call_ensures(
            parse_javac_diagnostics,
            (stderr, name),
            Ok::<Vec<Diagnostic>, PatternRefused>(r),
        ),
        lacks(name@, '\n'),
        1 <= line <= usize::MAX,
        level == "error"@ || level == "warning"@,
        message.len() > 0 && lacks(message, '\n'),
        stderr@ == name@ + (seq![':'] + (written(line) + (seq![':', ' '] + (level + (seq![':', ' ']
            + message))))),
    ensures
        r@.len() == 1,
        r@[0].level@ == level,
        r@[0].message@ == message,
        r@[0].code is None,
        r@[0].details@.len() == 0,
        r@[0].span matches Some(span) && {
            &&& span.start.line + 1 == line
            &&& span.start.column == 0
            &&& span.end is None
        },
{
    let p = JavacParts { before: seq![], line: written(line), level, message, after: seq![] };
    lemma_written(line);
    lemma_decimals(p.line);
    reveal_strlit("error");
    reveal_strlit("warning");
    assert(javac_text(name@, p) =~= stderr@);
    law_javac_parts(name@, p.line, level, message);
    assert(javac_match(name@, stderr@, javac_parts_of(name@, stderr@)->0));
    assert(lacks(level, '\n'));
    assert(lacks(stderr@, '\n'));
    law_lines_single(stderr@);
    let none = Seq::<Seq<char>>::empty();
    assert(seq![stderr@] + none =~= seq![stderr@]);
    law_javac_begins(name@, stderr@, none, p, 0);
    law_javac_nothing(name@);
    let all = javac_lines(name@, lines_of(stderr@));
    assert(all.skip(1).len() == 0);
    law_javac_output(stderr, name, Ok::<Vec<Diagnostic>, PatternRefused>(r));
    assert(r@[0]@ == all[0]);
    law_diagnostic_view(r@[0]);
    law_counted_written(line, all[0].span->0.start.line);
}

/// What javac calls an error or a warning on a file begins a message, and nothing
/// else: `name:line: level: message` stands in its line, and the message goes on
/// to the end of it.
pub proof fn law_javac_only(name: Seq<char>, line: Seq<char>, p: JavacParts)
    requires
        javac_match(name, line, p),
        lacks(line, '\n'),
    ensures
        line == p.before + (name + (seq![':'] + (p.line + (seq![':', ' '] + (p.level + (seq![
            ':',
            ' ',
        ] + p.message)))))),
        p.line.len() > 0,
        forall|i: int| 0 <= i < p.line.len() ==> is_decimal(#[trigger] p.line[i]),
        p.level == "error"@ || p.level == "warning"@,
        p.message.len() > 0,
{
    let longer = JavacParts { message: p.message + p.after, after: seq![], ..p };
    let after = p.message + p.after;
    assert(longer.message + longer.after =~= after);
    assert(javac_text(name, longer) =~= javac_text(name, p));
    assert forall|i: int| 0 <= i < after.len() implies #[trigger] after[i] != '\n' by {
        let at = line.len() - after.len() + i;
        assert(javac_text(name, p)[at] == after[i]);
    }
    assert(javac_splits(name, line, longer));
    assert(p.after.len() == 0);
    assert(line =~= p.before + (name + (seq![':'] + (p.line + (seq![':', ' '] + (p.level + (seq![
        ':',
        ' ',
    ] + p.message)))))));
}

/// A source that begins with `public class Name` has this name, and so has one with
/// a modifier between the two words.
pub proof fn law_class_printed(
    content: &str,
    r: String,
    word: Seq<char>,
    name: Seq<char>,
    rest: Seq<char>,
)
    requires
        call_ensures(get_class_name, (content,), r),
        word == "abstract "@ || word == "final "@ || word == "sealed "@ || word == "non-sealed "@
            || word == "strictfp "@ || word.len() == 0,
        name.len() > 0,
        forall|i: int|
            0 <= i < name.len() ==> ('a' <= #[trigger] name[i] <= 'z' || 'A' <= name[i] <= 'Z' || '0'
                <= name[i] <= '9' || name[i] == '_' || name[i] == '$'),
        rest.len() > 0 ==> !('a' <= rest[0] <= 'z' || 'A' <= rest[0] <= 'Z' || '0' <= rest[0] <= '9'
            || rest[0] == '_' || rest[0] == '$'),
        content@ == "public "@ + (word + ("class "@ + (name + rest))),
    ensures
        r@ == name,
{
    reveal_strlit("public ");
    reveal_strlit("class ");
    reveal_strlit("public");
    reveal_strlit("class");
    reveal_strlit("abstract ");
    reveal_strlit("final ");
    reveal_strlit("sealed ");
    reveal_strlit("non-sealed ");
    reveal_strlit("strictfp ");
    reveal_strlit("abstract");
    reveal_strlit("final");
    reveal_strlit("sealed");
    reveal_strlit("non-sealed");
    reveal_strlit("strictfp");
    let bare = word.drop_last();
    if word.len() > 0 {
        if word == "abstract "@ {
            assert(bare =~= "abstract"@);
        } else if word == "final "@ {
            assert(bare =~= "final"@);
        } else if word == "sealed "@ {
            assert(bare =~= "sealed"@);
        } else if word == "non-sealed "@ {
            assert(bare =~= "non-sealed"@);
        } else {
            assert(bare =~= "strictfp"@);
        }
        assert(word =~= bare + seq![' ']);
    }
    let modifiers = if word.len() > 0 {
        seq![ModifierParts { word: bare, space: seq![' '] }]
    } else {
        seq![]
    };
    let p = ClassParts {
        before: seq![],
        public_gap: seq![' '],
        modifiers,
        name_gap: seq![' '],
        name,
        after: rest,
    };
    let tail = "class"@ + (p.name_gap + (name + rest));
    reveal_with_fuel(modified, 3);
    if word.len() > 0 {
        assert(modifiers.skip(1).len() == 0);
        assert(modified(modifiers, tail) == bare + (seq![' '] + tail));
        assert(modified(modifiers, tail) =~= word + tail);
    } else {
        assert(modified(modifiers, tail) =~= word + tail);
    }
    assert(p.before + class_declaration(p, rest) =~= content@);
    assert(class_splits(content@, p));
    assert(place_of(p.before) == Place::Code && open_braces(p.before) == 0);
    law_class_modifiers(content@, p);
}

/// A declaration of a public class is `public`, modifiers out of five, `class` and
/// a name, with white space of any length after each of them but the name.
pub proof fn law_class_only(text: Seq<char>, p: ClassParts)
    requires
        class_splits(text, p),
    ensures
        text == p.before + ("public"@ + (p.public_gap + modified(
            p.modifiers,
            "class"@ + (p.name_gap + (p.name + p.after)),
        ))),
        p.public_gap.len() > 0 && p.name_gap.len() > 0 && p.name.len() > 0,
        blank(p.public_gap) && blank(p.name_gap),
        forall|i: int|
            0 <= i < p.modifiers.len() ==> {
                let m = #[trigger] p.modifiers[i];
                &&& m.word == "abstract"@ || m.word == "final"@ || m.word == "sealed"@ || m.word
                    == "non-sealed"@ || m.word == "strictfp"@
                &&& m.space.len() > 0 && blank(m.space)
            },
        forall|i: int|
            0 <= i < p.name.len() ==> ('a' <= #[trigger] p.name[i] <= 'z' || 'A' <= p.name[i] <= 'Z'
                || '0' <= p.name[i] <= '9' || p.name[i] == '_' || p.name[i] == '$'),
{
    assert forall|i: int|
        0 <= i < p.name.len() implies ('a' <= #[trigger] p.name[i] <= 'z' || 'A' <= p.name[i] <= 'Z'
        || '0' <= p.name[i] <= '9' || p.name[i] == '_' || p.name[i] == '$') by {
        assert(name_character(p.name[i]));
    }
}

/// Modifiers stand one after the other, each with its space behind it.
pub proof fn law_modifiers_only(
    modifiers: Seq<ModifierParts>,
    m: ModifierParts,
    rest: Seq<char>,
)
    ensures
        modified(Seq::<ModifierParts>::empty(), rest) == rest,
        modified(seq![m] + modifiers, rest) == m.word + (m.space + modified(modifiers, rest)),
{
    let all = seq![m] + modifiers;
    assert(all.skip(1) =~= modifiers);
    assert(all[0] == m);
}

/// A code at the end of a message of gcc stands in brackets, holds no closing
/// bracket, and has nothing but white space between it and the message; the
/// message is as short as it can be.
pub proof fn law_gcc_code_only(text: Seq<char>, p: CodedParts, q: CodedParts)
    requires
        coded_match(text, p),
    ensures
        text == p.message + (p.space + (seq!['['] + (p.code + seq![']']))),
        blank(p.space),
        p.code.len() > 0,
        lacks(p.code, ']'),
        text == q.message + (q.space + (seq!['['] + (q.code + seq![']']))) && blank(q.space)
            && q.code.len() > 0 && lacks(q.code, ']') ==> p.message.len() <= q.message.len(),
{
    if text == q.message + (q.space + (seq!['['] + (q.code + seq![']']))) && blank(q.space)
        && q.code.len() > 0 && lacks(q.code, ']') {
        assert(coded_splits(text, q));
    }
}

/// A number at the start of a message of fpc stands in brackets, with white space
/// after it; the message begins where that ends.
pub proof fn law_fpc_code_only(text: Seq<char>, p: NumberedParts)
    requires
        numbered_match(text, p),
    ensures
        text == seq!['('] + (p.code + (seq![')'] + (p.space + p.message))),
        p.code.len() > 0 && p.space.len() > 0 && p.message.len() > 0,
        forall|i: int| 0 <= i < p.code.len() ==> is_decimal(#[trigger] p.code[i]),
        blank(p.space),
        lacks(p.message, '\n'),
        p.message.len() > 1 ==> !is_white_space(p.message[0]),
{
    if p.message.len() > 1 && is_white_space(p.message[0]) {
        let space = p.space.push(p.message[0]);
        let message = p.message.skip(1);
        let q = NumberedParts { code: p.code, space, message };
        assert(space + message =~= p.space + p.message);
        assert forall|i: int| 0 <= i < space.len() implies is_white_space(#[trigger] space[i]) by {
            if i < p.space.len() {
                assert(space[i] == p.space[i]);
            }
        }
        assert forall|i: int| 0 <= i < message.len() implies #[trigger] message[i] != '\n' by {
            assert(p.message[i + 1] != '\n');
        }
        assert(numbered_splits(text, q));
    }
}

} // verus!
