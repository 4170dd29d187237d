//! Lines, numbers and searches.

use vstd::prelude::*;

use crate::text::{
    ascii_digits, begins_with, contains_text, copy_optional, decimal_value, ends_with_text, lacks,
    law_lines_first, law_lines_single, lines_of, number_or_one, occurs_at, occurs_in, optional_text,
    parse_usize, read_number, same_text, split_lines, texts, usize_of,
};

verus! {

/// The contents of a list of strings are those of its strings, one by one.
pub proof fn law_texts(list: Seq<String>)
    ensures
        texts(list).len() == list.len(),
        forall|i: int| 0 <= i < list.len() ==> texts(list)[i] == (#[trigger] list[i])@,
{
}

/// The content of an optional string is that of the string, and there is one
/// where there is a string.
pub proof fn law_optional_text(s: Option<String>)
    ensures
        s is Some <==> optional_text(s) is Some,
        s matches Some(t) ==> optional_text(s) == Some(t@),
{
}

/// A copy of an optional string has the same content.
pub proof fn law_copy(s: &Option<String>, r: Option<String>)
    requires
        call_ensures(copy_optional, (s,), r),
    ensures
        r is Some <==> *s is Some,
        r matches Some(t) ==> (*s matches Some(u) && t@ == u@),
{
}

/// The lines of a text come out of splitting it.
pub proof fn law_split(text: &str, r: Vec<String>)
    requires
        call_ensures(split_lines, (text,), r),
    ensures
        r@.len() == lines_of(text@).len(),
        forall|i: int| 0 <= i < r@.len() ==> (#[trigger] r@[i])@ == lines_of(text@)[i],
{
    assert forall|i: int| 0 <= i < r@.len() implies (#[trigger] r@[i])@ == lines_of(text@)[i] by {
        assert(texts(r@)[i] == r@[i]@);
    }
}

/// An empty text has no lines; a text without line feeds is one line; and what
/// comes before the first line feed is the first line, without the carriage
/// return that may stand there.
pub proof fn law_lines(line: Seq<char>, rest: Seq<char>)
    requires
        lacks(line, '\n'),
    ensures
        lines_of(Seq::<char>::empty()) == Seq::<Seq<char>>::empty(),
        line.len() > 0 ==> lines_of(line) == seq![line],
        line.len() == 0 || line.last() != '\r' ==> lines_of(line + (seq!['\n'] + rest)) == seq![line]
            + lines_of(rest),
        lines_of(line + (seq!['\r', '\n'] + rest)) == seq![line] + lines_of(rest),
{
    if line.len() > 0 {
        law_lines_single(line);
    }
    law_lines_first(line, rest);
    let returned = line.push('\r');
    law_lines_first(returned, rest);
    assert(returned + (seq!['\n'] + rest) == line + (seq!['\r', '\n'] + rest));
    assert(returned.drop_last() == line);
}

/// The digit for a number below ten.
pub open spec fn digit(n: nat) -> char {
    (n + 48) as u8 as char
}

/// A number in ASCII digits, as one writes it.
pub open spec fn written(n: nat) -> Seq<char>
    decreases n,
{
    if n < 10 {
        seq![digit(n)]
    } else {
        written(n / 10).push(digit(n % 10))
    }
}

pub proof fn lemma_written(n: nat)
    ensures
        ascii_digits(written(n)),
        decimal_value(written(n)) == n,
        written(n)[0] != '+',
    decreases n,
{
    if n < 10 {
        let s = written(n);
        assert(s.last() == digit(n));
        assert(decimal_value(s.drop_last()) == 0) by {
            assert(s.drop_last().len() == 0);
        }
    } else {
        lemma_written(n / 10);
        let s = written(n);
        assert(s.drop_last() == written(n / 10));
        assert(s.last() == digit(n % 10));
        assert forall|i: int| 0 <= i < s.len() implies '0' <= #[trigger] s[i] <= '9' by {
            if i < written(n / 10).len() {
                assert(s[i] == written(n / 10)[i]);
            }
        }
        assert(s[0] == written(n / 10)[0]);
    }
}

/// A number that was written down is read back, with or without a plus sign; one
/// that is too large is not read, and one is taken in its place.
pub proof fn law_number_written(n: nat)
    ensures
        n <= usize::MAX ==> usize_of(written(n)) == Some(n as usize) && number_or_one(written(n))
            == n,
        n > usize::MAX ==> usize_of(written(n)) is None && number_or_one(written(n)) == 1,
        usize_of(seq!['+'] + written(n)) == usize_of(written(n)),
{
    lemma_written(n);
    assert((seq!['+'] + written(n)).skip(1) == written(n));
}

/// A text that is no number is taken for one, and any other for its number.
pub proof fn law_number_or_one(s: Seq<char>)
    ensures
        usize_of(s) matches Some(n) ==> number_or_one(s) == n,
        usize_of(s) is None ==> number_or_one(s) == 1,
{
}

/// Zeros in front of a number, and one plus sign before it, change nothing.
pub proof fn law_number_zeros(s: Seq<char>)
    requires
        s.len() > 0,
        forall|i: int| 0 <= i < s.len() ==> '0' <= #[trigger] s[i] <= '9',
    ensures
        usize_of(seq!['0'] + s) == usize_of(s),
        usize_of(seq!['+'] + s) == usize_of(s),
{
    assert((seq!['+'] + s).skip(1) == s);
    lemma_zero_value(s);
    let z = seq!['0'] + s;
    assert forall|i: int| 0 <= i < z.len() implies '0' <= #[trigger] z[i] <= '9' by {
        if i > 0 {
            assert(z[i] == s[i - 1]);
        }
    }
    assert(s[0] != '+');
}

proof fn lemma_zero_value(s: Seq<char>)
    ensures
        decimal_value(seq!['0'] + s) == decimal_value(s),
    decreases s.len(),
{
    let z = seq!['0'] + s;
    if s.len() == 0 {
        assert(z.drop_last() == Seq::<char>::empty());
        assert(decimal_value(Seq::<char>::empty()) == 0);
        assert(decimal_value(s) == 0);
        assert(z.last() == '0');
    } else {
        lemma_zero_value(s.drop_last());
        assert(z.drop_last() == seq!['0'] + s.drop_last());
        assert(z.last() == s.last());
    }
}

/// A text that is empty, a lone sign, or holds anything but a plus sign at its
/// start and ASCII digits is no number, and one is taken in its place.
pub proof fn law_no_number(s: Seq<char>)
    requires
        s.len() == 0 || s == seq!['+'] || exists|i: int|
            0 <= i < s.len() && !('0' <= #[trigger] s[i] <= '9') && !(i == 0 && s[i] == '+'),
    ensures
        usize_of(s) is None,
        number_or_one(s) == 1,
{
    if s.len() > 0 && s != seq!['+'] {
        let i = choose|i: int|
            0 <= i < s.len() && !('0' <= #[trigger] s[i] <= '9') && !(i == 0 && s[i] == '+');
        if s[0] == '+' {
            assert(s.skip(1)[i - 1] == s[i]);
        }
    }
}

/// Reading a number gives the number that the text stands for.
pub proof fn law_numbers_read(s: &str, r: Option<usize>, n: usize)
    requires
        call_ensures(parse_usize, (s,), r),
        call_ensures(read_number, (s,), n),
    ensures
        r == usize_of(s@),
        n == match r {
            Some(k) => k,
            None => 1,
        },
{
}

/// Texts are the same where all their characters are.
pub proof fn law_same_text(a: &str, b: &str, r: bool)
    requires
        call_ensures(same_text, (a, b), r),
    ensures
        r <==> a@.len() == b@.len() && forall|i: int|
            0 <= i < a@.len() ==> #[trigger] a@[i] == b@[i],
{
    if a@.len() == b@.len() && forall|i: int| 0 <= i < a@.len() ==> #[trigger] a@[i] == b@[i] {
        assert(a@ =~= b@);
    }
}

/// A text is found where it stands between two others.
pub proof fn law_contains(hay: &str, needle: &str, r: bool, a: Seq<char>, b: Seq<char>)
    requires
        call_ensures(contains_text, (hay, needle), r),
    ensures
        hay@ == a + (needle@ + b) ==> r,
        r ==> exists|a: Seq<char>, b: Seq<char>| hay@ == #[trigger] (a + (needle@ + b)),
{
    if hay@ == a + (needle@ + b) {
        lemma_occurs(a, needle@, b);
    }
    if r {
        lemma_occurs_parts(hay@, needle@);
    }
}

/// What stands between two texts occurs in all.
pub proof fn lemma_occurs(a: Seq<char>, needle: Seq<char>, b: Seq<char>)
    ensures
        occurs_in(a + (needle + b), needle),
{
    let hay = a + (needle + b);
    let at = a.len() as int;
    assert(hay.subrange(at, at + needle.len()) =~= needle);
    assert(occurs_at(hay, needle, at));
}

/// What occurs in a text stands between two others.
pub proof fn lemma_occurs_parts(hay: Seq<char>, needle: Seq<char>)
    requires
        occurs_in(hay, needle),
    ensures
        exists|a: Seq<char>, b: Seq<char>| hay == #[trigger] (a + (needle + b)),
{
    let at = choose|at: int| occurs_at(hay, needle, at);
    let a = hay.take(at);
    let b = hay.skip(at + needle.len());
    assert forall|i: int| 0 <= i < needle.len() implies hay[at + i] == #[trigger] needle[i] by {
        assert(hay.subrange(at, at + needle.len())[i] == needle[i]);
    }
    assert(hay =~= a + (needle + b));
}

/// A text ends with another that stands at its end.
pub proof fn law_ends_with(s: &str, suffix: &str, r: bool, a: Seq<char>)
    requires
        call_ensures(ends_with_text, (s, suffix), r),
    ensures
        s@ == a + suffix@ ==> r,
        r ==> exists|a: Seq<char>| s@ == #[trigger] (a + suffix@),
{
    if s@ == a + suffix@ {
        assert(s@.subrange(a.len() as int, s@.len() as int) =~= suffix@);
    }
    if r {
        let at = s@.len() - suffix@.len();
        assert(s@ =~= s@.take(at) + suffix@) by {
            assert forall|i: int| 0 <= i < suffix@.len() implies s@[at + i] == #[trigger] suffix@[i] by {
                assert(s@.subrange(at, s@.len() as int)[i] == suffix@[i]);
            }
        }
    }
}

/// A text begins with its first character.
pub proof fn law_begins_with(s: &str, c: char, r: bool)
    requires
        call_ensures(begins_with, (s, c), r),
    ensures
        r <==> s@.len() > 0 && s@[0] == c,
{
}

} // verus!
