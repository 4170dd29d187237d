//! Text as sequences of characters: lines, numbers, blanks and searches.

use vstd::prelude::*;

verus! {

/// `String::push` appends one character.
pub assume_specification[ String::push ](s: &mut String, c: char)
    ensures
        final(s)@ == old(s)@.push(c),
;

/// The Unicode property `White_Space`.
pub open spec fn is_white_space(c: char) -> bool {
    let u = c as u32;
    ||| 0x09 <= u <= 0x0d
    ||| u == 0x20
    ||| u == 0x85
    ||| u == 0xa0
    ||| u == 0x1680
    ||| 0x2000 <= u <= 0x200a
    ||| 0x2028 <= u <= 0x2029
    ||| u == 0x202f
    ||| u == 0x205f
    ||| u == 0x3000
}

/// Every character of `s` is white space.
pub open spec fn blank(s: Seq<char>) -> bool {
    forall|i: int| 0 <= i < s.len() ==> is_white_space(#[trigger] s[i])
}

/// The character `c` does not occur in `s`.
pub open spec fn lacks(s: Seq<char>, c: char) -> bool {
    forall|i: int| 0 <= i < s.len() ==> #[trigger] s[i] != c
}

/// The contents of a list of strings.
pub open spec fn texts(list: Seq<String>) -> Seq<Seq<char>> {
    list.map_values(|s: String| s@)
}

/// The content of an optional string.
pub open spec fn optional_text(s: Option<String>) -> Option<Seq<char>> {
    match s {
        Some(s) => Some(s@),
        None => None,
    }
}

/// `needle` occurs in `hay` at `at`.
pub open spec fn occurs_at(hay: Seq<char>, needle: Seq<char>, at: int) -> bool {
    &&& 0 <= at
    &&& at + needle.len() <= hay.len()
    &&& hay.subrange(at, at + needle.len()) == needle
}

/// `needle` occurs somewhere in `hay`.
pub open spec fn occurs_in(hay: Seq<char>, needle: Seq<char>) -> bool {
    exists|at: int| occurs_at(hay, needle, at)
}

/// `s` without a carriage return at its end.
pub open spec fn without_return(s: Seq<char>) -> Seq<char> {
    if s.len() > 0 && s.last() == '\r' {
        s.drop_last()
    } else {
        s
    }
}

/// How many characters come before the first `c`, or before the end.
pub open spec fn before(s: Seq<char>, c: char) -> nat
    decreases s.len(),
{
    if s.len() == 0 || s[0] == c {
        0
    } else {
        1 + before(s.skip(1), c)
    }
}

/// The lines of a text. A line ends with a line feed, or a carriage return and
/// a line feed; after the last line the line feed may be missing.
pub open spec fn lines_of(s: Seq<char>) -> Seq<Seq<char>>
    decreases s.len(),
{
    let n = before(s, '\n') as int;
    if s.len() == 0 {
        seq![]
    } else if n >= s.len() {
        seq![s]
    } else {
        seq![without_return(s.take(n))] + lines_of(s.skip(n + 1))
    }
}

/// `s` holds at least one character, and ASCII digits alone.
pub open spec fn ascii_digits(s: Seq<char>) -> bool {
    &&& s.len() > 0
    &&& forall|i: int| 0 <= i < s.len() ==> '0' <= #[trigger] s[i] <= '9'
}

/// The number that ASCII digits stand for.
pub open spec fn decimal_value(s: Seq<char>) -> nat
    decreases s.len(),
{
    if s.len() == 0 {
        0
    } else {
        (decimal_value(s.drop_last()) * 10 + (s.last() as int - '0' as int)) as nat
    }
}

/// The number that a text stands for: an optional plus sign and ASCII digits
/// whose value fits into a `usize`.
pub open spec fn usize_of(s: Seq<char>) -> Option<usize> {
    let digits = if s.len() > 0 && s[0] == '+' {
        s.skip(1)
    } else {
        s
    };
    if ascii_digits(digits) && decimal_value(digits) <= usize::MAX {
        Some(decimal_value(digits) as usize)
    } else {
        None
    }
}

/// The number that is written in a text; one where it is none.
pub open spec fn number_or_one(s: Seq<char>) -> usize {
    match usize_of(s) {
        Some(n) => n,
        None => 1,
    }
}

/// `s` without the white space at its start.
pub open spec fn trimmed_start(s: Seq<char>) -> Seq<char>
    decreases s.len(),
{
    if s.len() > 0 && is_white_space(s[0]) {
        trimmed_start(s.skip(1))
    } else {
        s
    }
}

/// How often `c` is repeated at the start of `s`.
pub open spec fn leading(s: Seq<char>, c: char) -> nat
    decreases s.len(),
{
    if s.len() > 0 && s[0] == c {
        1 + leading(s.skip(1), c)
    } else {
        0
    }
}

/// Tells white space.
pub fn white_space(c: char) -> (r: bool)
    ensures
        r == is_white_space(c),
{
    let u = c as u32;
    (0x09 <= u && u <= 0x0d) || u == 0x20 || u == 0x85 || u == 0xa0 || u == 0x1680 || (0x2000 <= u
        && u <= 0x200a) || (0x2028 <= u && u <= 0x2029) || u == 0x202f || u == 0x205f || u == 0x3000
}

/// The characters of a text.
pub fn characters(s: &str) -> (r: Vec<char>)
    ensures
        r@ == s@,
{
    let mut r: Vec<char> = Vec::new();
    for c in it: s.chars()
        invariant
            it.seq() == s@,
            r@ == s@.take(it.index() as int),
    {
        r.push(c);
    }
    assert(s@.take(s@.len() as int) == s@);
    r
}

/// The characters from `from` up to `to` as a string.
pub fn text_between(chars: &Vec<char>, from: usize, to: usize) -> (r: String)
    requires
        from <= to <= chars@.len(),
    ensures
        r@ == chars@.subrange(from as int, to as int),
{
    let mut r = String::new();
    let mut i: usize = from;
    while i < to
        invariant
            from <= i <= to <= chars@.len(),
            r@ == chars@.subrange(from as int, i as int),
        decreases to - i,
    {
        r.push(chars[i]);
        i += 1;
        assert(r@ == chars@.subrange(from as int, i as int));
    }
    r
}

/// A copy of an optional string.
pub fn copy_optional(s: &Option<String>) -> (r: Option<String>)
    ensures
        optional_text(r) == optional_text(*s),
{
    match s {
        Some(s) => Some(s.clone()),
        None => None,
    }
}

/// Whether two texts are the same.
pub fn same_text(a: &str, b: &str) -> (r: bool)
    ensures
        r == (a@ == b@),
{
    let x = characters(a);
    let y = characters(b);
    if x.len() != y.len() {
        return false;
    }
    let mut i: usize = 0;
    while i < x.len()
        invariant
            x@ == a@,
            y@ == b@,
            x@.len() == y@.len(),
            i <= x@.len(),
            forall|k: int| 0 <= k < i ==> x@[k] == y@[k],
        decreases x@.len() - i,
    {
        if x[i] != y[i] {
            return false;
        }
        i += 1;
    }
    assert(a@ == b@);
    true
}

/// Whether `needle` stands in `hay` at `at`.
fn found_at(hay: &Vec<char>, needle: &Vec<char>, at: usize) -> (r: bool)
    requires
        at + needle@.len() <= hay@.len(),
    ensures
        r == occurs_at(hay@, needle@, at as int),
{
    let total = hay.len();
    let mut i: usize = 0;
    while i < needle.len()
        invariant
            at + needle@.len() <= total,
            total == hay@.len(),
            i <= needle@.len(),
            forall|k: int| 0 <= k < i ==> hay@[at + k] == needle@[k],
        decreases needle@.len() - i,
    {
        if hay[at + i] != needle[i] {
            assert(hay@.subrange(at as int, at + needle@.len())[i as int] != needle@[i as int]);
            return false;
        }
        i += 1;
    }
    assert(hay@.subrange(at as int, at + needle@.len()) == needle@);
    true
}

/// Whether `needle` occurs in `hay`.
pub fn contains_text(hay: &str, needle: &str) -> (r: bool)
    ensures
        r == occurs_in(hay@, needle@),
{
    let h = characters(hay);
    let n = characters(needle);
    if n.len() > h.len() {
        return false;
    }
    let last: usize = h.len() - n.len();
    let mut at: usize = 0;
    loop
        invariant
            h@ == hay@,
            n@ == needle@,
            last == h@.len() - n@.len(),
            at <= last,
            forall|k: int| 0 <= k < at ==> !occurs_at(hay@, needle@, k),
        decreases last - at,
    {
        if found_at(&h, &n, at) {
            return true;
        }
        if at == last {
            assert(forall|k: int| occurs_at(hay@, needle@, k) ==> k <= last);
            return false;
        }
        at += 1;
    }
}

/// Whether `s` begins with `c`.
pub fn begins_with(s: &str, c: char) -> (r: bool)
    ensures
        r == (s@.len() > 0 && s@[0] == c),
{
    let chars = characters(s);
    chars.len() > 0 && chars[0] == c
}

/// Whether `s` ends with `suffix`.
pub fn ends_with_text(s: &str, suffix: &str) -> (r: bool)
    ensures
        r == occurs_at(s@, suffix@, s@.len() - suffix@.len()),
{
    let h = characters(s);
    let n = characters(suffix);
    if n.len() > h.len() {
        return false;
    }
    found_at(&h, &n, h.len() - n.len())
}

/// `before` counts up to the first occurrence.
pub proof fn lemma_before(s: Seq<char>, c: char, n: int)
    requires
        0 <= n <= s.len(),
        forall|k: int| 0 <= k < n ==> s[k] != c,
        n == s.len() || s[n] == c,
    ensures
        before(s, c) == n,
    decreases s.len(),
{
    if n > 0 {
        assert forall|k: int| 0 <= k < n - 1 implies s.skip(1)[k] != c by {
            assert(s[k + 1] != c);
        }
        lemma_before(s.skip(1), c, n - 1);
    }
}

/// The lines of a text.
pub fn split_lines(text: &str) -> (r: Vec<String>)
    ensures
        texts(r@) == lines_of(text@),
{
    let chars = characters(text);
    let mut lines: Vec<String> = Vec::new();
    let mut start: usize = 0;
    let mut i: usize = 0;
    assert(text@.skip(0) == text@);
    while i < chars.len()
        invariant
            chars@ == text@,
            start <= i <= chars@.len(),
            forall|k: int| start <= k < i ==> chars@[k] != '\n',
            lines_of(text@) == texts(lines@) + lines_of(text@.skip(start as int)),
        decreases chars@.len() - i,
    {
        if chars[i] == '\n' {
            let ghost rest = text@.skip(start as int);
            let ghost done = texts(lines@);
            proof {
                lemma_before(rest, '\n', i - start);
                assert(rest.skip(i - start + 1) == text@.skip(i + 1));
            }
            let end: usize = if i > start && chars[i - 1] == '\r' {
                i - 1
            } else {
                i
            };
            let line = text_between(&chars, start, end);
            assert(line@ == without_return(rest.take(i - start)));
            lines.push(line);
            assert(texts(lines@) == done + seq![line@]);
            start = i + 1;
        }
        i += 1;
    }
    if start < chars.len() {
        let ghost rest = text@.skip(start as int);
        let ghost done = texts(lines@);
        proof {
            lemma_before(rest, '\n', rest.len() as int);
        }
        let line = text_between(&chars, start, chars.len());
        assert(line@ == rest);
        lines.push(line);
        assert(texts(lines@) == done + seq![line@]);
    } else {
        assert(texts(lines@) == texts(lines@) + lines_of(text@.skip(start as int)));
    }
    lines
}

proof fn lemma_decimal_value_grows(s: Seq<char>, n: int)
    requires
        0 <= n <= s.len(),
        forall|i: int| 0 <= i < s.len() ==> '0' <= #[trigger] s[i] <= '9',
    ensures
        decimal_value(s.take(n)) <= decimal_value(s),
    decreases s.len() - n,
{
    if n < s.len() {
        lemma_decimal_value_grows(s, n + 1);
        assert(s.take(n + 1).drop_last() == s.take(n));
        assert(s.take(n + 1).last() == s[n]);
    } else {
        assert(s.take(n) == s);
    }
}

/// The number that a text stands for, as `str::parse` reads a `usize`.
pub fn parse_usize(s: &str) -> (r: Option<usize>)
    ensures
        r == usize_of(s@),
{
    let chars = characters(s);
    let start: usize = if chars.len() > 0 && chars[0] == '+' {
        1
    } else {
        0
    };
    let ghost digits = s@.skip(start as int);
    assert(s@.skip(0) == s@);
    if chars.len() == start {
        return None;
    }
    let mut value: usize = 0;
    let mut i: usize = start;
    assert(digits.take(0).len() == 0);
    while i < chars.len()
        invariant
            chars@ == s@,
            start <= i <= chars@.len(),
            start < chars@.len(),
            digits == s@.skip(start as int),
            usize_of(s@) == if ascii_digits(digits) && decimal_value(digits) <= usize::MAX {
                Some(decimal_value(digits) as usize)
            } else {
                None
            },
            forall|k: int| 0 <= k < i - start ==> '0' <= #[trigger] digits[k] <= '9',
            value == decimal_value(digits.take(i - start)),
        decreases chars@.len() - i,
    {
        let c = chars[i];
        assert(digits[i - start] == c);
        if c < '0' || c > '9' {
            return None;
        }
        let d: usize = (c as u32 - '0' as u32) as usize;
        let ghost next = digits.take(i - start + 1);
        proof {
            assert(next.drop_last() == digits.take(i - start));
            assert(next.last() == c);
            assert(decimal_value(next) == value * 10 + d);
        }
        if value > (usize::MAX - d) / 10 {
            proof {
                if ascii_digits(digits) {
                    lemma_decimal_value_grows(digits, i - start + 1);
                }
            }
            return None;
        }
        value = value * 10 + d;
        i += 1;
    }
    assert(digits.take(digits.len() as int) == digits);
    Some(value)
}

/// Reads a number, and one where there is none.
pub fn read_number(s: &str) -> (r: usize)
    ensures
        r == number_or_one(s@),
{
    match parse_usize(s) {
        Some(n) => n,
        None => 1,
    }
}

/// White space is trimmed up to the first other character.
pub proof fn lemma_trimmed_start(s: Seq<char>, n: int)
    requires
        0 <= n <= s.len(),
        forall|k: int| 0 <= k < n ==> is_white_space(#[trigger] s[k]),
        n == s.len() || !is_white_space(s[n]),
    ensures
        trimmed_start(s) == s.skip(n),
    decreases n,
{
    if n > 0 {
        lemma_trimmed_start(s.skip(1), n - 1);
        assert(s.skip(1).skip(n - 1) == s.skip(n));
    } else {
        assert(s.skip(0) == s);
    }
}

/// How many characters of white space come first.
pub fn indentation(chars: &Vec<char>) -> (n: usize)
    ensures
        n <= chars@.len(),
        chars@.skip(n as int) == trimmed_start(chars@),
{
    let mut n: usize = 0;
    while n < chars.len() && white_space(chars[n])
        invariant
            n <= chars@.len(),
            forall|k: int| 0 <= k < n ==> is_white_space(#[trigger] chars@[k]),
        decreases chars@.len() - n,
    {
        n += 1;
    }
    proof {
        lemma_trimmed_start(chars@, n as int);
    }
    n
}

/// How many characters from `from` on come before the first `c`.
pub fn count_before(chars: &Vec<char>, from: usize, c: char) -> (n: usize)
    requires
        from <= chars@.len(),
    ensures
        n == before(chars@.skip(from as int), c),
        n <= chars@.len() - from,
{
    let total = chars.len();
    let mut n: usize = 0;
    while n < total - from && chars[from + n] != c
        invariant
            total == chars@.len(),
            from + n <= total,
            forall|k: int| from <= k < from + n ==> chars@[k] != c,
        decreases total - n,
    {
        n += 1;
    }
    proof {
        lemma_before(chars@.skip(from as int), c, n as int);
    }
    n
}

/// `leading` counts what is repeated.
pub proof fn lemma_leading(run: Seq<char>, rest: Seq<char>, c: char)
    requires
        forall|i: int| 0 <= i < run.len() ==> #[trigger] run[i] == c,
        rest.len() > 0 ==> rest[0] != c,
    ensures
        leading(run + rest, c) == run.len(),
    decreases run.len(),
{
    if run.len() > 0 {
        lemma_leading(run.skip(1), rest, c);
        assert((run + rest).skip(1) == run.skip(1) + rest);
        assert((run + rest)[0] == run[0]);
    } else {
        assert(run + rest == rest);
    }
}

/// How often `c` is repeated from `from` on.
pub fn count_from(chars: &Vec<char>, from: usize, c: char) -> (n: usize)
    requires
        from <= chars@.len(),
    ensures
        n == leading(chars@.skip(from as int), c),
{
    let total = chars.len();
    let mut n: usize = 0;
    while n < total - from && chars[from + n] == c
        invariant
            total == chars@.len(),
            from + n <= total,
            leading(chars@.skip(from as int), c) == n + leading(chars@.skip(from + n), c),
        decreases chars@.len() - n,
    {
        assert(chars@.skip(from + n).skip(1) == chars@.skip(from + n + 1));
        n += 1;
    }
    n
}

/// What comes before the first line feed is the first line; what comes after it
/// makes the other lines.
pub proof fn law_lines_first(line: Seq<char>, rest: Seq<char>)
    requires
        lacks(line, '\n'),
    ensures
        lines_of(line + (seq!['\n'] + rest)) == seq![without_return(line)] + lines_of(rest),
{
    let s = line + (seq!['\n'] + rest);
    lemma_before(s, '\n', line.len() as int);
    assert(s.take(line.len() as int) == line);
    assert(s.skip(line.len() as int + 1) == rest);
}

/// A text without line feeds is one line.
pub proof fn law_lines_single(line: Seq<char>)
    requires
        lacks(line, '\n'),
        line.len() > 0,
    ensures
        lines_of(line) == seq![line],
{
    lemma_before(line, '\n', line.len() as int);
}

/// The lines of two texts, of which the first ends with a line feed, are the
/// lines of the first and then those of the second.
pub proof fn law_lines_joined(a: Seq<char>, b: Seq<char>)
    requires
        a.len() > 0 ==> a.last() == '\n',
    ensures
        lines_of(a + b) == lines_of(a) + lines_of(b),
    decreases a.len(),
{
    if a.len() == 0 {
        assert(a + b == b);
        assert(lines_of(a) + lines_of(b) == lines_of(b));
    } else {
        let n = before(a, '\n') as int;
        lemma_before_bounds(a, '\n');
        let line = a.take(n);
        let rest = a.skip(n + 1);
        assert(a == line + (seq!['\n'] + rest));
        assert(a + b == line + (seq!['\n'] + (rest + b)));
        law_lines_first(line, rest);
        law_lines_first(line, rest + b);
        if rest.len() > 0 {
            assert(rest.last() == a.last());
        }
        law_lines_joined(rest, b);
        assert(seq![without_return(line)] + (lines_of(rest) + lines_of(b)) == (
        seq![without_return(line)] + lines_of(rest)) + lines_of(b));
    }
}

/// A line feed after the last line changes nothing. (It would complete a
/// carriage return there to the end of a line.)
pub proof fn law_lines_completed(s: Seq<char>)
    requires
        s.len() > 0,
        s.last() != '\n',
        s.last() != '\r',
    ensures
        lines_of(s.push('\n')) == lines_of(s),
    decreases s.len(),
{
    let n = before(s, '\n') as int;
    lemma_before_bounds(s, '\n');
    let none = Seq::<char>::empty();
    if n == s.len() {
        law_lines_first(s, none);
        assert(s.push('\n') == s + (seq!['\n'] + none));
        assert(seq![s] + lines_of(none) == seq![s]);
        law_lines_single(s);
    } else {
        let line = s.take(n);
        let rest = s.skip(n + 1);
        assert(s == line + (seq!['\n'] + rest));
        assert(s.push('\n') == line + (seq!['\n'] + rest.push('\n')));
        assert(rest.last() == s.last());
        law_lines_first(line, rest);
        law_lines_first(line, rest.push('\n'));
        law_lines_completed(rest);
    }
}

/// A line feed between two texts parts their lines; one at the start, or right
/// after another, makes an empty line. (It would complete a carriage return to
/// the end of a line.)
pub proof fn law_lines_separated(a: Seq<char>, b: Seq<char>)
    requires
        a.len() > 0 ==> a.last() != '\r',
    ensures
        lines_of(a + (seq!['\n'] + b)) == lines_of(a) + (if a.len() == 0 || a.last() == '\n' {
            seq![Seq::<char>::empty()]
        } else {
            seq![]
        } + lines_of(b)),
{
    let none = Seq::<char>::empty();
    if a.len() == 0 || a.last() == '\n' {
        law_lines_joined(a, seq!['\n'] + b);
        law_lines_first(none, b);
        assert(none + (seq!['\n'] + b) == seq!['\n'] + b);
    } else {
        law_lines_joined(a.push('\n'), b);
        law_lines_completed(a);
        assert(a.push('\n') + b == a + (seq!['\n'] + b));
        assert(Seq::<Seq<char>>::empty() + lines_of(b) == lines_of(b));
    }
}

/// What `before` counts lacks the character, which comes then or never.
pub proof fn lemma_before_bounds(s: Seq<char>, c: char)
    ensures
        before(s, c) <= s.len(),
        forall|k: int| 0 <= k < before(s, c) ==> #[trigger] s[k] != c,
        before(s, c) < s.len() ==> s[before(s, c) as int] == c,
    decreases s.len(),
{
    if s.len() > 0 && s[0] != c {
        lemma_before_bounds(s.skip(1), c);
        assert forall|k: int| 0 <= k < before(s, c) implies #[trigger] s[k] != c by {
            if k > 0 {
                assert(s.skip(1)[k - 1] == s[k]);
            }
        }
    }
}

/// Two texts that are the same, cut after the same number of characters.
pub proof fn lemma_same_cut(a: Seq<char>, x: Seq<char>, b: Seq<char>, y: Seq<char>)
    requires
        a + x == b + y,
        a.len() == b.len(),
    ensures
        a == b,
        x == y,
{
    assert((a + x).take(a.len() as int) == a);
    assert((b + y).take(b.len() as int) == b);
    assert((a + x).skip(a.len() as int) == x);
    assert((b + y).skip(b.len() as int) == y);
}

/// Two texts that are the same, cut where the characters that `k` tells end.
pub proof fn lemma_same_run(
    a: Seq<char>,
    x: Seq<char>,
    b: Seq<char>,
    y: Seq<char>,
    k: spec_fn(char) -> bool,
)
    requires
        a + x == b + y,
        forall|i: int| 0 <= i < a.len() ==> k(#[trigger] a[i]),
        forall|i: int| 0 <= i < b.len() ==> k(#[trigger] b[i]),
        x.len() > 0,
        y.len() > 0,
        !k(x[0]),
        !k(y[0]),
    ensures
        a == b,
        x == y,
{
    let s = a + x;
    assert(s[a.len() as int] == x[0]);
    assert((b + y)[b.len() as int] == y[0]);
    if a.len() < b.len() {
        assert((b + y)[a.len() as int] == b[a.len() as int]);
    }
    if b.len() < a.len() {
        assert(s[b.len() as int] == a[b.len() as int]);
    }
    lemma_same_cut(a, x, b, y);
}

} // verus!
