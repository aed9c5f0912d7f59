//! Character-level text operations: conversions between strings and character
//! vectors, line splitting and joining, and decimal numbers.

use vstd::prelude::*;

verus! {

/// `String::push` appends one character to the end of the string.
pub assume_specification[ String::push ](s: &mut String, ch: char)
    ensures
        final(s)@ == old(s)@.push(ch),
;

/// The views of a sequence of strings, in order.
pub open spec fn texts(lines: Seq<String>) -> Seq<Seq<char>> {
    Seq::new(lines.len(), |i: int| lines[i]@)
}

/// The characters of `s`, in order.
pub fn chars_of(s: &str) -> (v: Vec<char>)
    ensures
        v@ == s@,
{
    let mut v: Vec<char> = Vec::new();
    for c in it: s.chars()
        invariant
            v@ == s@.take(it.index() as int),
            it.seq() == s@,
    {
        v.push(c);
    }
    v
}

/// The string made of the characters `v[from..to]`.
pub(crate) fn string_of(v: &Vec<char>, from: usize, to: usize) -> (s: String)
    requires
        from <= to <= v.len(),
    ensures
        s@ == v@.subrange(from as int, to as int),
{
    let mut s = String::new();
    let mut i: usize = from;
    while i < to
        invariant
            from <= i <= to <= v.len(),
            s@ == v@.subrange(from as int, i as int),
        decreases to - i,
    {
        s.push(v[i]);
        i += 1;
    }
    s
}

/// Appends the characters `v[from..to]` to `out`.
pub(crate) fn push_chars(out: &mut String, v: &Vec<char>, from: usize, to: usize)
    requires
        from <= to <= v.len(),
    ensures
        final(out)@ == old(out)@ + v@.subrange(from as int, to as int),
{
    let mut i: usize = from;
    while i < to
        invariant
            from <= i <= to <= v.len(),
            out@ == old(out)@ + v@.subrange(from as int, i as int),
        decreases to - i,
    {
        out.push(v[i]);
        i += 1;
    }
}

/// Whether the characters `v[from..to]` spell `w`.
pub(crate) fn spells(v: &Vec<char>, from: usize, to: usize, w: &Vec<char>) -> (same: bool)
    requires
        from <= to <= v.len(),
    ensures
        same == (v@.subrange(from as int, to as int) == w@),
{
    if to - from != w.len() {
        return false;
    }
    let mut i: usize = 0;
    while i < w.len()
        invariant
            from <= to <= v.len(),
            to - from == w.len(),
            i <= w.len(),
            forall|k: int| 0 <= k < i ==> v@[from + k] == w@[k],
        decreases w.len() - i,
    {
        if v[from + i] != w[i] {
            assert(v@.subrange(from as int, to as int)[i as int] != w@[i as int]);
            return false;
        }
        i += 1;
    }
    assert(v@.subrange(from as int, to as int) =~= w@);
    true
}

/// The position of the first line feed in `s`, or the length of `s` where it holds none.
pub open spec fn first_newline(s: Seq<char>) -> nat
    decreases s.len(),
{
    if s.len() == 0 {
        0
    } else if s[0] == '\n' {
        0
    } else {
        1 + first_newline(s.drop_first())
    }
}

/// `line` without one trailing carriage return, if it ends in one.
pub open spec fn strip_cr(line: Seq<char>) -> Seq<char> {
    if line.len() > 0 && line.last() == '\r' {
        line.drop_last()
    } else {
        line
    }
}

/// The lines of a text. A line ends at a line feed; the line feed, and a carriage return
/// directly before it, are not part of the line. Text after the last line feed is a
/// line of its own, kept as it is, unless it is empty.
pub open spec fn lines_of(s: Seq<char>) -> Seq<Seq<char>>
    decreases s.len(),
{
    if s.len() == 0 {
        Seq::empty()
    } else {
        let n = first_newline(s) as int;
        if n >= s.len() {
            seq![s]
        } else {
            seq![strip_cr(s.take(n))] + lines_of(s.skip(n + 1))
        }
    }
}

/// The lines joined into one text, a single line feed between neighbours.
pub open spec fn joined(lines: Seq<Seq<char>>) -> Seq<char>
    decreases lines.len(),
{
    if lines.len() == 0 {
        Seq::empty()
    } else if lines.len() == 1 {
        lines[0]
    } else {
        joined(lines.drop_last()) + seq!['\n'] + lines.last()
    }
}

/// `first_newline` is the one position that holds a line feed with none before it.
pub proof fn lemma_first_newline(s: Seq<char>, n: int)
    requires
        0 <= n <= s.len(),
        forall|k: int| 0 <= k < n ==> s[k] != '\n',
        n < s.len() ==> s[n] == '\n',
    ensures
        first_newline(s) == n,
    decreases s.len(),
{
    if s.len() > 0 && s[0] != '\n' {
        let rest = s.drop_first();
        assert forall|k: int| 0 <= k < n - 1 implies rest[k] != '\n' by {
            assert(rest[k] == s[k + 1]);
        }
        lemma_first_newline(rest, n - 1);
    }
}

/// Splits a text into its lines.
pub fn split_lines(text: &str) -> (lines: Vec<String>)
    ensures
        texts(lines@) == lines_of(text@),
{
    let chars = chars_of(text);
    let mut lines: Vec<String> = Vec::new();
    let mut start: usize = 0;
    assert(chars@.skip(0) == chars@);
    assert(texts(lines@) + lines_of(chars@.skip(0)) == lines_of(chars@));
    while start < chars.len()
        invariant
            start <= chars.len(),
            texts(lines@) + lines_of(chars@.skip(start as int)) == lines_of(chars@),
        decreases chars.len() - start,
    {
        let mut end: usize = start;
        while end < chars.len() && chars[end] != '\n'
            invariant
                start <= end <= chars.len(),
                forall|k: int| start <= k < end ==> chars@[k] != '\n',
            decreases chars.len() - end,
        {
            end += 1;
        }
        let ghost rest = chars@.skip(start as int);
        let ghost before = texts(lines@);
        proof {
            lemma_first_newline(rest, end - start);
            assert(rest.take(end - start) == chars@.subrange(start as int, end as int));
        }
        if end < chars.len() {
            let stop: usize = if end > start && chars[end - 1] == '\r' {
                end - 1
            } else {
                end
            };
            let line = string_of(&chars, start, stop);
            proof {
                let whole = chars@.subrange(start as int, end as int);
                assert(line@ == strip_cr(whole));
                assert(rest.skip(end - start + 1) == chars@.skip(end + 1));
            }
            lines.push(line);
            assert(texts(lines@) == before.push(strip_cr(chars@.subrange(start as int, end as int))));
            start = end + 1;
        } else {
            let line = string_of(&chars, start, end);
            proof {
                assert(line@ == rest);
                assert(lines_of(chars@.skip(end as int)) == Seq::<Seq<char>>::empty());
            }
            lines.push(line);
            assert(texts(lines@) == before.push(rest));
            start = end;
        }
    }
    assert(lines_of(chars@.skip(start as int)) == Seq::<Seq<char>>::empty());
    lines
}

/// Joins lines into one text, a single line feed between neighbours.
pub fn join_lines(lines: &Vec<String>) -> (text: String)
    ensures
        text@ == joined(texts(lines@)),
{
    let mut text = String::new();
    let mut i: usize = 0;
    while i < lines.len()
        invariant
            i <= lines.len(),
            text@ == joined(texts(lines@).take(i as int)),
        decreases lines.len() - i,
    {
        let ghost done = texts(lines@).take(i as int);
        let ghost next = texts(lines@).take(i + 1);
        proof {
            assert(next.drop_last() == done);
            assert(next.last() == lines@[i as int]@);
        }
        if i > 0 {
            text.push('\n');
        }
        text.append(lines[i].as_str());
        i += 1;
    }
    assert(texts(lines@).take(lines.len() as int) == texts(lines@));
    text
}

/// Joining puts the first line, a line feed, and the other lines joined.
pub proof fn lemma_joined_front(lines: Seq<Seq<char>>)
    requires
        lines.len() >= 2,
    ensures
        joined(lines) == lines[0] + seq!['\n'] + joined(lines.drop_first()),
    decreases lines.len(),
{
    if lines.len() == 2 {
        assert(joined(lines.drop_last()) == lines[0]);
        assert(joined(lines.drop_first()) == lines[1]);
    } else {
        lemma_joined_front(lines.drop_last());
        assert(lines.drop_last().drop_first() == lines.drop_first().drop_last());
        assert(joined(lines) =~= lines[0] + seq!['\n'] + joined(lines.drop_first()));
    }
}

/// Whether joining `lines` loses nothing: no line holds a line feed, no line but the
/// last ends in a carriage return, and the last line is not empty.
pub open spec fn splits_back(lines: Seq<Seq<char>>) -> bool {
    &&& forall|i: int, k: int|
        0 <= i < lines.len() && 0 <= k < lines[i].len() ==> #[trigger] lines[i][k] != '\n'
    &&& forall|i: int|
        0 <= i < lines.len() - 1 ==> strip_cr(#[trigger] lines[i]) == lines[i]
    &&& lines.len() > 0 ==> lines.last().len() > 0
}

/// Lines that were joined split into the same lines again, where joining loses
/// nothing.
pub proof fn lemma_split_joined(lines: Seq<Seq<char>>)
    requires
        splits_back(lines),
    ensures
        lines_of(joined(lines)) == lines,
    decreases lines.len(),
{
    if lines.len() == 0 {
    } else if lines.len() == 1 {
        let only = lines[0];
        lemma_first_newline(only, only.len() as int);
        assert(lines =~= seq![only]);
    } else {
        let first = lines[0];
        let rest = lines.drop_first();
        let text = joined(lines);
        lemma_joined_front(lines);
        assert forall|i: int, k: int| 0 <= i < rest.len() && 0 <= k < rest[i].len() implies
            #[trigger] rest[i][k] != '\n' by {
            assert(lines[i + 1][k] != '\n');
        }
        assert forall|i: int| 0 <= i < rest.len() - 1 implies strip_cr(#[trigger] rest[i])
            == rest[i] by {
            assert(strip_cr(lines[i + 1]) == lines[i + 1]);
        }
        assert(rest.last() == lines.last());
        lemma_split_joined(rest);
        assert forall|k: int| 0 <= k < first.len() implies text[k] != '\n' by {
            assert(lines[0][k] != '\n');
        }
        lemma_first_newline(text, first.len() as int);
        assert(text.take(first.len() as int) =~= first);
        assert(text.skip(first.len() as int + 1) =~= joined(rest));
        assert(strip_cr(lines[0]) == lines[0]);
        assert(lines =~= seq![first] + rest);
    }
}

/// Whether `c` is one of the ten decimal digits `0` to `9`.
pub open spec fn is_digit(c: char) -> bool {
    '0' <= c <= '9'
}

/// The number that the digit `c` stands for.
pub open spec fn digit_value(c: char) -> nat {
    (c as u32 - '0' as u32) as nat
}

/// Whether `s` is a decimal numeral: one digit or more, and nothing else.
pub open spec fn is_decimal(s: Seq<char>) -> bool {
    s.len() > 0 && forall|i: int| 0 <= i < s.len() ==> is_digit(#[trigger] s[i])
}

/// The number that a decimal numeral stands for, most significant digit first.
pub open spec fn decimal_value(s: Seq<char>) -> nat
    decreases s.len(),
{
    if s.len() == 0 {
        0
    } else {
        10 * decimal_value(s.drop_last()) + digit_value(s.last())
    }
}

/// The decimal numeral of `n`, without leading zeros.
pub open spec fn decimal_digits(n: nat) -> Seq<char>
    decreases n,
{
    if n < 10 {
        seq![digit_char(n)]
    } else {
        decimal_digits(n / 10).push(digit_char(n % 10))
    }
}

/// The digit that stands for `d`, for `d` below ten.
pub open spec fn digit_char(d: nat) -> char {
    ((d + '0' as u32) as u8) as char
}

/// A numeral is worth at least as much as each of its prefixes.
pub proof fn lemma_decimal_prefix(s: Seq<char>, k: int)
    requires
        0 <= k <= s.len(),
    ensures
        decimal_value(s.take(k)) <= decimal_value(s),
    decreases s.len() - k,
{
    if k < s.len() {
        assert(s.take(k + 1).drop_last() == s.take(k));
        lemma_decimal_prefix(s, k + 1);
    } else {
        assert(s.take(k) == s);
    }
}

/// Reading the numeral of `n` gives `n` back.
pub proof fn lemma_decimal_round_trip(n: nat)
    ensures
        is_decimal(decimal_digits(n)),
        decimal_value(decimal_digits(n)) == n,
    decreases n,
{
    if n < 10 {
        let s = decimal_digits(n);
        assert(s.drop_last() == Seq::<char>::empty());
        assert(decimal_value(s.drop_last()) == 0);
    } else {
        lemma_decimal_round_trip(n / 10);
        let s = decimal_digits(n);
        assert(s.drop_last() == decimal_digits(n / 10));
    }
}

/// The number that `s` is read as: `None` where `s` is no decimal numeral, and where
/// its value does not fit a `usize`.
pub open spec fn parsed_decimal(s: Seq<char>) -> Option<usize> {
    if is_decimal(s) && decimal_value(s) <= usize::MAX {
        Some(decimal_value(s) as usize)
    } else {
        None
    }
}

/// Reads a decimal numeral.
pub fn parse_decimal(s: &str) -> (r: Option<usize>)
    ensures
        r == parsed_decimal(s@),
{
    let chars = chars_of(s);
    if chars.len() == 0 {
        return None;
    }
    let mut value: usize = 0;
    let mut i: usize = 0;
    while i < chars.len()
        invariant
            i <= chars.len(),
            chars@ == s@,
            forall|k: int| 0 <= k < i ==> is_digit(#[trigger] chars@[k]),
            value == decimal_value(chars@.take(i as int)),
        decreases chars.len() - i,
    {
        let c = chars[i];
        if !(c >= '0' && c <= '9') {
            return None;
        }
        let d: usize = (c as u32 - '0' as u32) as usize;
        proof {
            assert(chars@.take(i + 1).drop_last() == chars@.take(i as int));
            lemma_decimal_prefix(chars@, i + 1);
        }
        if value > (usize::MAX - d) / 10 {
            return None;
        }
        value = value * 10 + d;
        i += 1;
    }
    assert(chars@.take(i as int) == chars@);
    Some(value)
}

/// Writes `n` as a decimal numeral, without leading zeros.
pub fn decimal_string(n: usize) -> (s: String)
    ensures
        s@ == decimal_digits(n as nat),
{
    let mut reversed: Vec<char> = Vec::new();
    let mut rest: usize = n;
    while rest >= 10
        invariant
            decimal_digits(n as nat) == decimal_digits(rest as nat) + reversed@.reverse(),
        decreases rest,
    {
        let d: u8 = (rest % 10) as u8;
        let ghost before = reversed@;
        reversed.push((d + 48u8) as char);
        proof {
            assert(reversed@.reverse() == seq![digit_char((rest % 10) as nat)] + before.reverse());
            assert(decimal_digits(rest as nat) == decimal_digits((rest / 10) as nat).push(
                digit_char((rest % 10) as nat),
            ));
        }
        rest = rest / 10;
    }
    let ghost before = reversed@;
    reversed.push((rest as u8 + 48u8) as char);
    proof {
        assert(reversed@.reverse() == seq![digit_char(rest as nat)] + before.reverse());
    }
    let mut s = String::new();
    let mut i: usize = reversed.len();
    while i > 0
        invariant
            i <= reversed.len(),
            s@ == reversed@.reverse().take(reversed.len() - i),
        decreases i,
    {
        i -= 1;
        s.push(reversed[i]);
    }
    assert(reversed@.reverse().take(reversed.len() as int) == reversed@.reverse());
    s
}

/// Whether `c` is blank: a space, a tab, a line feed, a vertical tab, a form feed or a
/// carriage return.
pub open spec fn is_blank(c: char) -> bool {
    c == ' ' || ('\t' <= c <= '\r')
}

/// `s` without the blanks at its end.
pub open spec fn trimmed_end(s: Seq<char>) -> Seq<char>
    decreases s.len(),
{
    if s.len() > 0 && is_blank(s.last()) {
        trimmed_end(s.drop_last())
    } else {
        s
    }
}

/// `s` without the blanks at its start.
pub open spec fn trimmed_start(s: Seq<char>) -> Seq<char>
    decreases s.len(),
{
    if s.len() > 0 && is_blank(s[0]) {
        trimmed_start(s.drop_first())
    } else {
        s
    }
}

/// `s` without the blanks at its start and at its end.
pub open spec fn trimmed(s: Seq<char>) -> Seq<char> {
    trimmed_end(trimmed_start(s))
}

/// Trimming leaves a text that neither starts nor ends with a blank.
pub proof fn lemma_trimmed(s: Seq<char>)
    ensures
        trimmed(s).len() > 0 ==> !is_blank(trimmed(s)[0]) && !is_blank(trimmed(s).last()),
        trimmed(s).len() <= s.len(),
{
    lemma_trimmed_start(s);
    lemma_trimmed_end(trimmed_start(s));
}

/// What is left after the blanks at the start does not start with a blank.
pub proof fn lemma_trimmed_start(s: Seq<char>)
    ensures
        trimmed_start(s).len() <= s.len(),
        trimmed_start(s).len() > 0 ==> !is_blank(trimmed_start(s)[0]),
        trimmed_start(s) == s.skip(s.len() - trimmed_start(s).len()),
    decreases s.len(),
{
    if s.len() > 0 && is_blank(s[0]) {
        let rest = s.drop_first();
        lemma_trimmed_start(rest);
        assert(rest.skip(rest.len() - trimmed_start(rest).len()) == s.skip(
            s.len() - trimmed_start(rest).len(),
        ));
    } else {
        assert(s.skip(0) == s);
    }
}

/// What is left after the blanks at the end does not end with a blank, and starts as
/// the text did.
pub proof fn lemma_trimmed_end(s: Seq<char>)
    ensures
        trimmed_end(s).len() <= s.len(),
        trimmed_end(s).len() > 0 ==> !is_blank(trimmed_end(s).last()) && trimmed_end(s)[0] == s[0],
        trimmed_end(s) == s.take(trimmed_end(s).len() as int),
    decreases s.len(),
{
    if s.len() > 0 && is_blank(s.last()) {
        let rest = s.drop_last();
        lemma_trimmed_end(rest);
        assert(rest.take(trimmed_end(rest).len() as int) == s.take(trimmed_end(rest).len() as int));
    } else {
        assert(s.take(s.len() as int) == s);
    }
}

/// Removes the blanks at the start and at the end of `s`.
pub fn trim(s: &str) -> (out: String)
    ensures
        out@ == trimmed(s@),
{
    let chars = chars_of(s);
    let mut from: usize = 0;
    assert(chars@.skip(0) == chars@);
    while from < chars.len() && (chars[from] == ' ' || chars[from] >= '\t' && chars[from] <= '\r')
        invariant
            from <= chars.len(),
            trimmed_start(chars@.skip(from as int)) == trimmed_start(chars@),
        decreases chars.len() - from,
    {
        assert(chars@.skip(from as int).drop_first() == chars@.skip(from + 1));
        from += 1;
    }
    let ghost rest = chars@.skip(from as int);
    assert(trimmed_start(chars@) == rest);
    let mut to: usize = chars.len();
    assert(rest.take(rest.len() as int) == rest);
    while to > from && (chars[to - 1] == ' ' || chars[to - 1] >= '\t' && chars[to - 1] <= '\r')
        invariant
            from <= to <= chars.len(),
            rest == chars@.skip(from as int),
            trimmed_end(rest.take(to - from)) == trimmed_end(rest),
        decreases to,
    {
        assert(rest.take(to - from).drop_last() == rest.take(to - from - 1));
        to -= 1;
    }
    assert(rest.take(to - from) == chars@.subrange(from as int, to as int));
    string_of(&chars, from, to)
}

/// Whether `c` can stand in an identifier: an ASCII letter, a decimal digit or `_`.
pub open spec fn is_ident_char(c: char) -> bool {
    ('a' <= c <= 'z') || ('A' <= c <= 'Z') || ('0' <= c <= '9') || c == '_'
}

/// The length of the longest run of identifier characters that `s` starts with.
pub open spec fn token_len(s: Seq<char>) -> nat
    decreases s.len(),
{
    if s.len() == 0 || !is_ident_char(s[0]) {
        0
    } else {
        1 + token_len(s.drop_first())
    }
}

/// A token is no longer than the text it starts.
pub proof fn lemma_token_len_bound(s: Seq<char>)
    ensures
        token_len(s) <= s.len(),
    decreases s.len(),
{
    if s.len() > 0 && is_ident_char(s[0]) {
        lemma_token_len_bound(s.drop_first());
    }
}

/// `token_len` is the one length at which a run of identifier characters stops.
pub proof fn lemma_token_len(s: Seq<char>, n: int)
    requires
        0 <= n <= s.len(),
        forall|k: int| 0 <= k < n ==> is_ident_char(s[k]),
        n < s.len() ==> !is_ident_char(s[n]),
    ensures
        token_len(s) == n,
    decreases s.len(),
{
    if n > 0 {
        let rest = s.drop_first();
        assert forall|k: int| 0 <= k < n - 1 implies is_ident_char(rest[k]) by {
            assert(rest[k] == s[k + 1]);
        }
        lemma_token_len(rest, n - 1);
    }
}

/// `s` with each identifier that reads `old` replaced by `new`. An identifier is a
/// longest run of identifier characters, so `old` inside a longer identifier stays,
/// and so does everything that is no identifier.
pub open spec fn renamed(s: Seq<char>, old: Seq<char>, new: Seq<char>) -> Seq<char>
    decreases s.len(),
{
    if s.len() == 0 {
        s
    } else {
        let n = token_len(s) as int;
        proof {
            lemma_token_len_bound(s);
        }
        if n == 0 {
            seq![s[0]] + renamed(s.skip(1), old, new)
        } else if s.take(n) == old {
            new + renamed(s.skip(n), old, new)
        } else {
            s.take(n) + renamed(s.skip(n), old, new)
        }
    }
}

/// Replaces each identifier of `line` that reads `old` by `new`.
pub fn rename_tokens(line: &str, old: &str, new: &str) -> (out: String)
    ensures
        out@ == renamed(line@, old@, new@),
{
    let chars = chars_of(line);
    let old_chars = chars_of(old);
    let new_chars = chars_of(new);
    let mut out = String::new();
    let mut pos: usize = 0;
    assert(chars@.skip(0) == chars@);
    while pos < chars.len()
        invariant
            pos <= chars.len(),
            old_chars@ == old@,
            new_chars@ == new@,
            out@ + renamed(chars@.skip(pos as int), old@, new@) == renamed(chars@, old@, new@),
        decreases chars.len() - pos,
    {
        let mut end: usize = pos;
        while end < chars.len() && (chars[end] >= 'a' && chars[end] <= 'z' || chars[end] >= 'A'
            && chars[end] <= 'Z' || chars[end] >= '0' && chars[end] <= '9' || chars[end] == '_')
            invariant
                pos <= end <= chars.len(),
                forall|k: int| pos <= k < end ==> is_ident_char(chars@[k]),
            decreases chars.len() - end,
        {
            end += 1;
        }
        let ghost rest = chars@.skip(pos as int);
        let ghost before = out@;
        proof {
            lemma_token_len(rest, end - pos);
            assert(rest.take(end - pos) == chars@.subrange(pos as int, end as int));
        }
        if end == pos {
            out.push(chars[pos]);
            proof {
                assert(rest.skip(1) == chars@.skip(pos + 1));
                assert(out@ + renamed(rest.skip(1), old@, new@) == before + (seq![rest[0]]
                    + renamed(rest.skip(1), old@, new@)));
            }
            pos += 1;
        } else {
            proof {
                assert(rest.skip(end - pos) == chars@.skip(end as int));
            }
            if spells(&chars, pos, end, &old_chars) {
                push_chars(&mut out, &new_chars, 0, new_chars.len());
                proof {
                    assert(new_chars@.subrange(0, new_chars.len() as int) == new@);
                    assert(out@ + renamed(rest.skip(end - pos), old@, new@) == before + (new@
                        + renamed(rest.skip(end - pos), old@, new@)));
                }
            } else {
                push_chars(&mut out, &chars, pos, end);
                proof {
                    assert(out@ + renamed(rest.skip(end - pos), old@, new@) == before + (
                    rest.take(end - pos) + renamed(rest.skip(end - pos), old@, new@)));
                }
            }
            pos = end;
        }
    }
    assert(renamed(chars@.skip(pos as int), old@, new@) == Seq::<char>::empty());
    out
}

} // verus!
