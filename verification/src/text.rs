//! Text as sequences of characters: whitespace, lines, and joining.

use itertools::Itertools;
use vstd::prelude::*;

verus! {

broadcast use vstd::string::group_string_axioms;

/// The characters that count as whitespace: those with the Unicode property
/// `White_Space`.
pub open spec fn is_whitespace(c: char) -> bool {
    ||| c == ' '
    ||| ('\u{9}' <= c && c <= '\u{d}')
    ||| c == '\u{85}'
    ||| c == '\u{a0}'
    ||| c == '\u{1680}'
    ||| ('\u{2000}' <= c && c <= '\u{200a}')
    ||| c == '\u{2028}'
    ||| c == '\u{2029}'
    ||| c == '\u{202f}'
    ||| c == '\u{205f}'
    ||| c == '\u{3000}'
}

/// Whether `c` is whitespace.
pub fn char_is_whitespace(c: char) -> (white: bool)
    ensures
        white == is_whitespace(c),
{
    c == ' ' || ('\u{9}' <= c && c <= '\u{d}') || c == '\u{85}' || c == '\u{a0}' || c == '\u{1680}'
        || ('\u{2000}' <= c && c <= '\u{200a}') || c == '\u{2028}' || c == '\u{2029}' || c
        == '\u{202f}' || c == '\u{205f}' || c == '\u{3000}'
}

/// The characters of `text`.
pub fn chars_of(text: &str) -> (chars: Vec<char>)
    ensures
        chars@ == text@,
{
    let mut chars: Vec<char> = Vec::new();
    for c in it: text.chars()
        invariant
            it.seq() == text@,
            chars@ == it.seq().take(it.index() as int),
    {
        chars.push(c);
    }
    assert(chars@ =~= text@);
    chars
}

/// `String::from_iter` on the characters of a vector: the string that is
/// made of these characters, in their order.
#[verifier::external_body]
pub(crate) fn string_of(chars: &Vec<char>) -> (text: String)
    ensures
        text@ == chars@,
{
    String::from_iter(chars.iter())
}

/// Strings as sequences of characters.
pub open spec fn texts(list: Seq<String>) -> Seq<Seq<char>> {
    list.map_values(|s: String| s@)
}

/// Vectors of characters as sequences of characters.
pub open spec fn rows(list: Seq<Vec<char>>) -> Seq<Seq<char>> {
    list.map_values(|l: Vec<char>| l@)
}

/// `s` without the whitespace at its start.
pub open spec fn trimmed_start(s: Seq<char>) -> Seq<char>
    decreases s.len(),
{
    if s.len() > 0 && is_whitespace(s[0]) {
        trimmed_start(s.drop_first())
    } else {
        s
    }
}

/// `s` without the whitespace at its end.
pub open spec fn trimmed_end(s: Seq<char>) -> Seq<char>
    decreases s.len(),
{
    if s.len() > 0 && is_whitespace(s.last()) {
        trimmed_end(s.drop_last())
    } else {
        s
    }
}

/// `s` without the whitespace at its start and at its end.
pub open spec fn trimmed(s: Seq<char>) -> Seq<char> {
    trimmed_end(trimmed_start(s))
}

/// Where the first line of `s` ends: the place of the first line feed, or
/// the length of `s` where it holds none.
pub open spec fn first_line_end(s: Seq<char>) -> nat
    decreases s.len(),
{
    if s.len() == 0 || s[0] == '\n' {
        0
    } else {
        1 + first_line_end(s.drop_first())
    }
}

/// A line without the carriage return that stood before its line feed.
pub open spec fn without_carriage_return(line: Seq<char>) -> Seq<char> {
    if line.len() > 0 && line.last() == '\r' {
        line.drop_last()
    } else {
        line
    }
}

/// The lines of `s`. A line ends with a line feed, or with a carriage
/// return and a line feed; neither belongs to the line. The last line needs
/// no line feed, and what follows the last line feed is a line only if it is
/// not empty.
pub open spec fn lines(s: Seq<char>) -> Seq<Seq<char>>
    decreases s.len(),
{
    if s.len() == 0 {
        Seq::empty()
    } else {
        let end = first_line_end(s) as int;
        if end < s.len() {
            seq![without_carriage_return(s.take(end))].add(lines(s.skip(end + 1)))
        } else {
            seq![s]
        }
    }
}

/// The parts in their order, with the separator between each two of them.
pub open spec fn joined(parts: Seq<Seq<char>>, separator: Seq<char>) -> Seq<char>
    decreases parts.len(),
{
    if parts.len() == 0 {
        Seq::empty()
    } else if parts.len() == 1 {
        parts[0]
    } else {
        joined(parts.drop_last(), separator) + separator + parts.last()
    }
}

proof fn lemma_first_line_end(s: Seq<char>, m: int)
    requires
        0 <= m <= s.len(),
        forall|k: int| 0 <= k < m ==> s[k] != '\n',
        m == s.len() || s[m] == '\n',
    ensures
        first_line_end(s) == m,
    decreases m,
{
    if m > 0 {
        lemma_first_line_end(s.drop_first(), m - 1);
    }
}

/// The characters of `chars` from `from` up to `to`.
pub fn slice_of(chars: &Vec<char>, from: usize, to: usize) -> (part: Vec<char>)
    requires
        from <= to <= chars.len(),
    ensures
        part@ == chars@.subrange(from as int, to as int),
{
    let mut part: Vec<char> = Vec::new();
    let mut i: usize = from;
    while i < to
        invariant
            from <= i <= to <= chars.len(),
            part@ == chars@.subrange(from as int, i as int),
        decreases to - i,
    {
        part.push(chars[i]);
        assert(part@ =~= chars@.subrange(from as int, i + 1));
        i += 1;
    }
    assert(part@ =~= chars@.subrange(from as int, to as int));
    part
}

/// `chars` without the whitespace at its start and at its end.
pub fn trim(chars: &Vec<char>) -> (kept: Vec<char>)
    ensures
        kept@ == trimmed(chars@),
{
    let mut start: usize = 0;
    assert(chars@.skip(0) =~= chars@);
    while start < chars.len() && char_is_whitespace(chars[start])
        invariant
            start <= chars.len(),
            trimmed_start(chars@) == trimmed_start(chars@.skip(start as int)),
        decreases chars.len() - start,
    {
        proof {
            assert(chars@.skip(start as int)[0] == chars@[start as int]);
            assert(chars@.skip(start as int).drop_first() =~= chars@.skip(start + 1));
        }
        start += 1;
    }
    proof {
        if start < chars.len() {
            assert(chars@.skip(start as int)[0] == chars@[start as int]);
        }
        assert(trimmed_start(chars@) == chars@.skip(start as int));
        assert(chars@.skip(start as int) =~= chars@.subrange(start as int, chars.len() as int));
    }
    let mut end: usize = chars.len();
    while end > start && char_is_whitespace(chars[end - 1])
        invariant
            start <= end <= chars.len(),
            trimmed(chars@) == trimmed_end(chars@.subrange(start as int, end as int)),
        decreases end,
    {
        proof {
            let part = chars@.subrange(start as int, end as int);
            assert(part.last() == chars@[end - 1]);
            assert(part.drop_last() =~= chars@.subrange(start as int, end - 1));
        }
        end -= 1;
    }
    proof {
        let part = chars@.subrange(start as int, end as int);
        if end > start {
            assert(part.last() == chars@[end - 1]);
        }
    }
    slice_of(chars, start, end)
}

/// The lines of `chars`.
pub fn split_lines(chars: &Vec<char>) -> (found: Vec<Vec<char>>)
    ensures
        rows(found@) == lines(chars@),
{
    let mut found: Vec<Vec<char>> = Vec::new();
    let mut start: usize = 0;
    let mut i: usize = 0;
    proof {
        assert(chars@.skip(0) =~= chars@);
        assert(rows(found@) + lines(chars@) =~= lines(chars@));
    }
    while i < chars.len()
        invariant
            start <= i <= chars.len(),
            lines(chars@) == rows(found@) + lines(chars@.skip(start as int)),
            forall|k: int| start <= k < i ==> chars@[k] != '\n',
        decreases chars.len() - i,
    {
        if chars[i] == '\n' {
            let end = if i > start && chars[i - 1] == '\r' {
                i - 1
            } else {
                i
            };
            let line = slice_of(chars, start, end);
            let ghost earlier = rows(found@);
            found.push(line);
            proof {
                let rest = chars@.skip(start as int);
                lemma_first_line_end(rest, i - start);
                assert(rest.take(i - start) =~= chars@.subrange(start as int, i as int));
                assert(without_carriage_return(rest.take(i - start)) =~= line@);
                assert(rest.skip(i - start + 1) =~= chars@.skip(i + 1));
                assert(rows(found@) =~= earlier.push(line@));
                assert(earlier + seq![line@].add(lines(chars@.skip(i + 1))) =~= earlier.push(line@)
                    + lines(chars@.skip(i + 1)));
            }
            start = i + 1;
        }
        i += 1;
    }
    let ghost rest = chars@.skip(start as int);
    if start < chars.len() {
        let line = slice_of(chars, start, chars.len());
        let ghost earlier = rows(found@);
        found.push(line);
        proof {
            lemma_first_line_end(rest, rest.len() as int);
            assert(rest =~= line@);
            assert(rows(found@) =~= earlier + seq![rest]);
        }
    } else {
        assert(rows(found@) + lines(rest) =~= rows(found@));
    }
    found
}

/// `Itertools::join` on the strings of a vector: the strings in their order,
/// with the separator between each two of them; the empty string where there
/// is none.
#[verifier::external_body]
pub(crate) fn join(parts: &Vec<String>, separator: &str) -> (text: String)
    ensures
        text@ == joined(texts(parts@), separator@),
{
    parts.iter().join(separator)
}

} // verus!
