//! Helpers for text: blank strings, trimmed lines, and indentation.

use crate::text::{
    chars_of, first_line_end, join, joined, lines, rows, split_lines, string_of, texts, trim,
    trimmed, without_carriage_return,
};
use vstd::prelude::*;

verus! {

/// `s` without its line feeds.
pub open spec fn without_line_feeds(s: Seq<char>) -> Seq<char> {
    s.filter(|c: char| c != '\n')
}

/// How many spaces `line` begins with.
pub open spec fn leading_spaces(line: Seq<char>) -> nat
    decreases line.len(),
{
    if line.len() > 0 && line[0] == ' ' {
        1 + leading_spaces(line.drop_first())
    } else {
        0
    }
}

/// `list` without the empty lines at its start.
pub open spec fn without_leading_empty(list: Seq<Seq<char>>) -> Seq<Seq<char>>
    decreases list.len(),
{
    if list.len() > 0 && list[0].len() == 0 {
        without_leading_empty(list.drop_first())
    } else {
        list
    }
}

/// The smallest number of leading spaces among the lines `list`; 0 where
/// there is no line.
pub open spec fn smallest_indentation(list: Seq<Seq<char>>) -> nat
    decreases list.len(),
{
    if list.len() == 0 {
        0
    } else if list.len() == 1 {
        leading_spaces(list[0])
    } else {
        let earlier = smallest_indentation(list.drop_last());
        if leading_spaces(list.last()) < earlier {
            leading_spaces(list.last())
        } else {
            earlier
        }
    }
}

/// Each line of `list` without its first `n` characters.
pub open spec fn outdented(list: Seq<Seq<char>>, n: nat) -> Seq<Seq<char>> {
    list.map_values(|line: Seq<char>| line.skip(n as int))
}

/// `text` without the empty lines at its start and without the indentation
/// that all of its other lines share: the lines that are left, each without
/// as many characters as the least indented of them has spaces at its start,
/// joined by line feeds.
pub open spec fn unindented(text: Seq<char>) -> Seq<char> {
    let kept = without_leading_empty(lines(text));
    joined(outdented(kept, smallest_indentation(kept)), seq!['\n'])
}

/// Each line of `text` without the whitespace at its start and end, joined
/// by line feeds.
pub open spec fn with_trimmed_lines(text: Seq<char>) -> Seq<char> {
    joined(lines(text).map_values(|line: Seq<char>| trimmed(line)), seq!['\n'])
}

proof fn lemma_leading_spaces_fit(line: Seq<char>)
    ensures
        leading_spaces(line) <= line.len(),
    decreases line.len(),
{
    if line.len() > 0 && line[0] == ' ' {
        lemma_leading_spaces_fit(line.drop_first());
    }
}

proof fn lemma_smallest_indentation_fits(list: Seq<Seq<char>>, i: int)
    requires
        0 <= i < list.len(),
    ensures
        smallest_indentation(list) <= leading_spaces(list[i]) <= list[i].len(),
    decreases list.len(),
{
    lemma_leading_spaces_fit(list[i]);
    if list.len() > 1 && i < list.len() - 1 {
        lemma_smallest_indentation_fits(list.drop_last(), i);
    }
}

/// Whether `text` is empty once its line feeds are taken out and the
/// whitespace at its start and end is taken off.
pub fn is_blank(text: &str) -> (blank: bool)
    ensures
        blank == (trimmed(without_line_feeds(text@)).len() == 0),
{
    let chars = chars_of(text);
    let mut kept: Vec<char> = Vec::new();
    let mut i: usize = 0;
    proof {
        reveal(Seq::filter);
        assert(chars@.take(0) =~= Seq::<char>::empty());
    }
    while i < chars.len()
        invariant
            i <= chars.len(),
            kept@ == without_line_feeds(chars@.take(i as int)),
        decreases chars.len() - i,
    {
        proof {
            reveal(Seq::filter);
            assert(chars@.take(i + 1).drop_last() =~= chars@.take(i as int));
            assert(chars@.take(i + 1).last() == chars@[i as int]);
        }
        if chars[i] != '\n' {
            kept.push(chars[i]);
        }
        i += 1;
    }
    assert(chars@.take(chars.len() as int) =~= chars@);
    trim(&kept).len() == 0
}

/// How many spaces `line` begins with.
fn count_leading_spaces(line: &Vec<char>) -> (n: usize)
    ensures
        n == leading_spaces(line@),
{
    let mut n: usize = 0;
    assert(line@.skip(0) =~= line@);
    while n < line.len() && line[n] == ' '
        invariant
            n <= line.len(),
            leading_spaces(line@) == n + leading_spaces(line@.skip(n as int)),
        decreases line.len() - n,
    {
        proof {
            assert(line@.skip(n as int)[0] == line@[n as int]);
            assert(line@.skip(n as int).drop_first() =~= line@.skip(n + 1));
        }
        n += 1;
    }
    proof {
        if n < line.len() {
            assert(line@.skip(n as int)[0] == line@[n as int]);
        }
    }
    n
}

/// The lines `list[from..]`, each without its first `indent` characters,
/// joined by line feeds.
fn join_outdented(list: &Vec<Vec<char>>, from: usize, indent: usize) -> (text: Vec<char>)
    requires
        from <= list.len(),
        forall|i: int| from <= i < list.len() ==> indent <= (#[trigger] list[i]).len(),
    ensures
        text@ == joined(outdented(rows(list@).skip(from as int), indent as nat), seq!['\n']),
{
    let ghost all = outdented(rows(list@).skip(from as int), indent as nat);
    let mut text: Vec<char> = Vec::new();
    let mut k: usize = from;
    assert(all.take(0) =~= Seq::<Seq<char>>::empty());
    while k < list.len()
        invariant
            from <= k <= list.len(),
            all == outdented(rows(list@).skip(from as int), indent as nat),
            forall|i: int| from <= i < list.len() ==> indent <= (#[trigger] list[i]).len(),
            text@ == joined(all.take(k - from), seq!['\n']),
        decreases list.len() - k,
    {
        let ghost before = text@;
        if k > from {
            text.push('\n');
        }
        let ghost start = text@;
        let line = &list[k];
        let mut i: usize = indent;
        while i < line.len()
            invariant
                indent <= i <= line.len(),
                text@ == start + line@.subrange(indent as int, i as int),
            decreases line.len() - i,
        {
            text.push(line[i]);
            assert(text@ =~= start + line@.subrange(indent as int, i + 1));
            i += 1;
        }
        proof {
            let upto = all.take(k - from + 1);
            assert(upto.drop_last() =~= all.take(k - from));
            assert(upto.last() == all[k - from]);
            assert(all[k - from] =~= line@.subrange(indent as int, line.len() as int));
            if k > from {
                assert(text@ =~= before + seq!['\n'] + upto.last());
            } else {
                assert(text@ =~= upto.last());
            }
        }
        k += 1;
    }
    assert(all.take(list.len() - from) =~= all);
    text
}

/// Takes the common indentation off a text: drops the empty lines at its
/// start, finds the smallest number of spaces that one of the other lines
/// begins with, and takes that many characters off each of them. The lines
/// are joined by line feeds, with none at the end.
pub fn unindent(text: &str) -> (plain: String)
    ensures
        plain@ == unindented(text@),
{
    let chars = chars_of(text);
    let all = split_lines(&chars);
    let mut first: usize = 0;
    assert(rows(all@).skip(0) =~= rows(all@));
    while first < all.len() && all[first].len() == 0
        invariant
            first <= all.len(),
            without_leading_empty(rows(all@)) == without_leading_empty(rows(all@).skip(first as int)),
        decreases all.len() - first,
    {
        proof {
            assert(rows(all@).skip(first as int)[0] == all[first as int]@);
            assert(rows(all@).skip(first as int).drop_first() =~= rows(all@).skip(first + 1));
        }
        first += 1;
    }
    let ghost kept = rows(all@).skip(first as int);
    proof {
        if first < all.len() {
            assert(kept[0] == all[first as int]@);
        }
        assert(without_leading_empty(rows(all@)) == kept);
    }
    let mut indent: usize = 0;
    let mut k: usize = first;
    assert(kept.take(0) =~= Seq::<Seq<char>>::empty());
    while k < all.len()
        invariant
            first <= k <= all.len(),
            kept == rows(all@).skip(first as int),
            indent == smallest_indentation(kept.take(k - first)),
        decreases all.len() - k,
    {
        let n = count_leading_spaces(&all[k]);
        proof {
            let upto = kept.take(k - first + 1);
            assert(upto.drop_last() =~= kept.take(k - first));
            assert(upto.last() == all[k as int]@);
        }
        if k == first || n < indent {
            indent = n;
        }
        k += 1;
    }
    proof {
        assert(kept.take(all.len() - first) =~= kept);
        assert forall|i: int| first <= i < all.len() implies indent <= (#[trigger] all[i]).len() by {
            lemma_smallest_indentation_fits(kept, i - first);
        }
    }
    let plain = join_outdented(&all, first, indent);
    string_of(&plain)
}

/// Takes the whitespace off the start and the end of each line of `text`,
/// and joins the lines by line feeds.
pub fn trim_lines(text: &str) -> (neat: String)
    ensures
        neat@ == with_trimmed_lines(text@),
{
    let chars = chars_of(text);
    let all = split_lines(&chars);
    let ghost wanted = lines(text@).map_values(|line: Seq<char>| trimmed(line));
    let mut neat: Vec<String> = Vec::new();
    let mut k: usize = 0;
    assert(texts(neat@) =~= wanted.take(0));
    while k < all.len()
        invariant
            k <= all.len(),
            rows(all@) == lines(text@),
            wanted == lines(text@).map_values(|line: Seq<char>| trimmed(line)),
            texts(neat@) == wanted.take(k as int),
        decreases all.len() - k,
    {
        let line = trim(&all[k]);
        let ghost earlier = texts(neat@);
        neat.push(string_of(&line));
        proof {
            assert(rows(all@)[k as int] == all[k as int]@);
            assert(texts(neat@) =~= earlier.push(line@));
            assert(wanted.take(k as int).push(wanted[k as int]) =~= wanted.take(k + 1));
        }
        k += 1;
    }
    proof {
        assert(wanted.take(all.len() as int) =~= wanted);
        reveal_strlit("\n");
        assert("\n"@ =~= seq!['\n']);
    }
    join(&neat, "\n")
}

/// The lengths of the parts, added up.
pub open spec fn total_length(parts: Seq<Seq<char>>) -> nat
    decreases parts.len(),
{
    if parts.len() == 0 {
        0
    } else {
        total_length(parts.drop_last()) + parts.last().len()
    }
}

proof fn lemma_total_length_from_front(first: Seq<char>, rest: Seq<Seq<char>>)
    ensures
        total_length(seq![first] + rest) == first.len() + total_length(rest),
    decreases rest.len(),
{
    let all = seq![first] + rest;
    if rest.len() == 0 {
        assert(all.drop_last() =~= Seq::<Seq<char>>::empty());
        assert(all.last() == first);
        assert(total_length(all.drop_last()) == 0);
        assert(total_length(rest) == 0);
    } else {
        assert(all.drop_last() =~= seq![first] + rest.drop_last());
        assert(all.last() == rest.last());
        lemma_total_length_from_front(first, rest.drop_last());
    }
}

proof fn lemma_joined_length(parts: Seq<Seq<char>>, separator: Seq<char>)
    ensures
        parts.len() == 0 ==> joined(parts, separator).len() == 0,
        parts.len() > 0 ==> joined(parts, separator).len() == total_length(parts) + separator.len() * (
        parts.len() - 1),
    decreases parts.len(),
{
    let count = parts.len() as int;
    let width = separator.len() as int;
    if count == 1 {
        assert(parts.drop_last() =~= Seq::<Seq<char>>::empty());
        assert(total_length(parts.drop_last()) == 0);
        assert(parts.last() == parts[0]);
        assert(width * (count - 1) == 0) by (nonlinear_arith)
            requires
                count == 1,
        ;
    } else if count > 1 {
        lemma_joined_length(parts.drop_last(), separator);
        assert(parts.drop_last().len() == count - 1);
        assert(width * (count - 1) == width * (count - 2) + width) by (nonlinear_arith);
    }
}

proof fn lemma_lines_fit(text: Seq<char>)
    ensures
        total_length(lines(text)) + lines(text).len() <= text.len() + 1,
    decreases text.len(),
{
    if text.len() > 0 {
        let end = first_line_end(text) as int;
        lemma_first_line_end_fits(text);
        if end < text.len() {
            let first = without_carriage_return(text.take(end));
            let rest = lines(text.skip(end + 1));
            lemma_lines_fit(text.skip(end + 1));
            lemma_total_length_from_front(first, rest);
        } else {
            lemma_total_length_from_front(text, Seq::empty());
        }
    }
}

proof fn lemma_first_line_end_fits(text: Seq<char>)
    ensures
        first_line_end(text) <= text.len(),
    decreases text.len(),
{
    if text.len() > 0 && text[0] != '\n' {
        lemma_first_line_end_fits(text.drop_first());
    }
}

proof fn lemma_without_leading_empty_fits(list: Seq<Seq<char>>)
    ensures
        without_leading_empty(list).len() <= list.len(),
        total_length(without_leading_empty(list)) <= total_length(list),
    decreases list.len(),
{
    if list.len() > 0 && list[0].len() == 0 {
        lemma_without_leading_empty_fits(list.drop_first());
        assert(list =~= seq![list[0]] + list.drop_first());
        lemma_total_length_from_front(list[0], list.drop_first());
    }
}

proof fn lemma_outdented_fits(list: Seq<Seq<char>>, n: nat)
    requires
        forall|i: int| 0 <= i < list.len() ==> n <= (#[trigger] list[i]).len(),
    ensures
        total_length(outdented(list, n)) <= total_length(list),
    decreases list.len(),
{
    if list.len() > 0 {
        let front = list.drop_last();
        assert forall|i: int| 0 <= i < front.len() implies n <= (#[trigger] front[i]).len() by {
            assert(front[i] == list[i]);
        }
        lemma_outdented_fits(front, n);
        assert(outdented(list, n).drop_last() =~= outdented(front, n));
        assert(outdented(list, n).last() == list.last().skip(n as int));
        assert(n <= list[list.len() - 1].len());
    }
}

proof fn lemma_leading_spaces_skipped(line: Seq<char>, n: nat)
    requires
        n <= leading_spaces(line),
    ensures
        leading_spaces(line.skip(n as int)) == leading_spaces(line) - n,
    decreases n,
{
    lemma_leading_spaces_fit(line);
    if n > 0 {
        lemma_leading_spaces_skipped(line.drop_first(), (n - 1) as nat);
        lemma_leading_spaces_fit(line.drop_first());
        assert(line.drop_first().skip(n - 1) =~= line.skip(n as int));
    } else {
        assert(line.skip(0) =~= line);
    }
}

proof fn lemma_outdented_indentation(list: Seq<Seq<char>>, n: nat)
    requires
        n <= smallest_indentation(list),
    ensures
        smallest_indentation(outdented(list, n)) == smallest_indentation(list) - n,
    decreases list.len(),
{
    if list.len() > 0 {
        lemma_smallest_indentation_fits(list, list.len() - 1);
        lemma_leading_spaces_skipped(list.last(), n);
        assert(outdented(list, n).last() == list.last().skip(n as int));
        if list.len() > 1 {
            assert(outdented(list, n).drop_last() =~= outdented(list.drop_last(), n));
            lemma_outdented_indentation(list.drop_last(), n);
        } else {
            assert(outdented(list, n)[0] == list[0].skip(n as int));
        }
    }
}

/// What is left of a text has no indentation that all of its lines share:
/// among the lines that `unindented` joins, one begins with no space.
pub proof fn law_unindented_shares_no_indentation(text: Seq<char>)
    ensures
        smallest_indentation(
            outdented(
                without_leading_empty(lines(text)),
                smallest_indentation(without_leading_empty(lines(text))),
            ),
        ) == 0,
{
    let kept = without_leading_empty(lines(text));
    lemma_outdented_indentation(kept, smallest_indentation(kept));
}

/// Taking the indentation off a text does not make it longer.
pub proof fn law_unindented_is_no_longer(text: Seq<char>)
    ensures
        unindented(text).len() <= text.len(),
{
    let all = lines(text);
    let kept = without_leading_empty(all);
    let n = smallest_indentation(kept);
    let plain = outdented(kept, n);
    lemma_lines_fit(text);
    lemma_without_leading_empty_fits(all);
    assert forall|i: int| 0 <= i < kept.len() implies n <= (#[trigger] kept[i]).len() by {
        lemma_smallest_indentation_fits(kept, i);
    }
    lemma_outdented_fits(kept, n);
    lemma_joined_length(plain, seq!['\n']);
    assert(seq!['\n'].len() == 1);
    if plain.len() > 0 {
        assert(1 * (plain.len() - 1) == plain.len() - 1) by (nonlinear_arith);
    }
}

/// Text that can say whether it is blank and can give its lines trimmed.
pub trait StringExt: Sized {
    /// The characters of the text.
    spec fn characters(&self) -> Seq<char>;

    /// Whether the text is empty once its line feeds are taken out and the
    /// whitespace at its start and end is taken off.
    fn is_blank(self) -> (blank: bool)
        ensures
            blank == (trimmed(without_line_feeds(self.characters())).len() == 0),
    ;

    /// Each line of the text without the whitespace at its start and end,
    /// joined by line feeds.
    fn trim_lines(self) -> (neat: String)
        ensures
            neat@ == with_trimmed_lines(self.characters()),
    ;
}

impl StringExt for &str {
    open spec fn characters(&self) -> Seq<char> {
        self@
    }

    fn is_blank(self) -> (blank: bool) {
        is_blank(self)
    }

    fn trim_lines(self) -> (neat: String) {
        trim_lines(self)
    }
}

impl StringExt for String {
    open spec fn characters(&self) -> Seq<char> {
        self@
    }

    fn is_blank(self) -> (blank: bool) {
        is_blank(self.as_str())
    }

    fn trim_lines(self) -> (neat: String) {
        trim_lines(self.as_str())
    }
}

} // verus!
