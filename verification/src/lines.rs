//! The text format of a word list: lines separated by a newline, with no newline after
//! the last line.
//!
//! A text is modelled as a `Seq<char>`, a word list as a `Seq<Seq<char>>`.

use vstd::prelude::*;

verus! {

/// The character that separates two lines.
pub const NEWLINE: char = '\n';

/// A line is a run of characters without a newline.
pub open spec fn is_line(line: Seq<char>) -> bool {
    !line.contains(NEWLINE)
}

/// How many characters of `text` stand before its first newline: all of them if it
/// has none.
pub open spec fn first_line_len(text: Seq<char>) -> nat
    decreases text.len(),
{
    if text.len() == 0 || text[0] == NEWLINE {
        0
    } else {
        1 + first_line_len(text.drop_first())
    }
}

/// The lines of `text`. A text without a newline is a single line, an empty text a
/// single empty line. Otherwise the first line is what stands before the first
/// newline, and the other lines are those of what follows that newline.
pub open spec fn lines_of(text: Seq<char>) -> Seq<Seq<char>>
    decreases text.len(),
{
    let first = first_line_len(text) as int;
    if first < text.len() {
        seq![text.take(first)] + lines_of(text.skip(first + 1))
    } else {
        seq![text]
    }
}

/// The lines of `lines` with one newline between each two neighbours, and none after
/// the last. No lines give the empty text.
pub open spec fn joined(lines: Seq<Seq<char>>) -> Seq<char>
    decreases lines.len(),
{
    if lines.len() == 0 {
        Seq::empty()
    } else if lines.len() == 1 {
        lines[0]
    } else {
        joined(lines.drop_last()) + seq![NEWLINE] + lines.last()
    }
}

/// Taken on trust from the standard library's documentation of `String::push`: the
/// call appends `ch` to the string and changes nothing else of it.
pub assume_specification[ String::push ](s: &mut String, ch: char)
    ensures
        final(s)@ == old(s)@.push(ch),
;

/// Splits `text` at its newlines. The newlines themselves belong to no line; every
/// other character stays where it was, a carriage return too.
pub fn split_lines(text: &str) -> (lines: Vec<String>)
    ensures
        lines.deep_view() == lines_of(text@),
{
    broadcast use vstd::string::group_string_axioms;

    let mut lines: Vec<String> = Vec::new();
    let mut current = String::new();
    proof {
        assert(text@.take(0) =~= Seq::<char>::empty());
    }
    for c in it: text.chars()
        invariant
            it.seq() == text@,
            lines.deep_view().push(current@) == lines_of(text@.take(it.index() as int)),
    {
        proof {
            let seen = text@.take(it.index() as int);
            lemma_lines_of_push(seen, c);
            assert(seen.push(c) =~= text@.take(it.index() + 1));
        }
        if c == NEWLINE {
            lines.push(current);
            current = String::new();
        } else {
            current.push(c);
        }
    }
    lines.push(current);
    proof {
        assert(text@.take(text@.len() as int) =~= text@);
    }
    lines
}

/// Joins `lines` with a newline between each two neighbours and none after the last.
/// An empty list gives the empty text.
pub fn join_lines(lines: &Vec<String>) -> (text: String)
    ensures
        text@ == joined(lines.deep_view()),
{
    let ghost all = lines.deep_view();
    let mut text = String::new();
    let mut i: usize = 0;
    while i < lines.len()
        invariant
            i <= lines.len(),
            all == lines.deep_view(),
            text@ == joined(all.take(i as int)),
        decreases lines.len() - i,
    {
        if i > 0 {
            text.push(NEWLINE);
        }
        text.append(lines[i].as_str());
        proof {
            let done = all.take(i + 1);
            assert(done.drop_last() =~= all.take(i as int));
        }
        i += 1;
    }
    proof {
        assert(all.take(lines.len() as int) =~= all);
    }
    text
}

/// Splitting loses nothing: the lines of a text, joined again, are that text, and none
/// of them holds a newline.
pub proof fn lemma_split_then_join(text: Seq<char>)
    ensures
        lines_of(text).len() >= 1,
        forall|i: int| 0 <= i < lines_of(text).len() ==> is_line(#[trigger] lines_of(text)[i]),
        joined(lines_of(text)) == text,
    decreases text.len(),
{
    if text.len() == 0 {
        assert(lines_of(text) =~= seq![text]);
    } else {
        let front = text.drop_last();
        let c = text.last();
        assert(front.push(c) =~= text);
        lemma_split_then_join(front);
        lemma_lines_of_push(front, c);
        let before = lines_of(front);
        let after = lines_of(text);
        if c == NEWLINE {
            assert(after.drop_last() =~= before);
        } else {
            let last = before.last().push(c);
            assert forall|j: int| 0 <= j < last.len() implies last[j] != NEWLINE by {
                if j < before.last().len() {
                    assert(before.last()[j] == last[j]);
                }
            }
            assert(after.drop_last() =~= before.drop_last());
        }
    }
}

/// Joining then splitting gives the word list back, provided that it has at least one
/// line and that none of its lines holds a newline.
///
/// The empty list is left out because it is written as the empty text, which reads
/// back as one empty line.
pub proof fn lemma_join_then_split(lines: Seq<Seq<char>>)
    requires
        lines.len() >= 1,
        forall|i: int| 0 <= i < lines.len() ==> is_line(#[trigger] lines[i]),
    ensures
        lines_of(joined(lines)) == lines,
    decreases lines.len(),
{
    let last = lines.last();
    if lines.len() == 1 {
        lemma_first_line_ends_at(last, last.len() as int);
    } else {
        let front = lines.drop_last();
        assert forall|i: int| 0 <= i < front.len() implies is_line(#[trigger] front[i]) by {
            assert(front[i] == lines[i]);
        }
        lemma_join_then_split(front);
        lemma_lines_of_with_line(joined(front), last);
    }
}

/// Joining adds nothing but newlines: a character other than the newline that occurs
/// in no line does not occur in the joined text.
pub proof fn lemma_joined_lacks(lines: Seq<Seq<char>>, c: char)
    requires
        c != NEWLINE,
        forall|i: int| 0 <= i < lines.len() ==> !(#[trigger] lines[i]).contains(c),
    ensures
        !joined(lines).contains(c),
    decreases lines.len(),
{
    if lines.len() == 1 {
        assert(!lines[0].contains(c));
    } else if lines.len() > 1 {
        let front = lines.drop_last();
        let last = lines.last();
        assert forall|i: int| 0 <= i < front.len() implies !(#[trigger] front[i]).contains(c) by {
            assert(front[i] == lines[i]);
        }
        lemma_joined_lacks(front, c);
        let text = joined(lines);
        let head = joined(front);
        assert forall|j: int| 0 <= j < text.len() implies text[j] != c by {
            if j < head.len() {
                assert(head[j] == text[j]);
            } else if j > head.len() {
                assert(last[j - head.len() - 1] == text[j]);
            }
        }
    }
}

/// One more character at the end of a text opens a new, empty line if it is a
/// newline, and otherwise lengthens the last line.
pub proof fn lemma_lines_of_push(text: Seq<char>, c: char)
    ensures
        lines_of(text).len() >= 1,
        lines_of(text.push(c)) == (if c == NEWLINE {
            lines_of(text).push(Seq::empty())
        } else {
            lines_of(text).drop_last().push(lines_of(text).last().push(c))
        }),
    decreases text.len(),
{
    let longer = text.push(c);
    let first = first_line_len(text) as int;
    lemma_first_line_len(text);
    if first < text.len() {
        let rest = text.skip(first + 1);
        assert(longer.take(first) =~= text.take(first));
        lemma_first_line_ends_at(longer, first);
        assert(longer.skip(first + 1) =~= rest.push(c));
        lemma_lines_of_push(rest, c);
    } else {
        assert(text.take(first) =~= text);
        if c == NEWLINE {
            assert(longer.take(first) =~= text);
            lemma_first_line_ends_at(longer, first);
            assert(longer.skip(first + 1) =~= Seq::<char>::empty());
            assert(lines_of(Seq::<char>::empty()) =~= seq![Seq::<char>::empty()]);
        } else {
            assert forall|j: int| 0 <= j < longer.len() implies longer[j] != NEWLINE by {
                if j < first {
                    assert(text.take(first)[j] == longer[j]);
                }
            }
            lemma_first_line_ends_at(longer, first + 1);
        }
    }
}

/// A text followed by a newline and a line has the lines of the text, and then that
/// line.
pub proof fn lemma_lines_of_with_line(text: Seq<char>, line: Seq<char>)
    requires
        is_line(line),
    ensures
        lines_of(text + seq![NEWLINE] + line) == lines_of(text).push(line),
    decreases line.len(),
{
    if line.len() == 0 {
        lemma_lines_of_push(text, NEWLINE);
        assert(text + seq![NEWLINE] + line =~= text.push(NEWLINE));
        assert(line =~= Seq::<char>::empty());
    } else {
        let front = line.drop_last();
        let c = line.last();
        assert forall|j: int| 0 <= j < front.len() implies front[j] != NEWLINE by {
            assert(front[j] == line[j]);
        }
        lemma_lines_of_with_line(text, front);
        lemma_lines_of_push(text + seq![NEWLINE] + front, c);
        assert(front.push(c) =~= line);
    }
}

/// `first_line_len` stops at the first newline: no newline stands before it, and one
/// stands at it unless the text ends there.
pub proof fn lemma_first_line_len(text: Seq<char>)
    ensures
        first_line_len(text) <= text.len(),
        is_line(text.take(first_line_len(text) as int)),
        first_line_len(text) < text.len() ==> text[first_line_len(text) as int] == NEWLINE,
    decreases text.len(),
{
    if text.len() == 0 || text[0] == NEWLINE {
    } else {
        let rest = text.drop_first();
        lemma_first_line_len(rest);
        let n = first_line_len(rest) as int;
        let head = text.take(n + 1);
        assert forall|j: int| 0 <= j < head.len() implies head[j] != NEWLINE by {
            if j > 0 {
                assert(rest.take(n)[j - 1] == head[j]);
            }
        }
    }
}

/// A position that no newline precedes, and that holds a newline or ends the text, is
/// where the first line ends.
pub proof fn lemma_first_line_ends_at(text: Seq<char>, at: int)
    requires
        0 <= at <= text.len(),
        is_line(text.take(at)),
        at < text.len() ==> text[at] == NEWLINE,
    ensures
        first_line_len(text) == at,
    decreases text.len(),
{
    if at == 0 {
    } else {
        assert(text.take(at)[0] == text[0]);
        let rest = text.drop_first();
        let front = rest.take(at - 1);
        assert forall|j: int| 0 <= j < front.len() implies front[j] != NEWLINE by {
            assert(text.take(at)[j + 1] == front[j]);
        }
        lemma_first_line_ends_at(rest, at - 1);
    }
}

} // verus!
