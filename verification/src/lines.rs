//! Splitting a document into its lines.
//!
//! A line ends at a line feed, or at a carriage return directly followed by a
//! line feed; neither belongs to the line. The last line needs no line ending,
//! and a carriage return that ends the document without a line feed stays in
//! its line.
use vstd::prelude::*;
use crate::text::{lemma_position_is, position};

verus! {

/// The lines that `lines` holds, each as its characters.
pub open spec fn view_lines(lines: Seq<Vec<char>>) -> Seq<Seq<char>> {
    Seq::new(lines.len(), |i: int| lines[i]@)
}

/// `s` without a carriage return at its end.
pub open spec fn strip_cr(s: Seq<char>) -> Seq<char> {
    if s.len() > 0 && s.last() == '\r' {
        s.drop_last()
    } else {
        s
    }
}

/// The lines of `text`, in order.
pub open spec fn split_lines(text: Seq<char>) -> Seq<Seq<char>>
    decreases text.len(),
{
    let n = position(text, '\n') as int;
    if text.len() == 0 {
        Seq::empty()
    } else if n < text.len() {
        seq![strip_cr(text.take(n))] + split_lines(text.skip(n + 1))
    } else {
        seq![text]
    }
}

/// One step of [`split_lines`]: the line that starts at `start` and ends with
/// the line feed at `end`.
pub proof fn lemma_split_lines_step(text: Seq<char>, start: int, end: int)
    requires
        0 <= start <= end < text.len(),
        forall|i: int| start <= i < end ==> #[trigger] text[i] != '\n',
        text[end] == '\n',
    ensures
        split_lines(text.skip(start)) == seq![strip_cr(text.subrange(start, end))] + split_lines(
            text.skip(end + 1),
        ),
{
    let rest = text.skip(start);
    assert forall|i: int| 0 <= i < end - start implies #[trigger] rest[i] != '\n' by {}
    lemma_position_is(rest, '\n', end - start);
    assert(rest.take(end - start) == text.subrange(start, end));
    assert(rest.skip(end - start + 1) == text.skip(end + 1));
}

/// The end of [`split_lines`]: what follows the last line feed is one line,
/// unless it is empty.
pub proof fn lemma_split_lines_last(text: Seq<char>, start: int)
    requires
        0 <= start <= text.len(),
        forall|i: int| start <= i < text.len() ==> #[trigger] text[i] != '\n',
    ensures
        split_lines(text.skip(start)) == if start < text.len() {
            seq![text.skip(start)]
        } else {
            Seq::<Seq<char>>::empty()
        },
{
    let rest = text.skip(start);
    assert forall|i: int| 0 <= i < rest.len() implies #[trigger] rest[i] != '\n' by {}
    lemma_position_is(rest, '\n', rest.len() as int);
}

/// The lines of `text`, in order.
pub fn lines_of(text: &str) -> (r: Vec<Vec<char>>)
    ensures
        view_lines(r@) == split_lines(text@),
{
    let mut lines: Vec<Vec<char>> = Vec::new();
    let mut line: Vec<char> = Vec::new();
    let ghost mut start: int = 0;
    proof {
        assert(text@.skip(0) == text@);
    }
    for c in it: text.chars()
        invariant
            it.seq() == text@,
            0 <= start <= it.index() <= text@.len(),
            line@ == text@.subrange(start, it.index() as int),
            forall|i: int| start <= i < it.index() ==> #[trigger] text@[i] != '\n',
            split_lines(text@) == view_lines(lines@) + split_lines(text@.skip(start)),
    {
        let ghost i = it.index() as int;
        if c == '\n' {
            let n = line.len();
            if n > 0 && line[n - 1] == '\r' {
                line.pop();
            }
            proof {
                lemma_split_lines_step(text@, start, i);
            }
            lines.push(line);
            proof {
                start = i + 1;
            }
            line = Vec::new();
        } else {
            line.push(c);
        }
    }
    proof {
        lemma_split_lines_last(text@, start);
    }
    if line.len() > 0 {
        lines.push(line);
    }
    lines
}

} // verus!
