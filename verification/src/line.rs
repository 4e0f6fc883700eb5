//! The rules that look at one line.
//!
//! A line is classified by how it begins. The rules are tried in a fixed
//! order and the first that matches decides, so that a line of three
//! asterisks is never taken for a heading of a lesser depth.
use vstd::prelude::*;
use crate::lang::{classify, language_of, ProgLang};
use crate::text::{
    after_first_space, chars_of, digit, is_digit, skip_first_space, starts_with, trim,
    trim_bounds, trimmed,
};

verus! {

/// Depth of a heading, and of what stands below it.
#[derive(Debug, Clone, Copy, PartialEq, Eq, Structural)]
pub enum Level {
    One,
    Two,
    Three,
}

/// What a line is, judged by itself.
#[derive(Debug, Clone, Copy, PartialEq, Eq, Structural)]
pub enum LineKind {
    /// Begins with `#+TITLE:`.
    Title,
    /// Begins with `#+DATE:`.
    Date,
    /// Begins with `- `.
    Bullet,
    /// Begins with a numbering, see [`is_ordered_list_line`].
    Numbered,
    /// Begins with `#+BEGIN_SRC`.
    CodeStart,
    /// Begins with one to three asterisks and a space.
    Heading(Level),
    /// Any other line that holds more than whitespace.
    Text,
    /// Any other line.
    Blank,
}

/// Whether the character at index `i` of `s` carries on a numbering: a digit,
/// or a full stop directly after a digit.
pub open spec fn numbering_char(s: Seq<char>, i: int) -> bool {
    is_digit(s[i]) || (s[i] == '.' && i > 0 && is_digit(s[i - 1]))
}

/// Whether a numbering fills `s` up to index `n`, where a space ends it: all
/// before `n` carries the numbering on, and a full stop is among it.
pub open spec fn numbering_ends_at(s: Seq<char>, n: int) -> bool {
    &&& 0 <= n < s.len()
    &&& s[n] == ' '
    &&& forall|i: int| 0 <= i < n ==> numbering_char(s, i)
    &&& exists|j: int| 0 <= j < n && s[j] == '.'
}

/// Whether `s` is the line of an ordered list: it begins with digits and full
/// stops, each full stop directly after a digit and at least one of them,
/// and a space follows.
pub open spec fn is_ordered_list_line(s: Seq<char>) -> bool {
    exists|n: int| numbering_ends_at(s, n)
}

/// What `line` holds behind `prefix`, trimmed. A line that does not begin
/// with `prefix` is taken whole.
pub open spec fn behind(line: Seq<char>, prefix: Seq<char>) -> Seq<char> {
    if starts_with(line, prefix) {
        trim(line.skip(prefix.len() as int))
    } else {
        trim(line)
    }
}

/// Whether `line` opens a list of bullets.
pub open spec fn is_bullet_line(line: Seq<char>) -> bool {
    starts_with(line, "- "@)
}

/// Whether `line` closes a code block.
pub open spec fn is_code_end(line: Seq<char>) -> bool {
    starts_with(line, "#+END_SRC"@)
}

/// What `line` is.
pub open spec fn kind_of(line: Seq<char>) -> LineKind {
    if starts_with(line, "#+TITLE:"@) {
        LineKind::Title
    } else if starts_with(line, "#+DATE:"@) {
        LineKind::Date
    } else if is_bullet_line(line) {
        LineKind::Bullet
    } else if is_ordered_list_line(line) {
        LineKind::Numbered
    } else if starts_with(line, "#+BEGIN_SRC"@) {
        LineKind::CodeStart
    } else if starts_with(line, "*** "@) {
        LineKind::Heading(Level::Three)
    } else if starts_with(line, "** "@) {
        LineKind::Heading(Level::Two)
    } else if starts_with(line, "* "@) {
        LineKind::Heading(Level::One)
    } else if trim(line).len() > 0 {
        LineKind::Text
    } else {
        LineKind::Blank
    }
}

/// The text of a title line.
pub open spec fn title_of(line: Seq<char>) -> Seq<char> {
    behind(line, "#+TITLE:"@)
}

/// The text of a date line.
pub open spec fn date_of(line: Seq<char>) -> Seq<char> {
    behind(line, "#+DATE:"@)
}

/// The item that a bullet line holds.
pub open spec fn bullet_of(line: Seq<char>) -> Seq<char> {
    behind(line, "- "@)
}

/// What a line holds behind its first space, trimmed: the item of a numbered
/// line, the text of a heading.
pub open spec fn tail_of(line: Seq<char>) -> Seq<char> {
    trim(after_first_space(line))
}

/// The language that the opening line of a code block names.
pub open spec fn language_tag(line: Seq<char>) -> ProgLang {
    language_of(tail_of(line))
}

/// Whether `line` is the line of an ordered list.
pub fn ordered_list_line(line: &[char]) -> (r: bool)
    ensures
        r == is_ordered_list_line(line@),
{
    let mut preceded_by_digit = false;
    let mut preceded_by_dot = false;
    let mut i: usize = 0;
    while i < line.len()
        invariant
            i <= line@.len(),
            forall|k: int| 0 <= k < i ==> numbering_char(line@, k),
            preceded_by_dot == (exists|j: int| 0 <= j < i && line@[j] == '.'),
            preceded_by_digit == (i > 0 && is_digit(line@[i - 1])),
        decreases line@.len() - i,
    {
        let c = line[i];
        if digit(c) {
            preceded_by_digit = true;
        } else if c == '.' && preceded_by_digit {
            preceded_by_digit = false;
            preceded_by_dot = true;
        } else {
            proof {
                if c == ' ' && preceded_by_dot {
                    assert(numbering_ends_at(line@, i as int));
                } else {
                    assert forall|n: int| !numbering_ends_at(line@, n) by {
                        if numbering_ends_at(line@, n) {
                            if n < i {
                                assert(numbering_char(line@, n));
                            } else if n > i {
                                assert(numbering_char(line@, i as int));
                            }
                        }
                    }
                }
            }
            return c == ' ' && preceded_by_dot;
        }
        i += 1;
    }
    proof {
        assert forall|n: int| !numbering_ends_at(line@, n) by {
            if numbering_ends_at(line@, n) {
                assert(numbering_char(line@, n));
            }
        }
    }
    false
}

/// Whether `line` is the line of an ordered list.
pub fn is_ordered_list(line: &str) -> (r: bool)
    ensures
        r == is_ordered_list_line(line@),
{
    let chars = chars_of(line);
    ordered_list_line(chars.as_slice())
}

/// The length of `prefix` where `line` begins with it.
pub fn strip_prefix(line: &[char], prefix: &str) -> (r: Option<usize>)
    ensures
        r is Some == starts_with(line@, prefix@),
        r matches Some(n) ==> n == prefix@.len() && n <= line@.len(),
{
    let mut i: usize = 0;
    for c in it: prefix.chars()
        invariant
            i == it.index(),
            it.seq() == prefix@,
            i <= line@.len(),
            line@.take(i as int) == prefix@.take(i as int),
    {
        if i >= line.len() || line[i] != c {
            return None;
        }
        i += 1;
    }
    Some(i)
}

/// Whether `line` begins with `prefix`.
pub fn has_prefix(line: &[char], prefix: &str) -> (r: bool)
    ensures
        r == starts_with(line@, prefix@),
{
    strip_prefix(line, prefix).is_some()
}

/// What `line` is.
pub fn kind(line: &[char]) -> (r: LineKind)
    ensures
        r == kind_of(line@),
{
    if has_prefix(line, "#+TITLE:") {
        LineKind::Title
    } else if has_prefix(line, "#+DATE:") {
        LineKind::Date
    } else if has_prefix(line, "- ") {
        LineKind::Bullet
    } else if ordered_list_line(line) {
        LineKind::Numbered
    } else if has_prefix(line, "#+BEGIN_SRC") {
        LineKind::CodeStart
    } else if has_prefix(line, "*** ") {
        LineKind::Heading(Level::Three)
    } else if has_prefix(line, "** ") {
        LineKind::Heading(Level::Two)
    } else if has_prefix(line, "* ") {
        LineKind::Heading(Level::One)
    } else {
        let (a, b) = trim_bounds(line, 0);
        proof {
            assert(line@.skip(0) == line@);
        }
        if a < b {
            LineKind::Text
        } else {
            LineKind::Blank
        }
    }
}

/// What `line` holds behind `prefix`, trimmed.
pub fn text_behind(line: &[char], prefix: &str) -> (r: String)
    ensures
        r@ == behind(line@, prefix@),
{
    match strip_prefix(line, prefix) {
        Some(n) => trimmed(line, n),
        None => {
            proof {
                assert(line@.skip(0) == line@);
            }
            trimmed(line, 0)
        },
    }
}

/// What `line` holds behind its first space, trimmed.
pub fn tail(line: &[char]) -> (r: String)
    ensures
        r@ == tail_of(line@),
{
    let from = skip_first_space(line);
    trimmed(line, from)
}

/// The language that the opening line of a code block names.
pub fn language(line: &[char]) -> (r: ProgLang)
    ensures
        r == language_tag(line@),
{
    let from = skip_first_space(line);
    let (a, b) = trim_bounds(line, from);
    classify(line, a, b)
}

} // verus!
