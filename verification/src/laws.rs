//! What holds of every document.
//!
//! The functions of this module prove what the scan yields for any lines at
//! all: how many elements, where each of them begins, which lines it takes,
//! and which depth it stands at.
use vstd::prelude::*;
use crate::lexer::{elements_of, last_level, lemma_leveled_keeps_items, level_after, leveled};
use crate::line::{
    bullet_of, is_bullet_line, is_code_end, is_ordered_list_line, kind_of, numbering_char,
    numbering_ends_at, tail_of, Level, LineKind,
};
use crate::lines::{split_lines, strip_cr};
use crate::scan::{
    code_len, continues, item_at, items, items_from, lemma_one_element_per_start, lemma_run_len,
    lemma_run_len_bound, lemma_span_bound, pieces, span, starts_from, Item,
};
use crate::text::{
    after_first_space, leading_whitespace, lemma_leading_whitespace, lemma_position,
    lemma_position_is, lemma_trailing_whitespace, position, starts_with, trim, trim_start,
};

verus! {

/// Whether `item` is a heading.
pub open spec fn is_heading(item: Item) -> bool {
    item is Heading
}

/// A line that begins with `prefix` holds the characters of `prefix` at its
/// start.
pub proof fn lemma_prefix_chars(line: Seq<char>, prefix: Seq<char>)
    requires
        starts_with(line, prefix),
    ensures
        prefix.len() <= line.len(),
        forall|k: int| 0 <= k < prefix.len() ==> #[trigger] line[k] == prefix[k],
{
    assert forall|k: int| 0 <= k < prefix.len() implies #[trigger] line[k] == prefix[k] by {
        assert(line.subrange(0, prefix.len() as int)[k] == line[k]);
    }
}

/// A line that begins with an asterisk matches none of the rules that stand
/// before those of the headings.
proof fn lemma_asterisk_passes_earlier_rules(line: Seq<char>)
    requires
        line.len() > 0,
        line[0] == '*',
    ensures
        !starts_with(line, "#+TITLE:"@),
        !starts_with(line, "#+DATE:"@),
        !is_bullet_line(line),
        !is_ordered_list_line(line),
        !starts_with(line, "#+BEGIN_SRC"@),
{
    reveal_strlit("#+TITLE:");
    reveal_strlit("#+DATE:");
    reveal_strlit("#+BEGIN_SRC");
    reveal_strlit("- ");
    if starts_with(line, "#+TITLE:"@) {
        lemma_prefix_chars(line, "#+TITLE:"@);
        assert(line[0] == "#+TITLE:"@[0]);
    }
    if starts_with(line, "#+DATE:"@) {
        lemma_prefix_chars(line, "#+DATE:"@);
        assert(line[0] == "#+DATE:"@[0]);
    }
    if starts_with(line, "#+BEGIN_SRC"@) {
        lemma_prefix_chars(line, "#+BEGIN_SRC"@);
        assert(line[0] == "#+BEGIN_SRC"@[0]);
    }
    if is_bullet_line(line) {
        lemma_prefix_chars(line, "- "@);
        assert(line[0] == "- "@[0]);
    }
    if is_ordered_list_line(line) {
        let n = choose|n: int| numbering_ends_at(line, n);
        if n > 0 {
            assert(numbering_char(line, 0));
        }
    }
}

/// The item of a numbered line is what stands behind its numbering: the
/// space that ends the numbering is the first space of the line.
pub proof fn lemma_item_follows_numbering(line: Seq<char>, n: int)
    requires
        numbering_ends_at(line, n),
    ensures
        is_ordered_list_line(line),
        after_first_space(line) == line.skip(n + 1),
        tail_of(line) == trim(line.skip(n + 1)),
{
    assert forall|i: int| 0 <= i < n implies #[trigger] line[i] != ' ' by {
        assert(numbering_char(line, i));
    }
    lemma_position_is(line, ' ', n);
}

/// A line of three asterisks and a space is a heading of the third depth, a
/// line of two of the second and a line of one of the first, whatever
/// follows: no rule that stands before these matches such a line, and no
/// line begins in two of these ways.
pub proof fn lemma_asterisks_decide_depth(line: Seq<char>)
    ensures
        starts_with(line, "*** "@) ==> kind_of(line) == LineKind::Heading(Level::Three),
        starts_with(line, "** "@) ==> kind_of(line) == LineKind::Heading(Level::Two),
        starts_with(line, "* "@) ==> kind_of(line) == LineKind::Heading(Level::One),
{
    reveal_strlit("*** ");
    reveal_strlit("** ");
    reveal_strlit("* ");
    let three = starts_with(line, "*** "@);
    let two = starts_with(line, "** "@);
    let one = starts_with(line, "* "@);
    if three {
        lemma_prefix_chars(line, "*** "@);
        assert(line[0] == "*** "@[0] && line[1] == "*** "@[1] && line[2] == "*** "@[2]);
    }
    if two {
        lemma_prefix_chars(line, "** "@);
        assert(line[0] == "** "@[0] && line[1] == "** "@[1] && line[2] == "** "@[2]);
    }
    if one {
        lemma_prefix_chars(line, "* "@);
        assert(line[0] == "* "@[0] && line[1] == "* "@[1]);
    }
    if three || two || one {
        lemma_asterisk_passes_earlier_rules(line);
    }
}

/// No line belongs to two elements: an element begins behind all the lines
/// that the element before it has taken.
pub proof fn lemma_elements_do_not_overlap(lines: Seq<Seq<char>>, pos: int)
    ensures
        forall|j: int, k: int|
            0 <= j < k < starts_from(lines, pos).len() ==> #[trigger] starts_from(lines, pos)[j]
                + span(lines, starts_from(lines, pos)[j]) <= #[trigger] starts_from(
                lines,
                pos,
            )[k],
    decreases lines.len() - pos,
{
    if 0 <= pos < lines.len() {
        lemma_span_bound(lines, pos);
        let next = pos + span(lines, pos);
        lemma_elements_do_not_overlap(lines, next);
        lemma_one_element_per_start(lines, next);
        let starts = starts_from(lines, pos);
        let later = starts_from(lines, next);
        assert forall|j: int, k: int| 0 <= j < k < starts.len() implies #[trigger] starts[j]
            + span(lines, starts[j]) <= #[trigger] starts[k] by {
            if kind_of(lines[pos]) == LineKind::Blank {
                assert(starts[j] == later[j]);
                assert(starts[k] == later[k]);
            } else {
                assert(starts[k] == later[k - 1]);
                if j > 0 {
                    assert(starts[j] == later[j - 1]);
                }
            }
        }
    }
}

/// A blank line never yields an element: the text of a text element holds a
/// character at least.
pub proof fn lemma_text_is_not_empty(lines: Seq<Seq<char>>, pos: int)
    ensures
        forall|k: int|
            0 <= k < items_from(lines, pos).len() ==> (#[trigger] items_from(lines, pos)[k]
                matches Item::Text(text) ==> text.len() > 0),
    decreases lines.len() - pos,
{
    if 0 <= pos < lines.len() {
        lemma_span_bound(lines, pos);
        let next = pos + span(lines, pos);
        lemma_text_is_not_empty(lines, next);
        let items = items_from(lines, pos);
        assert forall|k: int| 0 <= k < items.len() implies (#[trigger] items[k] matches Item::Text(
            text,
        ) ==> text.len() > 0) by {
            if kind_of(lines[pos]) == LineKind::Blank {
                assert(items[k] == items_from(lines, next)[k]);
            } else if k > 0 {
                assert(items[k] == items_from(lines, next)[k - 1]);
            }
        }
    }
}

/// A list is one whole run of lines of its kind: where a list begins at index
/// `pos`, every line that it takes is a line of its kind and holds one item
/// of it, in order, and the line behind it, if there is one, is of another
/// kind. So any other line, a blank one too, parts two lists.
pub proof fn lemma_list_is_one_run(lines: Seq<Seq<char>>, pos: int)
    requires
        0 <= pos < lines.len(),
        kind_of(lines[pos]) == LineKind::Bullet || kind_of(lines[pos]) == LineKind::Numbered,
    ensures
        pos + span(lines, pos) <= lines.len(),
        forall|i: int|
            pos <= i < pos + span(lines, pos) ==> continues(kind_of(lines[pos]), #[trigger] lines[i]),
        pos + span(lines, pos) < lines.len() ==> !continues(
            kind_of(lines[pos]),
            lines[pos + span(lines, pos)],
        ),
        kind_of(lines[pos]) == LineKind::Bullet ==> item_at(lines, pos) == Some(
            Item::UnorderedList(Seq::new(span(lines, pos), |i: int| bullet_of(lines[pos + i]))),
        ),
        kind_of(lines[pos]) == LineKind::Numbered ==> item_at(lines, pos) == Some(
            Item::OrderedList(Seq::new(span(lines, pos), |i: int| tail_of(lines[pos + i]))),
        ),
{
    let kind = kind_of(lines[pos]);
    lemma_span_bound(lines, pos);
    lemma_run_len(lines, pos + 1, kind);
    assert(continues(kind, lines[pos]));
    if kind == LineKind::Bullet {
        assert(pieces(lines, pos, span(lines, pos), kind) =~= Seq::new(
            span(lines, pos),
            |i: int| bullet_of(lines[pos + i]),
        ));
    } else {
        assert(pieces(lines, pos, span(lines, pos), kind) =~= Seq::new(
            span(lines, pos),
            |i: int| tail_of(lines[pos + i]),
        ));
    }
}

/// The source of a code block is made of the lines between its fences and of
/// nothing else: where a code block opens at index `pos`, none of its lines
/// of code closes a block, the line behind them does where there is one, and
/// the source is these lines, each trimmed, one behind the other.
pub proof fn lemma_code_block_lies_between_fences(lines: Seq<Seq<char>>, pos: int)
    requires
        0 <= pos < lines.len(),
        kind_of(lines[pos]) == LineKind::CodeStart,
    ensures
        pos + 1 + code_len(lines, pos) <= lines.len(),
        forall|i: int| pos < i <= pos + code_len(lines, pos) ==> !is_code_end(#[trigger] lines[i]),
        pos + 1 + code_len(lines, pos) < lines.len() ==> is_code_end(
            lines[pos + 1 + code_len(lines, pos)],
        ),
        span(lines, pos) == if pos + 1 + code_len(lines, pos) < lines.len() {
            code_len(lines, pos) + 2
        } else {
            code_len(lines, pos) + 1
        },
        item_at(lines, pos) matches Some(Item::CodeBlock(_, source)) && source == Seq::new(
            code_len(lines, pos),
            |i: int| trim(lines[pos + 1 + i]),
        ).flatten(),
{
    lemma_span_bound(lines, pos);
    lemma_run_len(lines, pos + 1, LineKind::CodeStart);
    lemma_run_len_bound(lines, pos + 1, LineKind::CodeStart);
    assert(pieces(lines, pos + 1, code_len(lines, pos), LineKind::CodeStart) =~= Seq::new(
        code_len(lines, pos),
        |i: int| trim(lines[pos + 1 + i]),
    ));
}

/// The elements of a document are as many as the lines at which an element
/// begins, and each of them is what the step at its line makes, with a depth.
pub proof fn lemma_document_elements(text: Seq<char>)
    ensures
        elements_of(text).len() == starts_from(split_lines(text), 0).len(),
        forall|k: int|
            0 <= k < elements_of(text).len() ==> item_at(
                split_lines(text),
                starts_from(split_lines(text), 0)[k],
            ) == Some((#[trigger] elements_of(text)[k]).item),
{
    let lines = split_lines(text);
    lemma_one_element_per_start(lines, 0);
    lemma_leveled_keeps_items(items(lines), Level::One);
}

/// No line of a document holds a line feed.
pub proof fn lemma_lines_hold_no_line_feed(text: Seq<char>)
    ensures
        forall|k: int|
            0 <= k < split_lines(text).len() ==> !(#[trigger] split_lines(text)[k]).contains('\n'),
    decreases text.len(),
{
    let n = position(text, '\n') as int;
    lemma_position(text, '\n');
    let lines = split_lines(text);
    if text.len() == 0 {
    } else if n < text.len() {
        let head = strip_cr(text.take(n));
        let tail = split_lines(text.skip(n + 1));
        lemma_lines_hold_no_line_feed(text.skip(n + 1));
        assert forall|k: int| 0 <= k < lines.len() implies !(#[trigger] lines[k]).contains(
            '\n',
        ) by {
            if k == 0 {
                assert(lines[0] == head);
                assert forall|i: int| 0 <= i < head.len() implies head[i] != '\n' by {
                    assert(head[i] == text[i]);
                }
            } else {
                assert(lines[k] == tail[k - 1]);
            }
        }
    } else {
        assert(lines[0] == text);
    }
}

/// Trimming takes characters away and adds none.
pub proof fn lemma_trim_adds_nothing(s: Seq<char>, c: char)
    requires
        !s.contains(c),
    ensures
        !trim(s).contains(c),
{
    lemma_leading_whitespace(s);
    let t = trim_start(s);
    lemma_trailing_whitespace(t);
    assert forall|i: int| 0 <= i < trim(s).len() implies trim(s)[i] != c by {
        assert(trim(s)[i] == s[leading_whitespace(s) + i]);
        assert(s.contains(s[leading_whitespace(s) + i]));
    }
}

/// What is put together of parts holds no character that none of the parts
/// holds.
pub proof fn lemma_flatten_adds_nothing(parts: Seq<Seq<char>>, c: char)
    requires
        forall|k: int| 0 <= k < parts.len() ==> !(#[trigger] parts[k]).contains(c),
    ensures
        !parts.flatten().contains(c),
    decreases parts.len(),
{
    if parts.len() > 0 {
        let first = parts.first();
        let rest = parts.drop_first();
        assert forall|k: int| 0 <= k < rest.len() implies !(#[trigger] rest[k]).contains(c) by {
            assert(rest[k] == parts[k + 1]);
        }
        lemma_flatten_adds_nothing(rest, c);
        let whole = parts.flatten();
        assert(whole == first + rest.flatten());
        assert(!parts[0].contains(c));
        assert forall|i: int| 0 <= i < whole.len() implies whole[i] != c by {
            if i < first.len() {
                assert(first.contains(whole[i]));
            } else {
                assert(rest.flatten().contains(whole[i])) by {
                    assert(rest.flatten()[i - first.len()] == whole[i]);
                }
            }
        }
    }
}

/// The source of a code block holds no line feed: what stood on several
/// lines stands in it without a break.
pub proof fn lemma_code_source_holds_no_line_feed(text: Seq<char>, pos: int)
    requires
        0 <= pos < split_lines(text).len(),
        kind_of(split_lines(text)[pos]) == LineKind::CodeStart,
    ensures
        item_at(split_lines(text), pos) matches Some(Item::CodeBlock(_, source))
            && !source.contains('\n'),
{
    let lines = split_lines(text);
    let n = code_len(lines, pos);
    let parts = pieces(lines, pos + 1, n, LineKind::CodeStart);
    lemma_lines_hold_no_line_feed(text);
    lemma_run_len_bound(lines, pos + 1, LineKind::CodeStart);
    assert forall|k: int| 0 <= k < parts.len() implies !(#[trigger] parts[k]).contains('\n') by {
        assert(parts[k] == trim(lines[pos + 1 + k]));
        lemma_trim_adds_nothing(lines[pos + 1 + k], '\n');
    }
    lemma_flatten_adds_nothing(parts, '\n');
}

/// An element stands at the depth of the nearest heading that is not behind
/// it, itself where it is one; an element with no such heading stands at the
/// depth that was in force at the start. A later heading changes nothing of
/// what stands before it.
pub proof fn lemma_level_is_that_of_nearest_heading(items: Seq<Item>, level: Level)
    ensures
        leveled(items, level).len() == items.len(),
        forall|j: int, k: int|
            0 <= j <= k < items.len() && #[trigger] is_heading(items[j]) && (forall|m: int|
                j < m <= k ==> !is_heading(items[m])) ==> (#[trigger] leveled(items, level)[k]).level
                == items[j]->Heading_0,
        forall|k: int|
            0 <= k < items.len() && (forall|m: int| 0 <= m <= k ==> !is_heading(items[m])) ==> (
            #[trigger] leveled(items, level)[k]).level == level,
    decreases items.len(),
{
    lemma_leveled_keeps_items(items, level);
    if items.len() > 0 {
        let next = level_after(level, items[0]);
        let rest = items.drop_first();
        let all = leveled(items, level);
        let later = leveled(rest, next);
        lemma_level_is_that_of_nearest_heading(rest, next);
        lemma_leveled_keeps_items(rest, next);
        assert forall|j: int, k: int|
            0 <= j <= k < items.len() && #[trigger] is_heading(items[j]) && (forall|m: int|
                j < m <= k ==> !is_heading(items[m])) implies (#[trigger] all[k]).level
            == items[j]->Heading_0 by {
            if k == 0 {
            } else {
                assert(all[k] == later[k - 1]);
                if j == 0 {
                    assert forall|m: int| 0 <= m <= k - 1 implies !is_heading(rest[m]) by {
                        assert(rest[m] == items[m + 1]);
                    }
                } else {
                    assert(rest[j - 1] == items[j]);
                    assert(is_heading(rest[j - 1]));
                    assert forall|m: int| j - 1 < m <= k - 1 implies !is_heading(rest[m]) by {
                        assert(rest[m] == items[m + 1]);
                    }
                }
            }
        }
        assert forall|k: int|
            0 <= k < items.len() && (forall|m: int|
                0 <= m <= k ==> !is_heading(items[m])) implies (#[trigger] all[k]).level
            == level by {
            assert(!is_heading(items[0]));
            if k > 0 {
                assert(all[k] == later[k - 1]);
                assert forall|m: int| 0 <= m <= k - 1 implies !is_heading(rest[m]) by {
                    assert(rest[m] == items[m + 1]);
                }
            }
        }
    }
}

/// The depth in force behind all of `items` is that of the last heading
/// among them, or the depth at the start where none is among them.
pub proof fn lemma_last_level_is_that_of_last_heading(items: Seq<Item>, level: Level)
    ensures
        (forall|m: int| 0 <= m < items.len() ==> !is_heading(items[m])) ==> last_level(items, level)
            == level,
        forall|j: int|
            0 <= j < items.len() && #[trigger] is_heading(items[j]) && (forall|m: int|
                j < m < items.len() ==> !is_heading(items[m])) ==> last_level(items, level)
                == items[j]->Heading_0,
    decreases items.len(),
{
    if items.len() > 0 {
        let next = level_after(level, items[0]);
        let rest = items.drop_first();
        lemma_last_level_is_that_of_last_heading(rest, next);
        if forall|m: int| 0 <= m < items.len() ==> !is_heading(items[m]) {
            assert(!is_heading(items[0]));
            assert forall|m: int| 0 <= m < rest.len() implies !is_heading(rest[m]) by {
                assert(rest[m] == items[m + 1]);
            }
        }
        assert forall|j: int|
            0 <= j < items.len() && #[trigger] is_heading(items[j]) && (forall|m: int|
                j < m < items.len() ==> !is_heading(items[m])) implies last_level(items, level)
            == items[j]->Heading_0 by {
            if j == 0 {
                assert forall|m: int| 0 <= m < rest.len() implies !is_heading(rest[m]) by {
                    assert(rest[m] == items[m + 1]);
                }
            } else {
                assert(rest[j - 1] == items[j]);
                assert(is_heading(rest[j - 1]));
                assert forall|m: int| j - 1 < m < rest.len() implies !is_heading(rest[m]) by {
                    assert(rest[m] == items[m + 1]);
                }
            }
        }
    }
}

} // verus!
