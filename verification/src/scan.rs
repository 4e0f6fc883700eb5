//! The scan over the lines of a document.
//!
//! The scan walks the lines once, from the first to the last. At each step
//! it looks at the line under the cursor, decides by [`kind_of`] what begins
//! there, and takes as many lines as belong to it: one line, a run of list
//! lines of one kind, or a code block up to the line that closes it.
use vstd::prelude::*;
use crate::lang::ProgLang;
use crate::lines::view_lines;
use crate::line::{
    bullet_of, date_of, has_prefix, is_bullet_line, is_code_end, is_ordered_list_line, kind_of,
    language_tag, ordered_list_line, tail, tail_of, text_behind, title_of, Level, LineKind,
};
use crate::text::{append_chars, trim, trim_bounds, trimmed};

verus! {

/// One unit of a document, without the depth it stands at.
pub enum Item {
    Title(Seq<char>),
    Date(Seq<char>),
    UnorderedList(Seq<Seq<char>>),
    OrderedList(Seq<Seq<char>>),
    CodeBlock(ProgLang, Seq<char>),
    Heading(Level, Seq<char>),
    Text(Seq<char>),
}

/// Whether `line` carries on what a line of kind `kind` began: a list goes
/// on with a line of its own kind, a code block with any line that does not
/// close it. Nothing else goes on.
pub open spec fn continues(kind: LineKind, line: Seq<char>) -> bool {
    match kind {
        LineKind::Bullet => is_bullet_line(line),
        LineKind::Numbered => is_ordered_list_line(line),
        LineKind::CodeStart => !is_code_end(line),
        _ => false,
    }
}

/// What `line` adds to what a line of kind `kind` began: the item of a list
/// line, the trimmed text of a line of code.
pub open spec fn piece(kind: LineKind, line: Seq<char>) -> Seq<char> {
    match kind {
        LineKind::Bullet => bullet_of(line),
        LineKind::Numbered => tail_of(line),
        _ => trim(line),
    }
}

/// How many lines, from index `pos` on, carry on with `kind` without a break.
pub open spec fn run_len(lines: Seq<Seq<char>>, pos: int, kind: LineKind) -> nat
    decreases lines.len() - pos,
{
    if 0 <= pos < lines.len() && continues(kind, lines[pos]) {
        1 + run_len(lines, pos + 1, kind)
    } else {
        0
    }
}

/// What the `n` lines from index `pos` on add, each by [`piece`].
pub open spec fn pieces(lines: Seq<Seq<char>>, pos: int, n: nat, kind: LineKind) -> Seq<
    Seq<char>,
> {
    Seq::new(n, |i: int| piece(kind, lines[pos + i]))
}

/// How many lines of code follow the opening line at index `pos`.
pub open spec fn code_len(lines: Seq<Seq<char>>, pos: int) -> nat {
    run_len(lines, pos + 1, LineKind::CodeStart)
}

/// How many lines the code block that opens at index `pos` takes: its
/// opening line, its lines of code, and the closing line where there is one.
/// The end of the document closes a block that is left open.
pub open spec fn code_span(lines: Seq<Seq<char>>, pos: int) -> nat {
    if pos + 1 + code_len(lines, pos) < lines.len() {
        code_len(lines, pos) + 2
    } else {
        code_len(lines, pos) + 1
    }
}

/// How many lines the step at index `pos` takes: a list takes the lines of
/// its run, a code block those of [`code_span`], anything else one line.
pub open spec fn span(lines: Seq<Seq<char>>, pos: int) -> nat {
    match kind_of(lines[pos]) {
        LineKind::Bullet => 1 + run_len(lines, pos + 1, LineKind::Bullet),
        LineKind::Numbered => 1 + run_len(lines, pos + 1, LineKind::Numbered),
        LineKind::CodeStart => code_span(lines, pos),
        _ => 1,
    }
}

/// What the step at index `pos` yields; nothing for a blank line.
pub open spec fn item_at(lines: Seq<Seq<char>>, pos: int) -> Option<Item> {
    let line = lines[pos];
    match kind_of(line) {
        LineKind::Title => Some(Item::Title(title_of(line))),
        LineKind::Date => Some(Item::Date(date_of(line))),
        LineKind::Bullet => Some(
            Item::UnorderedList(pieces(lines, pos, span(lines, pos), LineKind::Bullet)),
        ),
        LineKind::Numbered => Some(
            Item::OrderedList(pieces(lines, pos, span(lines, pos), LineKind::Numbered)),
        ),
        LineKind::CodeStart => Some(
            Item::CodeBlock(
                language_tag(line),
                pieces(lines, pos + 1, code_len(lines, pos), LineKind::CodeStart).flatten(),
            ),
        ),
        LineKind::Heading(level) => Some(Item::Heading(level, tail_of(line))),
        LineKind::Text => Some(Item::Text(trim(line))),
        LineKind::Blank => None,
    }
}

/// What the scan yields from index `pos` on, in order.
pub open spec fn items_from(lines: Seq<Seq<char>>, pos: int) -> Seq<Item>
    decreases lines.len() - pos,
{
    if 0 <= pos < lines.len() {
        proof {
            lemma_span_bound(lines, pos);
        }
        let rest = items_from(lines, pos + span(lines, pos));
        match item_at(lines, pos) {
            Some(item) => seq![item] + rest,
            None => rest,
        }
    } else {
        Seq::empty()
    }
}

/// What the scan yields for a whole document.
pub open spec fn items(lines: Seq<Seq<char>>) -> Seq<Item> {
    items_from(lines, 0)
}

/// The indices, from `pos` on, of the lines at which an element begins: the
/// lines that the cursor stops at and that are not blank.
pub open spec fn starts_from(lines: Seq<Seq<char>>, pos: int) -> Seq<int>
    decreases lines.len() - pos,
{
    if 0 <= pos < lines.len() {
        proof {
            lemma_span_bound(lines, pos);
        }
        let rest = starts_from(lines, pos + span(lines, pos));
        if kind_of(lines[pos]) == LineKind::Blank {
            rest
        } else {
            seq![pos] + rest
        }
    } else {
        Seq::empty()
    }
}

/// A run ends inside the document.
pub proof fn lemma_run_len_bound(lines: Seq<Seq<char>>, pos: int, kind: LineKind)
    requires
        0 <= pos <= lines.len(),
    ensures
        pos + run_len(lines, pos, kind) <= lines.len(),
    decreases lines.len() - pos,
{
    if pos < lines.len() && continues(kind, lines[pos]) {
        lemma_run_len_bound(lines, pos + 1, kind);
    }
}

/// The lines of a run carry on, and the line behind it does not.
pub proof fn lemma_run_len(lines: Seq<Seq<char>>, pos: int, kind: LineKind)
    requires
        0 <= pos <= lines.len(),
    ensures
        forall|i: int|
            pos <= i < pos + run_len(lines, pos, kind) ==> continues(kind, #[trigger] lines[i]),
        pos + run_len(lines, pos, kind) < lines.len() ==> !continues(
            kind,
            lines[pos + run_len(lines, pos, kind)],
        ),
    decreases lines.len() - pos,
{
    if pos < lines.len() && continues(kind, lines[pos]) {
        lemma_run_len(lines, pos + 1, kind);
    }
}

/// A run of `n` lines that carry on, with a line behind it that does not,
/// is the run that `run_len` counts.
pub proof fn lemma_run_len_is(lines: Seq<Seq<char>>, pos: int, kind: LineKind, n: int)
    requires
        0 <= pos,
        0 <= n,
        pos + n <= lines.len(),
        forall|i: int| pos <= i < pos + n ==> continues(kind, #[trigger] lines[i]),
        pos + n < lines.len() ==> !continues(kind, lines[pos + n]),
    ensures
        run_len(lines, pos, kind) == n,
    decreases n,
{
    if n > 0 {
        lemma_run_len_is(lines, pos + 1, kind, n - 1);
    }
}

/// Every step takes a line at least, and none behind the last.
pub proof fn lemma_span_bound(lines: Seq<Seq<char>>, pos: int)
    requires
        0 <= pos < lines.len(),
    ensures
        1 <= span(lines, pos),
        pos + span(lines, pos) <= lines.len(),
{
    lemma_run_len_bound(lines, pos + 1, LineKind::Bullet);
    lemma_run_len_bound(lines, pos + 1, LineKind::Numbered);
    lemma_run_len_bound(lines, pos + 1, LineKind::CodeStart);
}

/// The scan yields one element for each line at which an element begins, in
/// the order of these lines, and each element is what the step at its line
/// makes. So the number of elements is the number of lines that are neither
/// blank nor taken by the element that began before them.
pub proof fn lemma_one_element_per_start(lines: Seq<Seq<char>>, pos: int)
    ensures
        items_from(lines, pos).len() == starts_from(lines, pos).len(),
        forall|k: int|
            0 <= k < starts_from(lines, pos).len() ==> {
                let at = #[trigger] starts_from(lines, pos)[k];
                &&& pos <= at < lines.len()
                &&& kind_of(lines[at]) != LineKind::Blank
                &&& item_at(lines, at) == Some(items_from(lines, pos)[k])
            },
    decreases lines.len() - pos,
{
    if 0 <= pos < lines.len() {
        lemma_span_bound(lines, pos);
        let next = pos + span(lines, pos);
        lemma_one_element_per_start(lines, next);
        let starts = starts_from(lines, pos);
        let items = items_from(lines, pos);
        assert forall|k: int| 0 <= k < starts.len() implies {
            let at = #[trigger] starts[k];
            &&& pos <= at < lines.len()
            &&& kind_of(lines[at]) != LineKind::Blank
            &&& item_at(lines, at) == Some(items[k])
        } by {
            if kind_of(lines[pos]) == LineKind::Blank {
                assert(starts[k] == starts_from(lines, next)[k]);
            } else if k > 0 {
                assert(starts[k] == starts_from(lines, next)[k - 1]);
                assert(items[k] == items_from(lines, next)[k - 1]);
            }
        }
    }
}

/// Whether `line` carries on what a line of kind `kind` began.
pub fn carries_on(kind: LineKind, line: &[char]) -> (r: bool)
    ensures
        r == continues(kind, line@),
{
    match kind {
        LineKind::Bullet => has_prefix(line, "- "),
        LineKind::Numbered => ordered_list_line(line),
        LineKind::CodeStart => !has_prefix(line, "#+END_SRC"),
        _ => false,
    }
}

/// What `line` adds to what a line of kind `kind` began.
pub fn piece_of(kind: LineKind, line: &[char]) -> (r: String)
    ensures
        r@ == piece(kind, line@),
{
    match kind {
        LineKind::Bullet => text_behind(line, "- "),
        LineKind::Numbered => tail(line),
        _ => {
            proof {
                assert(line@.skip(0) == line@);
            }
            trimmed(line, 0)
        },
    }
}

/// The items of the list that runs from index `pos` on, and the index behind
/// its last line. `kind` says which lines belong to the list.
pub fn list_items(lines: &Vec<Vec<char>>, pos: usize, kind: LineKind) -> (r: (Vec<String>, usize))
    ensures
        r.1 == pos + run_len(view_lines(lines@), pos as int, kind),
        r.0.deep_view() == pieces(
            view_lines(lines@),
            pos as int,
            run_len(view_lines(lines@), pos as int, kind),
            kind,
        ),
{
    let ghost all = view_lines(lines@);
    let mut list: Vec<String> = Vec::new();
    let mut i: usize = pos;
    while i < lines.len() && carries_on(kind, lines[i].as_slice())
        invariant
            all == view_lines(lines@),
            pos <= i,
            pos < lines@.len() ==> i <= lines@.len(),
            pos >= lines@.len() ==> i == pos,
            forall|k: int| pos <= k < i ==> continues(kind, #[trigger] all[k]),
            list.deep_view() == pieces(all, pos as int, (i - pos) as nat, kind),
        decreases lines@.len() - i,
    {
        let ghost before = list.deep_view();
        list.push(piece_of(kind, lines[i].as_slice()));
        proof {
            assert(list.deep_view() =~= before.push(piece(kind, all[i as int])));
        }
        i += 1;
    }
    proof {
        if pos < lines@.len() {
            lemma_run_len_is(all, pos as int, kind, i - pos);
        }
    }
    (list, i)
}

/// The source of the code block whose lines of code begin at index `pos`,
/// and the index behind the block: behind the line that closes it, or behind
/// the last line where none closes it.
pub fn code_source(lines: &Vec<Vec<char>>, pos: usize) -> (r: (String, usize))
    requires
        pos <= lines@.len(),
    ensures
        r.0@ == pieces(
            view_lines(lines@),
            pos as int,
            run_len(view_lines(lines@), pos as int, LineKind::CodeStart),
            LineKind::CodeStart,
        ).flatten(),
        pos + run_len(view_lines(lines@), pos as int, LineKind::CodeStart) < lines@.len() ==> r.1
            == pos + run_len(view_lines(lines@), pos as int, LineKind::CodeStart) + 1,
        pos + run_len(view_lines(lines@), pos as int, LineKind::CodeStart) >= lines@.len() ==> r.1
            == lines@.len(),
{
    let ghost all = view_lines(lines@);
    let kind = LineKind::CodeStart;
    let mut code = String::new();
    let mut i: usize = pos;
    while i < lines.len() && carries_on(kind, lines[i].as_slice())
        invariant
            all == view_lines(lines@),
            kind == LineKind::CodeStart,
            pos <= i <= lines@.len(),
            forall|k: int| pos <= k < i ==> continues(kind, #[trigger] all[k]),
            code@ == pieces(all, pos as int, (i - pos) as nat, kind).flatten(),
        decreases lines@.len() - i,
    {
        let line = lines[i].as_slice();
        let (a, b) = trim_bounds(line, 0);
        let ghost before = pieces(all, pos as int, (i - pos) as nat, kind);
        append_chars(&mut code, line, a, b);
        proof {
            assert(line@.skip(0) == line@);
            assert(pieces(all, pos as int, (i + 1 - pos) as nat, kind) =~= before.push(
                piece(kind, all[i as int]),
            ));
            before.lemma_flatten_push(piece(kind, all[i as int]));
        }
        i += 1;
    }
    proof {
        lemma_run_len_is(all, pos as int, kind, i - pos);
    }
    if i < lines.len() {
        (code, i + 1)
    } else {
        (code, i)
    }
}

} // verus!
