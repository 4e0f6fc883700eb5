//! The tokenizer that threads the depth of headings through its output.
//!
//! A [`Lexer`] holds the lines of one document, a cursor and the depth of the
//! heading seen last. [`Lexer::lex`] walks the lines once and yields the
//! elements of the document in source order, each with the depth in force
//! where it stands: the depth of the nearest heading above it, or the first
//! depth where no heading stands above it. A heading carries its own depth.
use vstd::prelude::*;
use crate::lang::ProgLang;
use crate::line::{
    date_of, kind, language, language_tag, tail, tail_of, text_behind, title_of, Level, LineKind,
};
use crate::lines::{lines_of, split_lines, view_lines};
use crate::scan::{
    code_len, code_source, code_span, item_at, items, items_from, lemma_one_element_per_start,
    lemma_run_len_bound, lemma_span_bound, list_items, pieces, run_len, span, starts_from, Item,
};
use crate::text::trimmed;

verus! {

/// A block of source code.
#[derive(Debug, Clone, PartialEq, Eq)]
pub struct CodeBlock {
    pub language: ProgLang,
    pub src: String,
    pub level: Level,
}

/// One line of text, with the depth it stands at.
#[derive(Debug, Clone, PartialEq, Eq)]
pub struct OrgData {
    pub level: Level,
    pub data: String,
}

/// The items of one list, with the depth it stands at.
#[derive(Debug, Clone, PartialEq, Eq)]
pub struct OrgList {
    pub level: Level,
    pub data: Vec<String>,
}

/// One element of a document.
#[derive(Debug, Clone, PartialEq, Eq)]
pub enum OrgEle {
    Title(OrgData),
    Date(OrgData),
    UnOrderedList(OrgList),
    OrderedList(OrgList),
    CodeBlock(CodeBlock),
    Headline(OrgData),
    Text(OrgData),
}

/// What an [`OrgEle`] stands for: an item and the depth it stands at.
pub struct Element {
    pub item: Item,
    pub level: Level,
}

impl View for OrgEle {
    type V = Element;

    open spec fn view(&self) -> Element {
        match self {
            OrgEle::Title(d) => Element { item: Item::Title(d.data@), level: d.level },
            OrgEle::Date(d) => Element { item: Item::Date(d.data@), level: d.level },
            OrgEle::UnOrderedList(l) => Element {
                item: Item::UnorderedList(l.data.deep_view()),
                level: l.level,
            },
            OrgEle::OrderedList(l) => Element {
                item: Item::OrderedList(l.data.deep_view()),
                level: l.level,
            },
            OrgEle::CodeBlock(c) => Element {
                item: Item::CodeBlock(c.language, c.src@),
                level: c.level,
            },
            OrgEle::Headline(d) => Element { item: Item::Heading(d.level, d.data@), level: d.level },
            OrgEle::Text(d) => Element { item: Item::Text(d.data@), level: d.level },
        }
    }
}

impl DeepView for OrgEle {
    type V = Element;

    open spec fn deep_view(&self) -> Element {
        self@
    }
}

/// The depth in force behind `item`: a heading sets it, nothing else does.
pub open spec fn level_after(level: Level, item: Item) -> Level {
    match item {
        Item::Heading(depth, _) => depth,
        _ => level,
    }
}

/// `items`, each with the depth in force where it stands, when `level` is
/// in force before the first of them.
pub open spec fn leveled(items: Seq<Item>, level: Level) -> Seq<Element>
    decreases items.len(),
{
    if items.len() == 0 {
        Seq::empty()
    } else {
        let next = level_after(level, items[0]);
        seq![Element { item: items[0], level: next }] + leveled(items.drop_first(), next)
    }
}

/// The depth in force behind the last of `items`, when `level` is in force
/// before the first of them.
pub open spec fn last_level(items: Seq<Item>, level: Level) -> Level
    decreases items.len(),
{
    if items.len() == 0 {
        level
    } else {
        last_level(items.drop_first(), level_after(level, items[0]))
    }
}

/// The elements of the document `text`.
pub open spec fn elements_of(text: Seq<char>) -> Seq<Element> {
    leveled(items(split_lines(text)), Level::One)
}

/// [`leveled`] and [`last_level`] with one item in front.
pub proof fn lemma_leveled_step(item: Item, rest: Seq<Item>, level: Level)
    ensures
        leveled(seq![item] + rest, level) == seq![
            Element { item, level: level_after(level, item) },
        ] + leveled(rest, level_after(level, item)),
        last_level(seq![item] + rest, level) == last_level(rest, level_after(level, item)),
{
    let all = seq![item] + rest;
    assert(all.drop_first() =~= rest);
}

/// Giving items their depth neither adds, drops nor changes an item.
pub proof fn lemma_leveled_keeps_items(items: Seq<Item>, level: Level)
    ensures
        leveled(items, level).len() == items.len(),
        forall|k: int| 0 <= k < items.len() ==> (#[trigger] leveled(items, level)[k]).item == items[k],
    decreases items.len(),
{
    if items.len() > 0 {
        let next = level_after(level, items[0]);
        let rest = items.drop_first();
        lemma_leveled_keeps_items(rest, next);
        assert forall|k: int| 0 <= k < items.len() implies (#[trigger] leveled(
            items,
            level,
        )[k]).item == items[k] by {
            if k > 0 {
                assert(leveled(items, level)[k] == leveled(rest, next)[k - 1]);
                assert(rest[k - 1] == items[k]);
            }
        }
    }
}

/// Scanner over the lines of one document.
pub struct Lexer {
    lines: Vec<Vec<char>>,
    pos: usize,
    level: Level,
}

impl Lexer {
    #[verifier::type_invariant]
    spec fn cursor_in_bounds(&self) -> bool {
        self.pos <= self.lines@.len()
    }

    /// The lines of the document.
    pub closed spec fn lines(&self) -> Seq<Seq<char>> {
        view_lines(self.lines@)
    }

    /// Index of the first line that is not consumed yet.
    pub closed spec fn cursor(&self) -> int {
        self.pos as int
    }

    /// The depth in force at the cursor.
    pub closed spec fn level(&self) -> Level {
        self.level
    }

    /// The line under the cursor.
    pub open spec fn line(&self) -> Seq<char> {
        self.lines()[self.cursor()]
    }

    /// A lexer at the start of the document `contents`, with the first depth
    /// in force.
    pub fn new(contents: &str) -> (r: Self)
        ensures
            r.lines() == split_lines(contents@),
            r.cursor() == 0,
            r.level() == Level::One,
    {
        Self { lines: lines_of(contents), pos: 0, level: Level::One }
    }

    /// Consumes the title line under the cursor.
    fn lex_title(&mut self) -> (r: OrgEle)
        requires
            old(self).cursor() < old(self).lines().len(),
        ensures
            final(self).lines() == old(self).lines(),
            final(self).level() == old(self).level(),
            final(self).cursor() == old(self).cursor() + 1,
            r@ == (Element { item: Item::Title(title_of(old(self).line())), level: old(self).level() }),
    {
        let title = text_behind(self.lines[self.pos].as_slice(), "#+TITLE:");
        assert(self.pos < self.lines.len());
        self.pos += 1;
        OrgEle::Title(OrgData { data: title, level: self.level })
    }

    /// Consumes the date line under the cursor.
    fn lex_date(&mut self) -> (r: OrgEle)
        requires
            old(self).cursor() < old(self).lines().len(),
        ensures
            final(self).lines() == old(self).lines(),
            final(self).level() == old(self).level(),
            final(self).cursor() == old(self).cursor() + 1,
            r@ == (Element { item: Item::Date(date_of(old(self).line())), level: old(self).level() }),
    {
        let date = text_behind(self.lines[self.pos].as_slice(), "#+DATE:");
        assert(self.pos < self.lines.len());
        self.pos += 1;
        OrgEle::Date(OrgData { data: date, level: self.level })
    }

    /// Consumes the run of bullet lines that begins under the cursor.
    fn lex_unordered_list(&mut self) -> (r: OrgEle)
        ensures
            final(self).lines() == old(self).lines(),
            final(self).level() == old(self).level(),
            final(self).cursor() == old(self).cursor() + run_len(
                old(self).lines(),
                old(self).cursor(),
                LineKind::Bullet,
            ),
            r@ == (Element {
                item: Item::UnorderedList(
                    pieces(
                        old(self).lines(),
                        old(self).cursor(),
                        run_len(old(self).lines(), old(self).cursor(), LineKind::Bullet),
                        LineKind::Bullet,
                    ),
                ),
                level: old(self).level(),
            }),
    {
        let (list, end) = list_items(&self.lines, self.pos, LineKind::Bullet);
        proof {
            use_type_invariant(&*self);
            lemma_run_len_bound(self.lines(), self.cursor(), LineKind::Bullet);
        }
        self.pos = end;
        OrgEle::UnOrderedList(OrgList { data: list, level: self.level })
    }

    /// Consumes the run of numbered lines that begins under the cursor.
    fn lex_ordered_list(&mut self) -> (r: OrgEle)
        ensures
            final(self).lines() == old(self).lines(),
            final(self).level() == old(self).level(),
            final(self).cursor() == old(self).cursor() + run_len(
                old(self).lines(),
                old(self).cursor(),
                LineKind::Numbered,
            ),
            r@ == (Element {
                item: Item::OrderedList(
                    pieces(
                        old(self).lines(),
                        old(self).cursor(),
                        run_len(old(self).lines(), old(self).cursor(), LineKind::Numbered),
                        LineKind::Numbered,
                    ),
                ),
                level: old(self).level(),
            }),
    {
        let (list, end) = list_items(&self.lines, self.pos, LineKind::Numbered);
        proof {
            use_type_invariant(&*self);
            lemma_run_len_bound(self.lines(), self.cursor(), LineKind::Numbered);
        }
        self.pos = end;
        OrgEle::OrderedList(OrgList { data: list, level: self.level })
    }

    /// Consumes the code block that opens under the cursor.
    fn lex_code_block(&mut self) -> (r: OrgEle)
        requires
            old(self).cursor() < old(self).lines().len(),
        ensures
            final(self).lines() == old(self).lines(),
            final(self).level() == old(self).level(),
            final(self).cursor() == old(self).cursor() + code_span(
                old(self).lines(),
                old(self).cursor(),
            ),
            r@ == (Element {
                item: Item::CodeBlock(
                    language_tag(old(self).line()),
                    pieces(
                        old(self).lines(),
                        old(self).cursor() + 1,
                        code_len(old(self).lines(), old(self).cursor()),
                        LineKind::CodeStart,
                    ).flatten(),
                ),
                level: old(self).level(),
            }),
    {
        let lang = language(self.lines[self.pos].as_slice());
        assert(self.pos < self.lines.len());
        let (code, end) = code_source(&self.lines, self.pos + 1);
        proof {
            lemma_run_len_bound(self.lines(), self.cursor() + 1, LineKind::CodeStart);
        }
        self.pos = end;
        OrgEle::CodeBlock(CodeBlock { language: lang, src: code, level: self.level })
    }

    /// Consumes the heading line under the cursor and returns its text.
    fn lex_heading(&mut self) -> (r: String)
        requires
            old(self).cursor() < old(self).lines().len(),
        ensures
            final(self).lines() == old(self).lines(),
            final(self).level() == old(self).level(),
            final(self).cursor() == old(self).cursor() + 1,
            r@ == tail_of(old(self).line()),
    {
        let title = tail(self.lines[self.pos].as_slice());
        assert(self.pos < self.lines.len());
        self.pos += 1;
        title
    }

    /// Consumes all lines from the cursor on and returns their elements, in
    /// source order.
    pub fn lex(&mut self) -> (elements: Vec<OrgEle>)
        ensures
            elements.deep_view() == leveled(
                items_from(old(self).lines(), old(self).cursor()),
                old(self).level(),
            ),
            elements@.len() == starts_from(old(self).lines(), old(self).cursor()).len(),
            final(self).lines() == old(self).lines(),
            final(self).cursor() == old(self).lines().len(),
            final(self).level() == last_level(
                items_from(old(self).lines(), old(self).cursor()),
                old(self).level(),
            ),
    {
        let ghost all = self.lines();
        let ghost whole = items_from(all, self.cursor());
        let ghost start = self.level();
        let mut elements: Vec<OrgEle> = Vec::new();
        proof {
            use_type_invariant(&*self);
            lemma_one_element_per_start(all, self.cursor());
            lemma_leveled_keeps_items(whole, start);
        }
        while self.pos < self.lines.len()
            invariant
                self.lines() == all,
                0 <= self.cursor() <= all.len(),
                leveled(whole, start) == elements.deep_view() + leveled(
                    items_from(all, self.cursor()),
                    self.level(),
                ),
                last_level(whole, start) == last_level(
                    items_from(all, self.cursor()),
                    self.level(),
                ),
            decreases all.len() - self.cursor(),
        {
            let ghost pos = self.cursor();
            let ghost level = self.level();
            let ghost rest = items_from(all, pos + span(all, pos));
            proof {
                lemma_span_bound(all, pos);
            }
            let found = match kind(self.lines[self.pos].as_slice()) {
                LineKind::Title => Some(self.lex_title()),
                LineKind::Date => Some(self.lex_date()),
                LineKind::Bullet => Some(self.lex_unordered_list()),
                LineKind::Numbered => Some(self.lex_ordered_list()),
                LineKind::CodeStart => Some(self.lex_code_block()),
                LineKind::Heading(depth) => {
                    self.level = depth;
                    let data = self.lex_heading();
                    Some(OrgEle::Headline(OrgData { data, level: self.level }))
                },
                LineKind::Text => {
                    let text = trimmed(self.lines[self.pos].as_slice(), 0);
                    proof {
                        assert(self.lines@[pos]@.skip(0) == self.lines@[pos]@);
                    }
                    self.pos += 1;
                    Some(OrgEle::Text(OrgData { data: text, level: self.level }))
                },
                LineKind::Blank => {
                    self.pos += 1;
                    None
                },
            };
            if let Some(element) = found {
                proof {
                    lemma_leveled_step(item_at(all, pos)->0, rest, level);
                }
                elements.push(element);
            }
        }
        elements
    }
}

} // verus!
