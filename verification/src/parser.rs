//! The tokenizer that names the depth of a heading by its variant.
//!
//! A [`Parser`] holds the lines of one document and a cursor.
//! [`Parser::parse`] walks the lines once and yields the elements of the
//! document in source order. Nothing but a heading knows of a depth here.
use vstd::prelude::*;
use crate::lang::ProgLang;
use crate::line::{
    date_of, kind, language, language_tag, tail, text_behind, title_of, Level, LineKind,
};
use crate::lines::{lines_of, split_lines, view_lines};
use crate::scan::{
    code_len, code_source, code_span, items_from, lemma_one_element_per_start,
    lemma_run_len_bound, lemma_span_bound, list_items, pieces, run_len, starts_from, Item,
};
use crate::text::trimmed;

verus! {

/// A block of source code.
#[derive(Debug, Clone, PartialEq, Eq)]
pub struct CodeBlock {
    pub language: ProgLang,
    pub src: String,
}

/// One element of a document.
#[derive(Debug, Clone, PartialEq, Eq)]
pub enum OrgEle {
    Title(String),
    Date(String),
    UnOrderedList(Vec<String>),
    OrderedList(Vec<String>),
    CodeBlock(CodeBlock),
    H3(String),
    H2(String),
    H1(String),
    Text(String),
}

impl View for OrgEle {
    type V = Item;

    open spec fn view(&self) -> Item {
        match self {
            OrgEle::Title(text) => Item::Title(text@),
            OrgEle::Date(text) => Item::Date(text@),
            OrgEle::UnOrderedList(list) => Item::UnorderedList(list.deep_view()),
            OrgEle::OrderedList(list) => Item::OrderedList(list.deep_view()),
            OrgEle::CodeBlock(code) => Item::CodeBlock(code.language, code.src@),
            OrgEle::H3(text) => Item::Heading(Level::Three, text@),
            OrgEle::H2(text) => Item::Heading(Level::Two, text@),
            OrgEle::H1(text) => Item::Heading(Level::One, text@),
            OrgEle::Text(text) => Item::Text(text@),
        }
    }
}

impl DeepView for OrgEle {
    type V = Item;

    open spec fn deep_view(&self) -> Item {
        self@
    }
}

/// Scanner over the lines of one document.
pub struct Parser {
    lines: Vec<Vec<char>>,
    pos: usize,
}

impl Parser {
    #[verifier::type_invariant]
    spec fn cursor_in_bounds(&self) -> bool {
        self.pos <= self.lines@.len()
    }

    /// The lines of the document.
    pub closed spec fn lines(&self) -> Seq<Seq<char>> {
        view_lines(self.lines@)
    }

    /// Index of the first line that is not consumed yet.
    pub closed spec fn cursor(&self) -> int {
        self.pos as int
    }

    /// The line under the cursor.
    pub open spec fn line(&self) -> Seq<char> {
        self.lines()[self.cursor()]
    }

    /// A parser at the start of the document `contents`.
    pub fn new(contents: &str) -> (r: Self)
        ensures
            r.lines() == split_lines(contents@),
            r.cursor() == 0,
    {
        Self { lines: lines_of(contents), pos: 0 }
    }

    /// Consumes the title line under the cursor.
    fn parse_title(&mut self) -> (r: OrgEle)
        requires
            old(self).cursor() < old(self).lines().len(),
        ensures
            final(self).lines() == old(self).lines(),
            final(self).cursor() == old(self).cursor() + 1,
            r@ == Item::Title(title_of(old(self).line())),
    {
        let title = text_behind(self.lines[self.pos].as_slice(), "#+TITLE:");
        assert(self.pos < self.lines.len());
        self.pos += 1;
        OrgEle::Title(title)
    }

    /// Consumes the date line under the cursor.
    fn parse_date(&mut self) -> (r: OrgEle)
        requires
            old(self).cursor() < old(self).lines().len(),
        ensures
            final(self).lines() == old(self).lines(),
            final(self).cursor() == old(self).cursor() + 1,
            r@ == Item::Date(date_of(old(self).line())),
    {
        let date = text_behind(self.lines[self.pos].as_slice(), "#+DATE:");
        assert(self.pos < self.lines.len());
        self.pos += 1;
        OrgEle::Date(date)
    }

    /// Consumes the run of bullet lines that begins under the cursor.
    fn parse_unordered_list(&mut self) -> (r: OrgEle)
        ensures
            final(self).lines() == old(self).lines(),
            final(self).cursor() == old(self).cursor() + run_len(
                old(self).lines(),
                old(self).cursor(),
                LineKind::Bullet,
            ),
            r@ == Item::UnorderedList(
                pieces(
                    old(self).lines(),
                    old(self).cursor(),
                    run_len(old(self).lines(), old(self).cursor(), LineKind::Bullet),
                    LineKind::Bullet,
                ),
            ),
    {
        let (list, end) = list_items(&self.lines, self.pos, LineKind::Bullet);
        proof {
            use_type_invariant(&*self);
            lemma_run_len_bound(self.lines(), self.cursor(), LineKind::Bullet);
        }
        self.pos = end;
        OrgEle::UnOrderedList(list)
    }

    /// Consumes the run of numbered lines that begins under the cursor.
    fn parse_ordered_list(&mut self) -> (r: OrgEle)
        ensures
            final(self).lines() == old(self).lines(),
            final(self).cursor() == old(self).cursor() + run_len(
                old(self).lines(),
                old(self).cursor(),
                LineKind::Numbered,
            ),
            r@ == Item::OrderedList(
                pieces(
                    old(self).lines(),
                    old(self).cursor(),
                    run_len(old(self).lines(), old(self).cursor(), LineKind::Numbered),
                    LineKind::Numbered,
                ),
            ),
    {
        let (list, end) = list_items(&self.lines, self.pos, LineKind::Numbered);
        proof {
            use_type_invariant(&*self);
            lemma_run_len_bound(self.lines(), self.cursor(), LineKind::Numbered);
        }
        self.pos = end;
        OrgEle::OrderedList(list)
    }

    /// Consumes the code block that opens under the cursor.
    fn parse_code_block(&mut self) -> (r: OrgEle)
        requires
            old(self).cursor() < old(self).lines().len(),
        ensures
            final(self).lines() == old(self).lines(),
            final(self).cursor() == old(self).cursor() + code_span(
                old(self).lines(),
                old(self).cursor(),
            ),
            r@ == Item::CodeBlock(
                language_tag(old(self).line()),
                pieces(
                    old(self).lines(),
                    old(self).cursor() + 1,
                    code_len(old(self).lines(), old(self).cursor()),
                    LineKind::CodeStart,
                ).flatten(),
            ),
    {
        let lang = language(self.lines[self.pos].as_slice());
        assert(self.pos < self.lines.len());
        let (code, end) = code_source(&self.lines, self.pos + 1);
        proof {
            lemma_run_len_bound(self.lines(), self.cursor() + 1, LineKind::CodeStart);
        }
        self.pos = end;
        OrgEle::CodeBlock(CodeBlock { language: lang, src: code })
    }

    /// Consumes all lines from the cursor on and returns their elements, in
    /// source order.
    pub fn parse(&mut self) -> (elements: Vec<OrgEle>)
        ensures
            elements.deep_view() == items_from(old(self).lines(), old(self).cursor()),
            elements@.len() == starts_from(old(self).lines(), old(self).cursor()).len(),
            final(self).lines() == old(self).lines(),
            final(self).cursor() == old(self).lines().len(),
    {
        let ghost all = self.lines();
        let ghost whole = items_from(all, self.cursor());
        let mut elements: Vec<OrgEle> = Vec::new();
        proof {
            use_type_invariant(&*self);
            lemma_one_element_per_start(all, self.cursor());
        }
        while self.pos < self.lines.len()
            invariant
                self.lines() == all,
                0 <= self.cursor() <= all.len(),
                whole == elements.deep_view() + items_from(all, self.cursor()),
            decreases all.len() - self.cursor(),
        {
            let ghost pos = self.cursor();
            proof {
                lemma_span_bound(all, pos);
            }
            let found = match kind(self.lines[self.pos].as_slice()) {
                LineKind::Title => Some(self.parse_title()),
                LineKind::Date => Some(self.parse_date()),
                LineKind::Bullet => Some(self.parse_unordered_list()),
                LineKind::Numbered => Some(self.parse_ordered_list()),
                LineKind::CodeStart => Some(self.parse_code_block()),
                LineKind::Heading(depth) => {
                    let title = tail(self.lines[self.pos].as_slice());
                    self.pos += 1;
                    match depth {
                        Level::Three => Some(OrgEle::H3(title)),
                        Level::Two => Some(OrgEle::H2(title)),
                        Level::One => Some(OrgEle::H1(title)),
                    }
                },
                LineKind::Text => {
                    let text = trimmed(self.lines[self.pos].as_slice(), 0);
                    proof {
                        assert(self.lines@[pos]@.skip(0) == self.lines@[pos]@);
                    }
                    self.pos += 1;
                    Some(OrgEle::Text(text))
                },
                LineKind::Blank => {
                    self.pos += 1;
                    None
                },
            };
            if let Some(element) = found {
                elements.push(element);
            }
        }
        elements
    }
}

} // verus!
