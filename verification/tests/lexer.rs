use orgp::lang::ProgLang;
use orgp::lexer::{CodeBlock, Lexer, OrgData, OrgEle, OrgList};
use orgp::line::{is_ordered_list, Level};

fn lex(text: &str) -> Vec<OrgEle> {
    Lexer::new(text).lex()
}

fn data(level: Level, text: &str) -> OrgData {
    OrgData { level, data: text.to_string() }
}

fn list(level: Level, items: &[&str]) -> OrgList {
    OrgList { level, data: items.iter().map(|s| s.to_string()).collect() }
}

#[test]
fn test_is_ordered_list() {
    assert!(is_ordered_list("1. "));
    assert!(is_ordered_list("10. "));
    assert!(is_ordered_list("100. "));
    assert!(!is_ordered_list("1."));
    assert!(!is_ordered_list("10 "));
    assert!(!is_ordered_list(". "));
    assert!(!is_ordered_list("1 "));
    assert!(!is_ordered_list("test str"));
}

#[test]
fn ordered_list_needs_the_space_at_the_first_other_character() {
    assert!(!is_ordered_list("10  "));
    assert!(!is_ordered_list("abc"));
    assert!(!is_ordered_list(""));
    assert!(!is_ordered_list("1.."));
    assert!(!is_ordered_list(".1 "));
    assert!(!is_ordered_list(" 1. "));
    assert!(!is_ordered_list("1.x "));
    assert!(is_ordered_list("1. item"));
    assert!(is_ordered_list("1.2 item"));
    assert!(is_ordered_list("1.2. item"));
}

#[test]
fn empty_document_has_no_elements() {
    assert_eq!(lex(""), vec![]);
    assert_eq!(lex("\n\n   \n\t\n"), vec![]);
}

#[test]
fn heading_level_reaches_the_text_below() {
    let elements = lex("* A\nsome text\n** B\nmore text");
    assert_eq!(
        elements,
        vec![
            OrgEle::Headline(data(Level::One, "A")),
            OrgEle::Text(data(Level::One, "some text")),
            OrgEle::Headline(data(Level::Two, "B")),
            OrgEle::Text(data(Level::Two, "more text")),
        ]
    );
}

#[test]
fn level_is_the_first_before_any_heading() {
    let elements = lex("intro\n- a\n*** Deep\n- b\n* Top\n1. c");
    assert_eq!(
        elements,
        vec![
            OrgEle::Text(data(Level::One, "intro")),
            OrgEle::UnOrderedList(list(Level::One, &["a"])),
            OrgEle::Headline(data(Level::Three, "Deep")),
            OrgEle::UnOrderedList(list(Level::Three, &["b"])),
            OrgEle::Headline(data(Level::One, "Top")),
            OrgEle::OrderedList(list(Level::One, &["c"])),
        ]
    );
}

#[test]
fn blank_line_ends_a_list() {
    let elements = lex("- a\n- b\n\n- c");
    assert_eq!(
        elements,
        vec![
            OrgEle::UnOrderedList(list(Level::One, &["a", "b"])),
            OrgEle::UnOrderedList(list(Level::One, &["c"])),
        ]
    );
}

#[test]
fn lists_of_two_kinds_do_not_merge() {
    let elements = lex("- a\n1. b\n2. c\n- d\ntext\n- e");
    assert_eq!(
        elements,
        vec![
            OrgEle::UnOrderedList(list(Level::One, &["a"])),
            OrgEle::OrderedList(list(Level::One, &["b", "c"])),
            OrgEle::UnOrderedList(list(Level::One, &["d"])),
            OrgEle::Text(data(Level::One, "text")),
            OrgEle::UnOrderedList(list(Level::One, &["e"])),
        ]
    );
}

#[test]
fn list_items_are_trimmed() {
    let elements = lex("-   spaced out  \n10.   ten  \n1.2 sub item");
    assert_eq!(
        elements,
        vec![
            OrgEle::UnOrderedList(list(Level::One, &["spaced out"])),
            OrgEle::OrderedList(list(Level::One, &["ten", "sub item"])),
        ]
    );
}

#[test]
fn code_block_keeps_its_source_without_the_fences() {
    let elements = lex("#+BEGIN_SRC rust\nfn main() {}\n#+END_SRC");
    assert_eq!(
        elements,
        vec![OrgEle::CodeBlock(CodeBlock {
            language: ProgLang::Rust,
            src: "fn main() {}".to_string(),
            level: Level::One,
        })]
    );
}

#[test]
fn code_lines_are_trimmed_and_joined_without_separator() {
    let elements = lex("** H\n#+BEGIN_SRC Python\n  a = 1  \n\n- b\n* c\n#+END_SRC after\ntext");
    assert_eq!(
        elements,
        vec![
            OrgEle::Headline(data(Level::Two, "H")),
            OrgEle::CodeBlock(CodeBlock {
                language: ProgLang::Python,
                src: "a = 1- b* c".to_string(),
                level: Level::Two,
            }),
            OrgEle::Text(data(Level::Two, "text")),
        ]
    );
}

#[test]
fn end_of_input_closes_an_open_code_block() {
    let elements = lex("#+BEGIN_SRC c\nint x;\nint y;");
    assert_eq!(
        elements,
        vec![OrgEle::CodeBlock(CodeBlock {
            language: ProgLang::C,
            src: "int x;int y;".to_string(),
            level: Level::One,
        })]
    );
    let alone = lex("#+BEGIN_SRC java");
    assert_eq!(
        alone,
        vec![OrgEle::CodeBlock(CodeBlock {
            language: ProgLang::Java,
            src: String::new(),
            level: Level::One,
        })]
    );
}

#[test]
fn code_block_without_a_tag_is_unknown() {
    let expected = vec![OrgEle::CodeBlock(CodeBlock {
        language: ProgLang::Unknown,
        src: "x".to_string(),
        level: Level::One,
    })];
    assert_eq!(lex("#+BEGIN_SRC\nx\n#+END_SRC"), expected);
    assert_eq!(lex("#+BEGIN_SRC \nx\n#+END_SRC"), expected);
    assert_eq!(lex("#+BEGIN_SRCrust\nx\n#+END_SRC"), expected);
    assert_eq!(lex("#+BEGIN_SRC rust :tangle yes\nx\n#+END_SRC"), expected);
    assert_eq!(lex("#+BEGIN_SRC haskell\nx\n#+END_SRC"), expected);
}

#[test]
fn title_and_date_are_trimmed() {
    assert_eq!(lex("#+TITLE: My Doc  "), vec![OrgEle::Title(data(Level::One, "My Doc"))]);
    assert_eq!(lex("#+DATE:2024-01-01"), vec![OrgEle::Date(data(Level::One, "2024-01-01"))]);
}

#[test]
fn title_and_date_may_be_empty() {
    assert_eq!(lex("#+TITLE:"), vec![OrgEle::Title(data(Level::One, ""))]);
    assert_eq!(lex("#+DATE:   "), vec![OrgEle::Date(data(Level::One, ""))]);
}

#[test]
fn three_asterisks_are_a_heading_of_depth_three() {
    let elements = lex("*** Deep\nbelow");
    assert_eq!(
        elements,
        vec![
            OrgEle::Headline(data(Level::Three, "Deep")),
            OrgEle::Text(data(Level::Three, "below")),
        ]
    );
}

#[test]
fn asterisks_without_a_space_are_text() {
    let elements = lex("**** four\n*bold*\n**\n*");
    assert_eq!(
        elements,
        vec![
            OrgEle::Text(data(Level::One, "**** four")),
            OrgEle::Text(data(Level::One, "*bold*")),
            OrgEle::Text(data(Level::One, "**")),
            OrgEle::Text(data(Level::One, "*")),
        ]
    );
}

#[test]
fn first_rule_that_matches_decides() {
    let elements = lex("#+TITLE: - not a list\n- #+TITLE: not a title\n  - indented\n#+title: lower");
    assert_eq!(
        elements,
        vec![
            OrgEle::Title(data(Level::One, "- not a list")),
            OrgEle::UnOrderedList(list(Level::One, &["#+TITLE: not a title"])),
            OrgEle::Text(data(Level::One, "- indented")),
            OrgEle::Text(data(Level::One, "#+title: lower")),
        ]
    );
}

#[test]
fn one_element_for_each_line_that_starts_one() {
    let text = "#+TITLE: T\n\n* A\n- a\n- b\ntext\n\n1. x\n2. y\n#+BEGIN_SRC cpp\n1\n\n2\n#+END_SRC\n\n  \nend";
    let elements = lex(text);
    // title, heading, list, text, list, code block, text
    assert_eq!(elements.len(), 7);
    for element in &elements {
        if let OrgEle::Text(d) = element {
            assert!(!d.data.is_empty());
        }
    }
}

#[test]
fn lexing_twice_yields_nothing_more() {
    let mut lexer = Lexer::new("* A\ntext");
    assert_eq!(lexer.lex().len(), 2);
    assert_eq!(lexer.lex(), vec![]);
}

#[test]
fn characters_outside_ascii_are_kept_whole() {
    let elements = lex("* Überschrift\n- naïve café\n\u{3000}日本語\u{a0}\n1. ∑ x");
    assert_eq!(
        elements,
        vec![
            OrgEle::Headline(data(Level::One, "Überschrift")),
            OrgEle::UnOrderedList(list(Level::One, &["naïve café"])),
            OrgEle::Text(data(Level::One, "日本語")),
            OrgEle::OrderedList(list(Level::One, &["∑ x"])),
        ]
    );
}

#[test]
fn carriage_returns_before_line_feeds_are_dropped() {
    let elements = lex("* A\r\n- a\r\n- b\r\n#+BEGIN_SRC rust\r\nx\r\n#+END_SRC\r\n");
    assert_eq!(
        elements,
        vec![
            OrgEle::Headline(data(Level::One, "A")),
            OrgEle::UnOrderedList(list(Level::One, &["a", "b"])),
            OrgEle::CodeBlock(CodeBlock {
                language: ProgLang::Rust,
                src: "x".to_string(),
                level: Level::One,
            }),
        ]
    );
}

#[test]
fn code_source_holds_no_line_feed() {
    let elements = lex("#+BEGIN_SRC rust\nfn main() {\r\n    body();\n}\n\n#+END_SRC\n");
    assert_eq!(elements.len(), 1);
    match &elements[0] {
        OrgEle::CodeBlock(code) => {
            assert_eq!(code.src, "fn main() {body();}");
            assert!(!code.src.contains('\n'));
        }
        other => panic!("not a code block: {:?}", other),
    }
}

#[test]
fn numbered_item_is_what_follows_the_numbering() {
    let elements = lex("1. first item\n2.3 second  item \n10. 3. third");
    assert_eq!(
        elements,
        vec![OrgEle::OrderedList(list(Level::One, &["first item", "second  item", "3. third"]))]
    );
}

#[test]
fn a_later_heading_changes_nothing_before_it() {
    let before = lex("* A\ntext\n- a");
    let longer = lex("* A\ntext\n- a\n*** B\nmore");
    assert_eq!(&longer[..3], &before[..]);
    assert_eq!(longer[4], OrgEle::Text(data(Level::Three, "more")));
}
