use orgp::lang::ProgLang;
use orgp::lexer::Lexer;
use orgp::parser::{CodeBlock, OrgEle, Parser};

fn parse(text: &str) -> Vec<OrgEle> {
    Parser::new(text).parse()
}

fn strings(items: &[&str]) -> Vec<String> {
    items.iter().map(|s| s.to_string()).collect()
}

#[test]
fn parser_names_the_depth_by_the_variant() {
    let elements = parse("* A\n** B\n*** C\ntext");
    assert_eq!(
        elements,
        vec![
            OrgEle::H1("A".to_string()),
            OrgEle::H2("B".to_string()),
            OrgEle::H3("C".to_string()),
            OrgEle::Text("text".to_string()),
        ]
    );
}

#[test]
fn parser_reads_every_kind_of_element() {
    let text = "#+TITLE: T \n#+DATE: D\n- a\n- b\n\n1. x\n#+BEGIN_SRC RUST\n let a;\n#+END_SRC\nlast";
    assert_eq!(
        parse(text),
        vec![
            OrgEle::Title("T".to_string()),
            OrgEle::Date("D".to_string()),
            OrgEle::UnOrderedList(strings(&["a", "b"])),
            OrgEle::OrderedList(strings(&["x"])),
            OrgEle::CodeBlock(CodeBlock { language: ProgLang::Rust, src: "let a;".to_string() }),
            OrgEle::Text("last".to_string()),
        ]
    );
}

#[test]
fn parser_closes_an_open_code_block_at_the_end() {
    assert_eq!(
        parse("#+BEGIN_SRC\na\nb"),
        vec![OrgEle::CodeBlock(CodeBlock { language: ProgLang::Unknown, src: "ab".to_string() })]
    );
    assert_eq!(parse(""), vec![]);
}

#[test]
fn parser_and_lexer_find_the_same_elements() {
    let text = "#+TITLE: T\n* A\n- a\n\n- b\n** B\n1. x\n#+BEGIN_SRC c\ny\n#+END_SRC\n*** C\nz";
    assert_eq!(parse(text).len(), Lexer::new(text).lex().len());
}
