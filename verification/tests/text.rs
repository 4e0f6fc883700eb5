use orgp::lang::{classify, lower, ProgLang};
use orgp::line::{has_prefix, kind, strip_prefix, tail, text_behind, Level, LineKind};
use orgp::lines::lines_of;
use orgp::scan::{code_source, list_items};
use orgp::text::{append_chars, chars_of, digit, skip_first_space, string_of, trim_bounds, trimmed, whitespace};

fn chars(s: &str) -> Vec<char> {
    s.chars().collect()
}

fn lines(text: &str) -> Vec<String> {
    lines_of(text).iter().map(|l| l.iter().collect()).collect()
}

#[test]
fn whitespace_is_what_unicode_calls_white_space() {
    for code in 0..=0x10ffffu32 {
        if let Some(c) = char::from_u32(code) {
            assert_eq!(whitespace(c), c.is_whitespace(), "U+{:04X}", code);
        }
    }
}

#[test]
fn digit_is_ascii_digit() {
    for code in 0..=0x10ffffu32 {
        if let Some(c) = char::from_u32(code) {
            assert_eq!(digit(c), c.is_ascii_digit(), "U+{:04X}", code);
        }
    }
}

#[test]
fn lower_changes_ascii_capitals_only() {
    for code in 0..=0x10ffffu32 {
        if let Some(c) = char::from_u32(code) {
            assert_eq!(lower(c), c.to_ascii_lowercase(), "U+{:04X}", code);
        }
    }
}

#[test]
fn no_character_outside_ascii_lowers_to_a_letter_of_a_tag() {
    let letters = "rustpythoncjava";
    for code in 0x80..=0x10ffffu32 {
        if let Some(c) = char::from_u32(code) {
            let low: String = c.to_lowercase().collect();
            assert!(!low.chars().all(|l| letters.contains(l)), "U+{:04X}", code);
        }
    }
}

#[test]
fn tags_match_whatever_the_case() {
    let cases = [
        ("rust", ProgLang::Rust),
        ("Rust", ProgLang::Rust),
        ("RUST", ProgLang::Rust),
        ("rUsT", ProgLang::Rust),
        ("python", ProgLang::Python),
        ("PYTHON", ProgLang::Python),
        ("cpp", ProgLang::Cpp),
        ("Cpp", ProgLang::Cpp),
        ("c", ProgLang::C),
        ("C", ProgLang::C),
        ("java", ProgLang::Java),
        ("JAVA", ProgLang::Java),
        ("", ProgLang::Unknown),
        ("rus", ProgLang::Unknown),
        ("rustc", ProgLang::Unknown),
        (" rust", ProgLang::Unknown),
        ("c++", ProgLang::Unknown),
        ("javascript", ProgLang::Unknown),
        ("go", ProgLang::Unknown),
    ];
    for (text, expected) in cases {
        assert_eq!(ProgLang::from(text), expected, "{:?}", text);
        let same: &str = &text.to_lowercase();
        let by_std = match same {
            "rust" => ProgLang::Rust,
            "python" => ProgLang::Python,
            "cpp" => ProgLang::Cpp,
            "c" => ProgLang::C,
            "java" => ProgLang::Java,
            _ => ProgLang::Unknown,
        };
        assert_eq!(ProgLang::from(text), by_std, "{:?}", text);
    }
}

#[test]
fn classify_looks_at_the_given_range_only() {
    let token = chars("xxRustyy");
    assert_eq!(classify(&token, 2, 6), ProgLang::Rust);
    assert_eq!(classify(&token, 2, 7), ProgLang::Unknown);
    assert_eq!(classify(&token, 3, 3), ProgLang::Unknown);
}

#[test]
fn chars_and_strings_convert_both_ways() {
    assert_eq!(chars_of("a∑c"), vec!['a', '∑', 'c']);
    assert_eq!(chars_of(""), Vec::<char>::new());
    let line = chars("héllo wörld");
    assert_eq!(string_of(&line, 0, line.len()), "héllo wörld");
    assert_eq!(string_of(&line, 6, 11), "wörld");
    assert_eq!(string_of(&line, 3, 3), "");
    let mut out = String::from("ab");
    append_chars(&mut out, &line, 1, 4);
    assert_eq!(out, "abéll");
}

#[test]
fn trimmed_is_what_std_trims() {
    let samples = [
        "",
        " ",
        "a",
        "  a  ",
        "\t a b \r",
        "\u{a0}x\u{2003}",
        "\u{3000}\u{3000}",
        "no-space",
        " \u{200b} ",
        "\u{85}y\u{1680}",
        "  multiple   inner   spaces ",
    ];
    for sample in samples {
        let line = chars(sample);
        assert_eq!(trimmed(&line, 0), sample.trim(), "{:?}", sample);
        let (a, b) = trim_bounds(&line, 0);
        assert_eq!(b - a, sample.trim().chars().count(), "{:?}", sample);
    }
    let line = chars("key:  value  ");
    assert_eq!(trimmed(&line, 4), "value");
    assert_eq!(trimmed(&line, line.len()), "");
    assert_eq!(trim_bounds(&line, 4), (6, 11));
}

#[test]
fn lines_are_what_std_splits() {
    let samples = [
        "",
        "\n",
        "\n\n",
        "a",
        "a\n",
        "a\nb",
        "a\n\nb\n",
        "a\r\nb\r\n",
        "a\rb",
        "a\r",
        "a\r\n\r\n",
        "\r\n",
        "\r",
        "a\r\r\nb",
        "foo\r\nbar\n\nbaz\r",
        "* A\nsome text\n** B\nmore text",
        "é\n∑\n",
    ];
    for sample in samples {
        let expected: Vec<String> = sample.lines().map(|l| l.to_string()).collect();
        assert_eq!(lines(sample), expected, "{:?}", sample);
    }
}

#[test]
fn lines_keep_a_last_carriage_return() {
    assert_eq!(lines("foo\r\nbar\n\nbaz\r"), vec!["foo", "bar", "", "baz\r"]);
    assert_eq!(lines("a\n"), vec!["a"]);
    assert_eq!(lines("\n"), vec![""]);
    assert_eq!(lines(""), Vec::<String>::new());
}

#[test]
fn prefixes_are_compared_by_characters() {
    let line = chars("#+TITLE: x");
    assert!(has_prefix(&line, "#+TITLE:"));
    assert!(has_prefix(&line, ""));
    assert!(!has_prefix(&line, "#+TITLE: x "));
    assert!(!has_prefix(&line, "#+DATE:"));
    assert_eq!(strip_prefix(&line, "#+TITLE:"), Some(8));
    assert_eq!(strip_prefix(&line, "#+title:"), None);
    assert_eq!(strip_prefix(&chars("é∑x"), "é∑"), Some(2));
    assert_eq!(text_behind(&line, "#+TITLE:"), "x");
    assert_eq!(text_behind(&line, "#+DATE:"), "#+TITLE: x");
}

#[test]
fn tail_is_what_follows_the_first_space() {
    assert_eq!(tail(&chars("** Two  words ")), "Two  words");
    assert_eq!(tail(&chars("10. ten")), "ten");
    assert_eq!(tail(&chars("nospace")), "");
    assert_eq!(tail(&chars("end ")), "");
    assert_eq!(tail(&chars(" lead")), "lead");
    assert_eq!(skip_first_space(&chars("ab cd")), 3);
    assert_eq!(skip_first_space(&chars("abcd")), 4);
    assert_eq!(skip_first_space(&chars("")), 0);
}

#[test]
fn kinds_follow_the_order_of_the_rules() {
    let cases = [
        ("#+TITLE: t", LineKind::Title),
        ("#+TITLE:", LineKind::Title),
        ("#+DATE: d", LineKind::Date),
        ("- item", LineKind::Bullet),
        ("- ", LineKind::Bullet),
        ("-item", LineKind::Text),
        ("1. one", LineKind::Numbered),
        ("1.one", LineKind::Text),
        ("#+BEGIN_SRC rust", LineKind::CodeStart),
        ("#+BEGIN_SRC", LineKind::CodeStart),
        ("#+END_SRC", LineKind::Text),
        ("*** h", LineKind::Heading(Level::Three)),
        ("** h", LineKind::Heading(Level::Two)),
        ("* h", LineKind::Heading(Level::One)),
        ("**** h", LineKind::Text),
        (" * h", LineKind::Text),
        ("text", LineKind::Text),
        ("", LineKind::Blank),
        ("  \t ", LineKind::Blank),
        ("\u{3000}", LineKind::Blank),
    ];
    for (line, expected) in cases {
        assert_eq!(kind(&chars(line)), expected, "{:?}", line);
    }
}

#[test]
fn runs_stop_at_the_first_line_of_another_kind() {
    let doc = lines_of("- a\n-  b \n1. c\n2. d\n- e\nx\n#+END_SRC\ny");
    assert_eq!(list_items(&doc, 0, LineKind::Bullet), (vec!["a".to_string(), "b".to_string()], 2));
    assert_eq!(list_items(&doc, 2, LineKind::Numbered), (vec!["c".to_string(), "d".to_string()], 4));
    assert_eq!(list_items(&doc, 2, LineKind::Bullet), (vec![], 2));
    assert_eq!(list_items(&doc, 8, LineKind::Bullet), (vec![], 8));
    assert_eq!(list_items(&doc, 0, LineKind::Text), (vec![], 0));
    assert_eq!(code_source(&doc, 4), ("- ex".to_string(), 7));
    assert_eq!(code_source(&doc, 7), ("y".to_string(), 8));
    assert_eq!(code_source(&doc, 8), (String::new(), 8));
}
