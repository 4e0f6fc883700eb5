//! Language tags of code blocks.
//!
//! The word that follows the opening fence of a code block names a language.
//! It is matched, whatever the case of its ASCII letters, against a closed set
//! of known names; any other word, the empty one too, is `Unknown`.
use vstd::prelude::*;
use vstd::std_specs::convert::FromSpecImpl;
use crate::text::chars_of;

verus! {

/// The languages a code block can be tagged with.
#[derive(Debug, Clone, Copy, PartialEq, Eq, Structural)]
pub enum ProgLang {
    Rust,
    Python,
    Cpp,
    C,
    Java,
    Unknown,
}

/// `c`, with an ASCII capital letter turned into its small letter.
pub open spec fn ascii_lower(c: char) -> char {
    if 'A' <= c && c <= 'Z' {
        ((c as u8) + 32) as u8 as char
    } else {
        c
    }
}

/// `s`, with each ASCII capital letter turned into its small letter.
pub open spec fn lowered(s: Seq<char>) -> Seq<char> {
    Seq::new(s.len(), |i: int| ascii_lower(s[i]))
}

/// The language that the word `token` names.
pub open spec fn language_of(token: Seq<char>) -> ProgLang {
    let word = lowered(token);
    if word == seq!['r', 'u', 's', 't'] {
        ProgLang::Rust
    } else if word == seq!['p', 'y', 't', 'h', 'o', 'n'] {
        ProgLang::Python
    } else if word == seq!['c', 'p', 'p'] {
        ProgLang::Cpp
    } else if word == seq!['c'] {
        ProgLang::C
    } else if word == seq!['j', 'a', 'v', 'a'] {
        ProgLang::Java
    } else {
        ProgLang::Unknown
    }
}

/// Executable form of [`ascii_lower`].
pub fn lower(c: char) -> (r: char)
    ensures
        r == ascii_lower(c),
{
    if c >= 'A' && c <= 'Z' {
        ((c as u8) + 32) as char
    } else {
        c
    }
}

/// Whether `token[from..to]` is the word `name`, whatever the case of its
/// ASCII letters.
pub fn names(token: &[char], from: usize, to: usize, name: &str) -> (r: bool)
    requires
        from <= to <= token@.len(),
    ensures
        r == (lowered(token@.subrange(from as int, to as int)) == name@),
{
    let ghost word = lowered(token@.subrange(from as int, to as int));
    let mut i: usize = from;
    for c in it: name.chars()
        invariant
            from <= to <= token@.len(),
            word == lowered(token@.subrange(from as int, to as int)),
            i == from + it.index(),
            it.seq() == name@,
            i <= to,
            word.take(i - from) == name@.take(i - from),
    {
        if i >= to || lower(token[i]) != c {
            return false;
        }
        i += 1;
    }
    proof {
        assert(name@.take(name@.len() as int) == name@);
        if i == to {
            assert(word.take(word.len() as int) == word);
        }
    }
    i == to
}

/// The language that the word `token[from..to]` names.
pub fn classify(token: &[char], from: usize, to: usize) -> (r: ProgLang)
    requires
        from <= to <= token@.len(),
    ensures
        r == language_of(token@.subrange(from as int, to as int)),
{
    proof {
        reveal_strlit("rust");
        reveal_strlit("python");
        reveal_strlit("cpp");
        reveal_strlit("c");
        reveal_strlit("java");
        assert("rust"@ =~= seq!['r', 'u', 's', 't']);
        assert("python"@ =~= seq!['p', 'y', 't', 'h', 'o', 'n']);
        assert("cpp"@ =~= seq!['c', 'p', 'p']);
        assert("c"@ =~= seq!['c']);
        assert("java"@ =~= seq!['j', 'a', 'v', 'a']);
    }
    if names(token, from, to, "rust") {
        ProgLang::Rust
    } else if names(token, from, to, "python") {
        ProgLang::Python
    } else if names(token, from, to, "cpp") {
        ProgLang::Cpp
    } else if names(token, from, to, "c") {
        ProgLang::C
    } else if names(token, from, to, "java") {
        ProgLang::Java
    } else {
        ProgLang::Unknown
    }
}

impl From<&str> for ProgLang {
    /// The language that the word `text` names.
    fn from(text: &str) -> (r: ProgLang)
        ensures
            r == language_of(text@),
    {
        let token = chars_of(text);
        proof {
            assert(token@.subrange(0, token@.len() as int) == token@);
        }
        classify(token.as_slice(), 0, token.len())
    }
}

impl FromSpecImpl<&str> for ProgLang {
    open spec fn obeys_from_spec() -> bool {
        true
    }

    open spec fn from_spec(text: &str) -> ProgLang {
        language_of(text@)
    }
}

} // verus!
