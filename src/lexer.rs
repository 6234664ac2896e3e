//! Lexical classification: languages chosen by file-extension hint, their
//! reserved words and line-comment prefixes, word characters, and the class
//! of a word-like token.

use vstd::prelude::*;
use crate::text::{chars_of, lower_chars, lowered, same_text, views};

verus! {

/// Languages with lightweight syntax support. `Plain` has no reserved words
/// and no comment syntax.
#[derive(Clone, Copy, Debug, PartialEq, Eq, Structural)]
pub enum Lang {
    Rust,
    Python,
    JavaScript,
    Toml,
    Plain,
}

/// The language that an extension hint selects.
pub open spec fn lang_of_hint(hint: Seq<char>) -> Lang {
    if hint == "rs"@ {
        Lang::Rust
    } else if hint == "py"@ {
        Lang::Python
    } else if hint == "js"@ {
        Lang::JavaScript
    } else if hint == "toml"@ {
        Lang::Toml
    } else {
        Lang::Plain
    }
}

pub open spec fn rust_keywords() -> Seq<Seq<char>> {
    seq![
        "as"@, "async"@, "await"@, "break"@, "const"@, "continue"@, "crate"@, "dyn"@,
        "else"@, "enum"@, "fn"@, "for"@, "if"@, "impl"@, "in"@, "let"@, "loop"@, "match"@,
        "mod"@, "move"@, "mut"@, "pub"@, "ref"@, "return"@, "self"@, "Self"@, "struct"@,
        "super"@, "trait"@, "type"@, "use"@, "where"@, "while"@,
    ]
}

pub open spec fn python_keywords() -> Seq<Seq<char>> {
    seq![
        "and"@, "as"@, "assert"@, "async"@, "await"@, "break"@, "class"@, "continue"@,
        "def"@, "del"@, "elif"@, "else"@, "except"@, "finally"@, "for"@, "from"@, "global"@,
        "if"@, "import"@, "in"@, "is"@, "lambda"@, "nonlocal"@, "not"@, "or"@, "pass"@,
        "raise"@, "return"@, "try"@, "while"@, "with"@, "yield"@,
    ]
}

pub open spec fn javascript_keywords() -> Seq<Seq<char>> {
    seq![
        "async"@, "await"@, "break"@, "case"@, "catch"@, "class"@, "const"@, "continue"@,
        "debugger"@, "default"@, "delete"@, "do"@, "else"@, "export"@, "extends"@,
        "finally"@, "for"@, "function"@, "if"@, "import"@, "in"@, "instanceof"@, "let"@,
        "new"@, "return"@, "super"@, "switch"@, "this"@, "throw"@, "try"@, "typeof"@,
        "var"@, "void"@, "while"@, "with"@, "yield"@,
    ]
}

/// Reserved words of a language.
pub open spec fn keywords(lang: Lang) -> Seq<Seq<char>> {
    match lang {
        Lang::Rust => rust_keywords(),
        Lang::Python => python_keywords(),
        Lang::JavaScript => javascript_keywords(),
        Lang::Toml => Seq::empty(),
        Lang::Plain => Seq::empty(),
    }
}

/// Line-comment prefix of a language; empty where it has none.
pub open spec fn comment_prefix(lang: Lang) -> Seq<char> {
    match lang {
        Lang::Rust => "//"@,
        Lang::Python => "#"@,
        Lang::JavaScript => "//"@,
        Lang::Toml => "#"@,
        Lang::Plain => Seq::empty(),
    }
}

/// Name for what `char::is_alphanumeric` answers: alphabetic or numeric in
/// the Unicode sense.
pub uninterp spec fn alphanumeric(c: char) -> bool;

/// Relies on `char::is_alphanumeric`: its answer depends on the character
/// alone.
#[verifier::external_body]
fn is_alphanumeric(c: char) -> (r: bool)
    ensures
        r == alphanumeric(c),
{
    c.is_alphanumeric()
}

/// Characters that make up word-like tokens.
pub open spec fn is_word_char(c: char) -> bool {
    alphanumeric(c) || c == '_'
}

/// Whether `c` belongs to a word-like token.
pub fn word_char(c: char) -> (r: bool)
    ensures
        r == is_word_char(c),
{
    c == '_' || is_alphanumeric(c)
}

/// Each character of `s` standing alone, as a lower-case mapping that
/// leaves it unchanged would give it.
pub open spec fn singles(s: Seq<char>) -> Seq<Seq<char>> {
    s.map_values(|c: char| seq![c])
}

/// A word whose characters lower-case to `true`, `false`, `null` or `none`;
/// `lw` holds the lower-case mappings of the word's characters.
pub open spec fn is_literal_word(lw: Seq<Seq<char>>) -> bool {
    lw == singles("true"@) || lw == singles("false"@) || lw == singles("null"@) || lw == singles(
        "none"@,
    )
}

/// A non-empty run of ASCII digits.
pub open spec fn is_number_word(w: Seq<char>) -> bool {
    w.len() > 0 && forall|k: int| 0 <= k < w.len() ==> '0' <= #[trigger] w[k] && w[k] <= '9'
}

/// Semantic class of a word-like token.
#[derive(Clone, Copy, Debug, PartialEq, Eq, Structural)]
pub enum TokenClass {
    Keyword,
    Literal,
    Number,
    Plain,
}

/// The class of word `w` in `lang`, where `lw` holds the lower-case
/// mappings of its characters; the first rule that applies wins: reserved
/// word, boolean or null literal in any case, number, plain identifier.
pub open spec fn class_of(lang: Lang, w: Seq<char>, lw: Seq<Seq<char>>) -> TokenClass {
    if keywords(lang).contains(w) {
        TokenClass::Keyword
    } else if is_literal_word(lw) {
        TokenClass::Literal
    } else if is_number_word(w) {
        TokenClass::Number
    } else {
        TokenClass::Plain
    }
}

impl Lang {
    /// The language selected by a lower-case file-extension hint.
    pub fn from_hint(hint: &str) -> (r: Lang)
        ensures
            r == lang_of_hint(hint@),
    {
        let h = chars_of(hint);
        if same_text(h.as_slice(), "rs") {
            Lang::Rust
        } else if same_text(h.as_slice(), "py") {
            Lang::Python
        } else if same_text(h.as_slice(), "js") {
            Lang::JavaScript
        } else if same_text(h.as_slice(), "toml") {
            Lang::Toml
        } else {
            Lang::Plain
        }
    }

    /// The line-comment prefix of this language, empty where it has none.
    pub fn comment_prefix(self) -> (r: &'static str)
        ensures
            r@ == comment_prefix(self),
    {
        match self {
            Lang::Rust => "//",
            Lang::Python => "#",
            Lang::JavaScript => "//",
            Lang::Toml => "#",
            Lang::Plain => {
                proof {
                    reveal_strlit("");
                }
                ""
            },
        }
    }
}

/// Whether `w` is found among the words of `table`.
fn in_table(table: &[&str], w: &[char], Ghost(words): Ghost<Seq<Seq<char>>>) -> (r: bool)
    requires
        table@.map_values(|s: &str| s@) == words,
    ensures
        r == words.contains(w@),
{
    let mut i: usize = 0;
    while i < table.len()
        invariant
            table@.map_values(|s: &str| s@) == words,
            i <= table@.len(),
            forall|j: int| 0 <= j < i ==> words[j] != w@,
        decreases table@.len() - i,
    {
        if same_text(w, table[i]) {
            assert(words[i as int] == w@);
            return true;
        }
        i += 1;
    }
    false
}

/// Whether `w` is a reserved word of `lang`.
pub fn is_keyword(lang: Lang, w: &[char]) -> (r: bool)
    ensures
        r == keywords(lang).contains(w@),
{
    match lang {
        Lang::Rust => {
            let table: [&str; 33] = [
                "as", "async", "await", "break", "const", "continue", "crate", "dyn", "else",
                "enum", "fn", "for", "if", "impl", "in", "let", "loop", "match", "mod", "move",
                "mut", "pub", "ref", "return", "self", "Self", "struct", "super", "trait",
                "type", "use", "where", "while",
            ];
            assert(table@.map_values(|s: &str| s@) =~= rust_keywords());
            in_table(&table, w, Ghost(rust_keywords()))
        },
        Lang::Python => {
            let table: [&str; 32] = [
                "and", "as", "assert", "async", "await", "break", "class", "continue", "def",
                "del", "elif", "else", "except", "finally", "for", "from", "global", "if",
                "import", "in", "is", "lambda", "nonlocal", "not", "or", "pass", "raise",
                "return", "try", "while", "with", "yield",
            ];
            assert(table@.map_values(|s: &str| s@) =~= python_keywords());
            in_table(&table, w, Ghost(python_keywords()))
        },
        Lang::JavaScript => {
            let table: [&str; 36] = [
                "async", "await", "break", "case", "catch", "class", "const", "continue",
                "debugger", "default", "delete", "do", "else", "export", "extends", "finally",
                "for", "function", "if", "import", "in", "instanceof", "let", "new", "return",
                "super", "switch", "this", "throw", "try", "typeof", "var", "void", "while",
                "with", "yield",
            ];
            assert(table@.map_values(|s: &str| s@) =~= javascript_keywords());
            in_table(&table, w, Ghost(javascript_keywords()))
        },
        Lang::Toml => false,
        Lang::Plain => false,
    }
}

/// Whether the lower-case mappings `lw` spell `s`, one character each.
fn lowers_to(lw: &[Vec<char>], s: &str) -> (r: bool)
    ensures
        r == (views(lw@) == singles(s@)),
{
    let n = s.unicode_len();
    if n != lw.len() {
        return false;
    }
    let mut i: usize = 0;
    while i < n
        invariant
            n == s@.len(),
            n == lw@.len(),
            i <= n,
            forall|j: int| 0 <= j < i ==> #[trigger] views(lw@)[j] == singles(s@)[j],
        decreases n - i,
    {
        let c = s.get_char(i);
        if lw[i].len() != 1 || lw[i][0] != c {
            assert(views(lw@)[i as int] != singles(s@)[i as int]);
            return false;
        }
        assert(lw@[i as int]@ =~= seq![c]);
        i += 1;
    }
    assert(views(lw@) =~= singles(s@));
    true
}

/// Whether `w` is a non-empty run of ASCII digits.
fn all_digits(w: &[char]) -> (r: bool)
    ensures
        r == is_number_word(w@),
{
    if w.len() == 0 {
        return false;
    }
    let mut i: usize = 0;
    while i < w.len()
        invariant
            i <= w@.len(),
            forall|j: int| 0 <= j < i ==> '0' <= #[trigger] w@[j] && w@[j] <= '9',
        decreases w@.len() - i,
    {
        if !('0' <= w[i] && w[i] <= '9') {
            return false;
        }
        i += 1;
    }
    true
}

/// Classifies the word-like token `w` of `lang`, given the lower-case
/// mappings `lw` of its characters.
pub fn classify(lang: Lang, w: &[char], lw: &[Vec<char>]) -> (r: TokenClass)
    ensures
        r == class_of(lang, w@, views(lw@)),
{
    if is_keyword(lang, w) {
        TokenClass::Keyword
    } else if lowers_to(lw, "true") || lowers_to(lw, "false") || lowers_to(lw, "null")
        || lowers_to(lw, "none") {
        TokenClass::Literal
    } else if all_digits(w) {
        TokenClass::Number
    } else {
        TokenClass::Plain
    }
}

/// Classifies the word-like token `w` of `lang`.
pub fn classify_word(lang: Lang, w: &[char]) -> (r: TokenClass)
    ensures
        r == class_of(lang, w@, lowered(w@)),
{
    let lw = lower_chars(w);
    classify(lang, w, lw.as_slice())
}

} // verus!
