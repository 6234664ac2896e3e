use file_viewer::lexer::{classify, classify_word, is_keyword, word_char, Lang, TokenClass};

fn w(s: &str) -> Vec<char> {
    s.chars().collect()
}

#[test]
fn keyword_classification() {
    assert_eq!(classify_word(Lang::from_hint("rs"), &w("fn")), TokenClass::Keyword);
    assert_eq!(classify_word(Lang::from_hint("py"), &w("fn")), TokenClass::Plain);
    assert_eq!(classify_word(Lang::from_hint("py"), &w("def")), TokenClass::Keyword);
    assert_eq!(classify_word(Lang::from_hint("js"), &w("function")), TokenClass::Keyword);
}

#[test]
fn unknown_hint_has_no_keywords() {
    assert_eq!(Lang::from_hint("md"), Lang::Plain);
    assert_eq!(Lang::from_hint("RS"), Lang::Plain);
    assert!(!is_keyword(Lang::Plain, &w("fn")));
    assert_eq!(Lang::Plain.comment_prefix(), "");
    assert_eq!(Lang::Toml.comment_prefix(), "#");
    assert_eq!(Lang::Rust.comment_prefix(), "//");
}

#[test]
fn literals_numbers_and_plain_words() {
    assert_eq!(classify_word(Lang::Rust, &w("True")), TokenClass::Literal);
    assert_eq!(classify_word(Lang::Plain, &w("NONE")), TokenClass::Literal);
    assert_eq!(classify_word(Lang::Python, &w("false")), TokenClass::Literal);
    assert_eq!(classify_word(Lang::Rust, &w("0123")), TokenClass::Number);
    assert_eq!(classify_word(Lang::Rust, &w("12a")), TokenClass::Plain);
    assert_eq!(classify_word(Lang::Rust, &w("nulls")), TokenClass::Plain);
}

#[test]
fn keyword_wins_over_literal() {
    assert_eq!(classify_word(Lang::Rust, &w("Self")), TokenClass::Keyword);
    assert_eq!(classify_word(Lang::Rust, &w("self")), TokenClass::Keyword);
    assert_eq!(classify_word(Lang::Rust, &w("SELF")), TokenClass::Plain);
}

#[test]
fn word_characters() {
    assert!(word_char('a'));
    assert!(word_char('Z'));
    assert!(word_char('7'));
    assert!(word_char('_'));
    assert!(word_char('é'));
    assert!(!word_char('('));
    assert!(!word_char(' '));
    assert!(!word_char('"'));
    assert!(!word_char('-'));
}

fn lower(s: &str) -> Vec<Vec<char>> {
    s.chars().map(|c| c.to_lowercase().collect()).collect()
}

#[test]
fn classify_from_given_lower_case_forms() {
    assert_eq!(classify(Lang::Rust, &w("TRUE"), &lower("true")), TokenClass::Literal);
    assert_eq!(classify(Lang::Rust, &w("TRUE"), &lower("TRUE")), TokenClass::Literal);
    assert_eq!(classify(Lang::Rust, &w("Nope"), &lower("nope")), TokenClass::Plain);
    assert_eq!(classify(Lang::Rust, &w("fn"), &lower("xx")), TokenClass::Keyword);
}

#[test]
fn literal_words_use_unicode_lower_case() {
    assert_eq!(classify_word(Lang::Plain, &w("NuLL")), TokenClass::Literal);
    assert_eq!(classify_word(Lang::Plain, &w("nöne")), TokenClass::Plain);
}
