use crisp::lexer::{tokenize, Token};

#[test]
fn tokenize_empty_and_whitespace_only() {
    assert!(tokenize("").is_empty());
    assert!(tokenize("   \t\n  ").is_empty());
}

#[test]
fn tokenize_parens_need_no_spacing() {
    let tokens = tokenize("(+ 1 2)");
    assert_eq!(tokens.len(), 5);
    assert!(matches!(tokens[0], Token::LParen));
    assert!(matches!(&tokens[1], Token::Symbol(s) if s == "+"));
    assert!(matches!(tokens[2], Token::Integer(1)));
    assert!(matches!(tokens[3], Token::Integer(2)));
    assert!(matches!(tokens[4], Token::RParen));
}

#[test]
fn tokenize_classifies_in_priority_order() {
    let tokens = tokenize("foo -42 +7 \"hi\" )");
    assert!(matches!(&tokens[0], Token::Symbol(s) if s == "foo"));
    assert!(matches!(tokens[1], Token::Integer(-42)));
    assert!(matches!(tokens[2], Token::Integer(7)));
    assert!(matches!(&tokens[3], Token::String(s) if s == "hi"));
    assert!(matches!(tokens[4], Token::RParen));
}

#[test]
fn tokenize_integer_range_limits() {
    let tokens = tokenize("9223372036854775807 -9223372036854775808");
    assert!(matches!(tokens[0], Token::Integer(i64::MAX)));
    assert!(matches!(tokens[1], Token::Integer(i64::MIN)));
}

#[test]
fn tokenize_integer_overflow_becomes_symbol() {
    // One past i64::MAX no longer parses as an integer literal, and the
    // language has no other numeric form, so the word becomes a symbol.
    let tokens = tokenize("9223372036854775808");
    assert!(matches!(&tokens[0], Token::Symbol(s) if s == "9223372036854775808"));
}

#[test]
fn tokenize_decimal_word_is_a_symbol() {
    // The language has no floating-point literals: "2.5" is a word that
    // fails integer parsing and is not quoted, so it becomes a symbol.
    let tokens = tokenize("2.5");
    assert!(matches!(&tokens[0], Token::Symbol(s) if s == "2.5"));
}

#[test]
fn tokenize_sign_alone_is_a_symbol() {
    let tokens = tokenize("- +");
    assert!(matches!(&tokens[0], Token::Symbol(s) if s == "-"));
    assert!(matches!(&tokens[1], Token::Symbol(s) if s == "+"));
}

#[test]
fn tokenize_quoted_string_keeps_inner_text() {
    let tokens = tokenize("\"abc\" \"\"");
    assert!(matches!(&tokens[0], Token::String(s) if s == "abc"));
    assert!(matches!(&tokens[1], Token::String(s) if s == ""));
}

#[test]
fn tokenize_lone_quote_is_a_symbol() {
    let tokens = tokenize("\"");
    assert!(matches!(&tokens[0], Token::Symbol(s) if s == "\""));
}

#[test]
fn token_to_text_forms() {
    assert_eq!(Token::LParen.to_text(), "(");
    assert_eq!(Token::RParen.to_text(), ")");
    assert_eq!(Token::Integer(-17).to_text(), "-17");
    assert_eq!(Token::Symbol("abc".to_string()).to_text(), "abc");
    assert_eq!(Token::String("hi".to_string()).to_text(), "hi");
}
