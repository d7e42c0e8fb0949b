use crisp::atom::Atom;
use crisp::parser::{parse, ParseError};

#[test]
fn parse_flat_form() {
    let ast = parse("(+ 1 2)").unwrap();
    let expected = Atom::List(vec![
        Atom::Symbol("+".to_string()),
        Atom::Integer(1),
        Atom::Integer(2),
    ]);
    assert_eq!(ast, expected);
}

#[test]
fn parse_nested_form() {
    let ast = parse("(if (> 3 2) 1 0)").unwrap();
    let expected = Atom::List(vec![
        Atom::Symbol("if".to_string()),
        Atom::List(vec![
            Atom::Symbol(">".to_string()),
            Atom::Integer(3),
            Atom::Integer(2),
        ]),
        Atom::Integer(1),
        Atom::Integer(0),
    ]);
    assert_eq!(ast, expected);
}

#[test]
fn parse_empty_list() {
    assert_eq!(parse("()").unwrap(), Atom::List(vec![]));
}

#[test]
fn parse_rejects_empty_input() {
    assert_eq!(parse("").unwrap_err(), ParseError::ExpectedLeftParen);
    assert_eq!(parse("   ").unwrap_err(), ParseError::ExpectedLeftParen);
}

#[test]
fn parse_rejects_bare_atom() {
    assert_eq!(parse("undefined_symbol").unwrap_err(), ParseError::ExpectedLeftParen);
    assert_eq!(parse("42").unwrap_err(), ParseError::ExpectedLeftParen);
}

#[test]
fn parse_rejects_unbalanced_open() {
    assert_eq!(parse("(+ 1").unwrap_err(), ParseError::UnexpectedEnd);
    assert_eq!(parse("((a) (b)").unwrap_err(), ParseError::UnexpectedEnd);
}

#[test]
fn parse_rejects_trailing_tokens() {
    assert_eq!(parse("(+ 1 2))").unwrap_err(), ParseError::TrailingInput);
    assert_eq!(parse("(a) (b)").unwrap_err(), ParseError::TrailingInput);
    assert_eq!(parse("(a) b").unwrap_err(), ParseError::TrailingInput);
}

#[test]
fn parse_string_and_symbol_items() {
    let ast = parse("(print \"hi\" there)").unwrap();
    let expected = Atom::List(vec![
        Atom::Symbol("print".to_string()),
        Atom::String("hi".to_string()),
        Atom::Symbol("there".to_string()),
    ]);
    assert_eq!(ast, expected);
}
