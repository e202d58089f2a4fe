use minicel::decimal::Decimal;
use minicel::errors::ErrorKind;
use minicel::tokenizer::{tokenize, Token};

fn number(text: &str) -> Token {
    Token::Number(Decimal::parse(text).unwrap())
}

fn identifier(text: &str) -> Token {
    Token::Identifier(text.to_string())
}

#[test]
fn tokenizes_a_call_with_field_number_and_string() {
    let tokens = tokenize("add(a1;2.5;\"hi\")", 1).unwrap();
    assert_eq!(
        tokens,
        vec![
            identifier("add"),
            Token::LeftParenthesis,
            identifier("a1"),
            Token::Semicolon,
            number("2.5"),
            Token::Semicolon,
            Token::String("hi".to_string()),
            Token::RightParenthesis,
        ]
    );
}

#[test]
fn tokenizes_the_empty_text_to_nothing() {
    assert_eq!(tokenize("", 1).unwrap(), vec![]);
    assert_eq!(tokenize("  \t ", 1).unwrap(), vec![]);
}

#[test]
fn tokenizes_brackets_and_skips_white_space() {
    let tokens = tokenize(" [ 1 ; -2 ] ", 4).unwrap();
    assert_eq!(
        tokens,
        vec![
            Token::LeftBracket,
            number("1"),
            Token::Semicolon,
            number("-2"),
            Token::RightBracket,
        ]
    );
}

#[test]
fn tokenizes_identifiers_with_digits_and_underscores() {
    let tokens = tokenize("_x1 ab_2c", 1).unwrap();
    assert_eq!(tokens, vec![identifier("_x1"), identifier("ab_2c")]);
}

#[test]
fn a_digit_starts_a_number_not_an_identifier() {
    let tokens = tokenize("1a", 1).unwrap();
    assert_eq!(tokens, vec![number("1"), identifier("a")]);
}

#[test]
fn a_string_holds_what_stands_between_the_quotes() {
    let tokens = tokenize("\"a b;(c)\"\"\"", 1).unwrap();
    assert_eq!(
        tokens,
        vec![Token::String("a b;(c)".to_string()), Token::String(String::new())]
    );
}

#[test]
fn an_unclosed_string_is_an_error() {
    let error = tokenize("print(\"abc)", 7).unwrap_err();
    assert_eq!(error.kind, ErrorKind::Tokenizer);
    assert_eq!(error.message, "String is not closed");
    assert_eq!(error.line_number, 7);
}

#[test]
fn a_second_decimal_point_is_an_error() {
    let error = tokenize("1.2.3", 2).unwrap_err();
    assert_eq!(error.kind, ErrorKind::Tokenizer);
    assert_eq!(error.message, "Invalid float number");
    assert_eq!(error.line_number, 2);
}

#[test]
fn a_minus_sign_behind_digits_is_an_error() {
    let error = tokenize("1-2", 3).unwrap_err();
    assert_eq!(error.kind, ErrorKind::Tokenizer);
    assert_eq!(error.message, "Invalid negative number");
    assert_eq!(error.line_number, 3);
}

#[test]
fn a_second_minus_sign_is_an_error() {
    let error = tokenize("--1", 3).unwrap_err();
    assert_eq!(error.kind, ErrorKind::Tokenizer);
    assert_eq!(error.message, "Invalid negative number");
}

#[test]
fn a_lone_minus_sign_is_no_number() {
    let error = tokenize("sum(-;1)", 5).unwrap_err();
    assert_eq!(error.kind, ErrorKind::Tokenizer);
    assert_eq!(error.message, "Invalid number");
    assert_eq!(error.line_number, 5);
}

#[test]
fn an_unknown_character_is_an_error() {
    let error = tokenize("sum(1 # 2)", 9).unwrap_err();
    assert_eq!(error.kind, ErrorKind::Tokenizer);
    assert_eq!(error.message, "Unknown character: #");
    assert_eq!(error.line_number, 9);
}

#[test]
fn a_point_alone_is_an_unknown_character() {
    let error = tokenize(".5", 1).unwrap_err();
    assert_eq!(error.message, "Unknown character: .");
}

#[test]
fn the_first_error_of_the_text_is_reported() {
    let error = tokenize("1.2.3 \"open", 1).unwrap_err();
    assert_eq!(error.message, "Invalid float number");
}

#[test]
fn a_number_keeps_its_digits_behind_the_point() {
    let tokens = tokenize("1.10", 1).unwrap();
    match &tokens[0] {
        Token::Number(n) => assert_eq!(n.to_string(), "1.10"),
        other => panic!("no number: {:?}", other),
    }
}
