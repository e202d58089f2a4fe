use minicel::ast::{Ast, Expression, FunctionCallExpression};
use minicel::decimal::Decimal;
use minicel::errors::ErrorKind;
use minicel::parser::{field_from, parse_tokens, Parser};
use minicel::tokenizer::{tokenize, Token};

fn parse(text: &str) -> Result<Ast, minicel::errors::Error> {
    let tokens = tokenize(text, 1).unwrap();
    parse_tokens(&tokens, 1)
}

fn call(name: &str, arguments: Vec<Expression>) -> FunctionCallExpression {
    FunctionCallExpression { name: name.to_string(), arguments, line_number: 1 }
}

fn field(col: &str, row: u64) -> Expression {
    Expression::Field { col: col.to_string(), row, value: String::new() }
}

fn number(text: &str) -> Expression {
    Expression::Number(Decimal::parse(text).unwrap())
}

#[test]
fn a_field_with_row_zero_is_an_error() {
    let error = parse("f(a0)").unwrap_err();
    assert_eq!(error.kind, ErrorKind::Parse);
    assert_eq!(error.message, "Invalid field identifier `a0`, row number starts from 1, found 0");
    assert_eq!(error.line_number, 1);
    let error = field_from("ab000", 8).unwrap_err();
    assert_eq!(error.kind, ErrorKind::Parse);
    assert_eq!(error.message, "Invalid field identifier `ab000`, row number starts from 1, found 0");
    assert_eq!(error.line_number, 8);
}

#[test]
fn a_field_has_a_column_and_a_row() {
    assert_eq!(field_from("a1", 1).unwrap(), field("a", 1));
    assert_eq!(field_from("AB120", 1).unwrap(), field("AB", 120));
    assert_eq!(field_from("x007", 1).unwrap(), field("x", 7));
    assert_eq!(parse("f(a1)").unwrap().function, call("f", vec![field("a", 1)]));
}

#[test]
fn a_field_without_a_row_is_an_error() {
    let error = field_from("abc", 2).unwrap_err();
    assert_eq!(error.kind, ErrorKind::Parse);
    assert_eq!(
        error.message,
        "Invalid field identifier, expected a row number after the column `abc` but found ``"
    );
    let error = field_from("a1_2", 2).unwrap_err();
    assert_eq!(
        error.message,
        "Invalid field identifier, expected a row number after the column `a` but found `1_2`"
    );
    let error = field_from("_1", 2).unwrap_err();
    assert_eq!(
        error.message,
        "Invalid field identifier, expected a row number after the column `` but found `_1`"
    );
}

#[test]
fn a_row_that_does_not_fit_is_an_error() {
    assert_eq!(field_from("a18446744073709551615", 1).unwrap(), field("a", u64::MAX));
    let error = field_from("a18446744073709551616", 1).unwrap_err();
    assert_eq!(error.kind, ErrorKind::Parse);
    let error = field_from("a99999999999999999999999999", 1).unwrap_err();
    assert_eq!(error.kind, ErrorKind::Parse);
}

#[test]
fn parses_a_call_with_each_kind_of_argument() {
    let ast = parse("f(a1; 2.5; \"hi\"; true; false; [1; b2]; g())").unwrap();
    assert_eq!(
        ast.function,
        call(
            "f",
            vec![
                field("a", 1),
                number("2.5"),
                Expression::String("hi".to_string()),
                Expression::Boolean(true),
                Expression::Boolean(false),
                Expression::Array(vec![number("1"), field("b", 2)]),
                Expression::FunctionCall(call("g", vec![])),
            ]
        )
    );
}

#[test]
fn semicolons_are_passed_over() {
    let ast = parse("f(;;1;;2;)").unwrap();
    assert_eq!(ast.function, call("f", vec![number("1"), number("2")]));
    let ast = parse("f([;1;;])").unwrap();
    assert_eq!(ast.function, call("f", vec![Expression::Array(vec![number("1")])]));
    let ast = parse("f(1 2)").unwrap();
    assert_eq!(ast.function, call("f", vec![number("1"), number("2")]));
}

#[test]
fn tokens_behind_the_call_are_left_unread() {
    let ast = parse("f(1) g(2)").unwrap();
    assert_eq!(ast.function, call("f", vec![number("1")]));
}

#[test]
fn the_call_carries_the_line() {
    let tokens = tokenize("f(g())", 5).unwrap();
    let ast = parse_tokens(&tokens, 5).unwrap();
    assert_eq!(ast.function.line_number, 5);
    match &ast.function.arguments[0] {
        Expression::FunctionCall(inner) => assert_eq!(inner.line_number, 5),
        other => panic!("no call: {:?}", other),
    }
}

#[test]
fn a_parser_reads_from_a_multipeek() {
    let tokens = tokenize("sum(1;2)", 3).unwrap();
    let mut parser = Parser::new(multipeek::multipeek(tokens.iter()), 3);
    let ast = parser.parse().unwrap();
    assert_eq!(ast.function.name, "sum");
    assert_eq!(ast.function.arguments, vec![number("1"), number("2")]);
    assert_eq!(ast.function.line_number, 3);
}

#[test]
fn a_parser_goes_on_where_the_multipeek_stands() {
    let tokens = tokenize("1 sum(2)", 3).unwrap();
    let mut peekable = multipeek::multipeek(tokens.iter());
    peekable.peek_nth(1);
    peekable.next();
    let ast = Parser::new(peekable, 3).parse().unwrap();
    assert_eq!(ast.function.arguments, vec![number("2")]);
}

#[test]
fn a_formula_must_start_with_a_name() {
    let error = parse("1").unwrap_err();
    assert_eq!(error.kind, ErrorKind::Parse);
    assert_eq!(error.message, "Expected identifier, found Number(1)");
    let error = parse("").unwrap_err();
    assert_eq!(error.message, "Expected identifier, found EOF");
    let error = parse("\"f\"(1)").unwrap_err();
    assert_eq!(error.message, "Expected identifier, found String(\"f\")");
}

#[test]
fn a_call_needs_its_brackets() {
    let error = parse("f").unwrap_err();
    assert_eq!(error.kind, ErrorKind::Parse);
    assert_eq!(error.message, "Expected left parenthesis, found EOF");
    let error = parse("f 1").unwrap_err();
    assert_eq!(error.message, "Expected left parenthesis, found Number(1)");
    let error = parse("f g").unwrap_err();
    assert_eq!(error.message, "Expected left parenthesis, found Identifier(\"g\")");
    let error = parse("f(1").unwrap_err();
    assert_eq!(error.message, "Expected right parenthesis, found EOF");
    let error = parse("f(").unwrap_err();
    assert_eq!(error.message, "Expected right parenthesis, found EOF");
}

#[test]
fn an_array_needs_its_closing_bracket() {
    let error = parse("f([1;2)").unwrap_err();
    assert_eq!(error.kind, ErrorKind::Parse);
    assert_eq!(error.message, "Expected expression, found RightParenthesis");
    let error = parse("f([1;2").unwrap_err();
    assert_eq!(error.message, "Expected right bracket, found EOF");
}

#[test]
fn a_closing_bracket_is_no_expression() {
    let error = parse("f(])").unwrap_err();
    assert_eq!(error.kind, ErrorKind::Parse);
    assert_eq!(error.message, "Expected expression, found RightBracket");
    let error = parse("f(()").unwrap_err();
    assert_eq!(error.message, "Expected expression, found LeftParenthesis");
}

#[test]
fn hand_made_tokens_are_parsed_too() {
    let tokens = vec![
        Token::Identifier("f".to_string()),
        Token::LeftParenthesis,
        Token::Identifier("true".to_string()),
        Token::RightParenthesis,
    ];
    let ast = parse_tokens(&tokens, 2).unwrap();
    assert_eq!(ast.function.arguments, vec![Expression::Boolean(true)]);
    let error = parse_tokens(&vec![Token::Semicolon], 2).unwrap_err();
    assert_eq!(error.message, "Expected identifier, found Semicolon");
    assert_eq!(error.line_number, 2);
}
