use minicel::ast::{Expression, FunctionCallExpression};
use minicel::builtins::{call_builtin, div, is_builtin, mul, print, sub, sum};
use minicel::decimal::Decimal;

fn number(text: &str) -> Expression {
    Expression::Number(Decimal::parse(text).unwrap())
}

fn string(text: &str) -> Expression {
    Expression::String(text.to_string())
}

#[test]
fn sum_adds_two_numbers() {
    assert_eq!(sum(vec![number("2"), number("3")]), Ok("5".to_string()));
    assert_eq!(sum(vec![number("2.5"), number("2.5")]), Ok("5.0".to_string()));
    assert_eq!(sum(vec![number("-1"), number("0.25")]), Ok("-0.75".to_string()));
}

#[test]
fn sum_wants_two_arguments() {
    assert_eq!(sum(vec![number("2")]), Err("Expected 2 arguments, found 1".to_string()));
    assert_eq!(sum(vec![]), Err("Expected 2 arguments, found 0".to_string()));
    assert_eq!(
        sum(vec![number("2"), number("3"), number("4")]),
        Err("Expected 2 arguments, found 3".to_string())
    );
}

#[test]
fn sum_wants_numbers() {
    assert_eq!(
        sum(vec![number("2"), string("x")]),
        Err("Expected numbers found `2` and `x`".to_string())
    );
    assert_eq!(
        sum(vec![string("a"), string("b")]),
        Err("Expected numbers found `a` and `b`".to_string())
    );
    assert!(sum(vec![Expression::Boolean(true), number("1")]).is_err());
}

#[test]
fn sub_mul_and_div_compute_exactly() {
    assert_eq!(sub(vec![number("5"), number("3")]), Ok("2".to_string()));
    assert_eq!(sub(vec![number("0.3"), number("0.1")]), Ok("0.2".to_string()));
    assert_eq!(mul(vec![number("2"), number("3")]), Ok("6".to_string()));
    assert_eq!(mul(vec![number("1.5"), number("1.5")]), Ok("2.25".to_string()));
    assert_eq!(div(vec![number("6"), number("3")]), Ok("2".to_string()));
    assert_eq!(div(vec![number("1"), number("4")]), Ok("0.25".to_string()));
}

#[test]
fn each_arithmetic_function_does_its_own_operation() {
    let args = || vec![number("12"), number("4")];
    assert_eq!(sum(args()), Ok("16".to_string()));
    assert_eq!(sub(args()), Ok("8".to_string()));
    assert_eq!(mul(args()), Ok("48".to_string()));
    assert_eq!(div(args()), Ok("3".to_string()));
}

#[test]
fn a_division_by_zero_is_an_error() {
    assert_eq!(div(vec![number("1"), number("0")]), Err("Division by zero".to_string()));
    assert_eq!(div(vec![number("1"), number("0.000")]), Err("Division by zero".to_string()));
    assert_eq!(div(vec![number("0"), number("2")]), Ok("0".to_string()));
}

#[test]
fn a_number_beyond_the_limits_is_an_error() {
    let huge = number("1e4611686018427387904");
    assert_eq!(sum(vec![huge, number("1")]), Err("Number out of range".to_string()));
    let tiny = number("1e-4611686018427387904");
    assert_eq!(mul(vec![number("1"), tiny]), Err("Number out of range".to_string()));
    let tiny = number("1e-4611686018427387904");
    assert_eq!(div(vec![number("1"), tiny]), Err("Number out of range".to_string()));
}

#[test]
fn arithmetic_wants_two_numbers_in_every_function() {
    assert_eq!(sub(vec![number("2")]), Err("Expected 2 arguments, found 1".to_string()));
    assert_eq!(mul(vec![]), Err("Expected 2 arguments, found 0".to_string()));
    assert_eq!(
        div(vec![string("a"), number("1")]),
        Err("Expected numbers found `a` and `1`".to_string())
    );
}

#[test]
fn print_joins_the_texts_of_its_arguments() {
    assert_eq!(print(vec![]), Ok(String::new()));
    assert_eq!(print(vec![string("a")]), Ok("a".to_string()));
    assert_eq!(
        print(vec![string("a"), number("1.50"), Expression::Boolean(true)]),
        Ok("a, 1.50, true".to_string())
    );
}

#[test]
fn print_writes_arrays_fields_and_calls_out() {
    let field = Expression::Field { col: "a".to_string(), row: 1, value: "v".to_string() };
    let array = Expression::Array(vec![number("1"), string("x"), Expression::Boolean(false)]);
    let builtin = Expression::FunctionCall(FunctionCallExpression {
        name: "sum".to_string(),
        arguments: vec![number("1"), number("2")],
        line_number: 1,
    });
    let other = Expression::FunctionCall(FunctionCallExpression {
        name: "foo".to_string(),
        arguments: vec![],
        line_number: 1,
    });
    assert_eq!(
        print(vec![field, array, builtin, other, Expression::Array(vec![])]),
        Ok("v, [1, x, false], builtin function: sum(1, 2), function: foo(), []".to_string())
    );
}

#[test]
fn the_builtin_functions_are_known_by_name() {
    for name in ["print", "sum", "sub", "mul", "div"] {
        assert!(is_builtin(name));
    }
    for name in ["", "Print", "add", "summ", "su"] {
        assert!(!is_builtin(name));
    }
}

#[test]
fn call_builtin_calls_by_name() {
    let args = || vec![number("6"), number("2")];
    assert_eq!(call_builtin("print", args()), Some(Ok("6, 2".to_string())));
    assert_eq!(call_builtin("sum", args()), Some(Ok("8".to_string())));
    assert_eq!(call_builtin("sub", args()), Some(Ok("4".to_string())));
    assert_eq!(call_builtin("mul", args()), Some(Ok("12".to_string())));
    assert_eq!(call_builtin("div", args()), Some(Ok("3".to_string())));
    assert_eq!(call_builtin("pow", args()), None);
    assert_eq!(
        call_builtin("sum", vec![]),
        Some(Err("Expected 2 arguments, found 0".to_string()))
    );
}
