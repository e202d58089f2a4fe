//! The functions that a formula can call.
//!
//! Each takes its arguments already evaluated and returns the text of its
//! result, or a message that says what is wrong with the arguments.

use vstd::prelude::*;
use crate::ast::{display, display_list, expression_views, lemma_expression_views, list_to_string,
    Expression, ExpressionView};
use crate::decimal::{decimal_text, difference_of, is_zero_number, product_of, quotient_of, sum_of};
use crate::text::{decimal_text_of, push_decimal, same_text};

verus! {

/// What a builtin function returns: the text of its result, or a message.
pub type FunctionResult = Result<String, String>;

/// The arithmetic that the builtin functions offer.
#[derive(Debug, Clone, Copy)]
pub enum Arithmetic {
    Sum,
    Sub,
    Mul,
    Div,
}

/// The mathematical value of a [`FunctionResult`].
pub open spec fn result_view(result: FunctionResult) -> Result<Seq<char>, Seq<char>> {
    match result {
        Ok(text) => Ok(text@),
        Err(message) => Err(message@),
    }
}

/// Whether `name` is the name of a builtin function.
pub open spec fn is_builtin_name(name: Seq<char>) -> bool {
    name == "print"@ || name == "sum"@ || name == "sub"@ || name == "mul"@ || name == "div"@
}

/// The message for a wrong number of arguments.
pub open spec fn count_message(found: nat) -> Seq<char> {
    "Expected 2 arguments, found "@ + decimal_text_of(found)
}

/// The message for arguments that are not both numbers.
pub open spec fn operands_message(first: ExpressionView, second: ExpressionView) -> Seq<char> {
    "Expected numbers found `"@ + display(first) + "` and `"@ + display(second) + "`"@
}

/// The message for a number beyond the limits of the arithmetic.
pub open spec fn range_message() -> Seq<char> {
    "Number out of range"@
}

/// The message for a division by zero.
pub open spec fn zero_divisor_message() -> Seq<char> {
    "Division by zero"@
}

/// What `print` returns: the texts of its arguments, with a comma and a
/// space between two of them.
pub open spec fn print_result(args: Seq<ExpressionView>) -> Result<Seq<char>, Seq<char>> {
    Ok(display_list(args))
}

/// The number that an operation gives on two numbers, where it gives one.
pub open spec fn arithmetic_value(op: Arithmetic, a: (Seq<u8>, int), b: (Seq<u8>, int)) -> Option<
    (Seq<u8>, int),
> {
    match op {
        Arithmetic::Sum => sum_of(a, b),
        Arithmetic::Sub => difference_of(a, b),
        Arithmetic::Mul => product_of(a, b),
        Arithmetic::Div => quotient_of(a, b),
    }
}

/// What an arithmetic function returns. It wants exactly two arguments, both
/// numbers, and returns the text of the number that the operation gives on
/// them. A division by zero, and a number beyond the limits of the
/// arithmetic, is an error.
pub open spec fn arithmetic_result(op: Arithmetic, args: Seq<ExpressionView>) -> Result<
    Seq<char>,
    Seq<char>,
> {
    if args.len() != 2 {
        Err(count_message(args.len()))
    } else {
        match (args[0], args[1]) {
            (ExpressionView::Number(a), ExpressionView::Number(b)) => {
                if op is Div && is_zero_number(b) {
                    Err(zero_divisor_message())
                } else {
                    match arithmetic_value(op, a, b) {
                        Some(value) => Ok(decimal_text(value)),
                        None => Err(range_message()),
                    }
                }
            },
            _ => Err(operands_message(args[0], args[1])),
        }
    }
}

/// What the builtin function `name` returns on `args`; none where there is
/// no such function.
pub open spec fn builtin_result(name: Seq<char>, args: Seq<ExpressionView>) -> Option<
    Result<Seq<char>, Seq<char>>,
> {
    if name == "print"@ {
        Some(print_result(args))
    } else if name == "sum"@ {
        Some(arithmetic_result(Arithmetic::Sum, args))
    } else if name == "sub"@ {
        Some(arithmetic_result(Arithmetic::Sub, args))
    } else if name == "mul"@ {
        Some(arithmetic_result(Arithmetic::Mul, args))
    } else if name == "div"@ {
        Some(arithmetic_result(Arithmetic::Div, args))
    } else {
        None
    }
}

/// Calls the builtin function `name` on `args`; `None` where there is no
/// such function.
pub fn call_builtin(name: &str, args: Vec<Expression>) -> (called: Option<FunctionResult>)
    ensures
        match called {
            Some(result) => builtin_result(name@, expression_views(args@)) == Some(
                result_view(result),
            ),
            None => builtin_result(name@, expression_views(args@)) is None,
        },
{
    if same_text(name, "print") {
        Some(print(args))
    } else if same_text(name, "sum") {
        Some(sum(args))
    } else if same_text(name, "sub") {
        Some(self::sub(args))
    } else if same_text(name, "mul") {
        Some(self::mul(args))
    } else if same_text(name, "div") {
        Some(div(args))
    } else {
        None
    }
}

/// Whether `name` is the name of a builtin function.
pub fn is_builtin(name: &str) -> (builtin: bool)
    ensures
        builtin == is_builtin_name(name@),
{
    same_text(name, "print") || same_text(name, "sum") || same_text(name, "sub") || same_text(
        name,
        "mul",
    ) || same_text(name, "div")
}

/// Writes the arguments out, with a comma and a space between two of them.
pub fn print(args: Vec<Expression>) -> (result: FunctionResult)
    ensures
        result_view(result) == print_result(expression_views(args@)),
{
    Ok(list_to_string(&args))
}

/// Applies an operation to the arguments.
fn arithmetic(op: Arithmetic, args: &Vec<Expression>) -> (result: FunctionResult)
    ensures
        result_view(result) == arithmetic_result(op, expression_views(args@)),
{
    proof {
        lemma_expression_views(args@);
    }
    if args.len() != 2 {
        let mut message = String::from_str("Expected 2 arguments, found ");
        push_decimal(&mut message, args.len() as u128);
        return Err(message);
    }
    match (&args[0], &args[1]) {
        (Expression::Number(a), Expression::Number(b)) => {
            let value = match op {
                Arithmetic::Sum => a.plus(b),
                Arithmetic::Sub => a.minus(b),
                Arithmetic::Mul => a.times(b),
                Arithmetic::Div => {
                    if b.is_zero() {
                        return Err(String::from_str("Division by zero"));
                    }
                    a.divided_by(b)
                },
            };
            match value {
                Some(number) => Ok(number.to_string()),
                None => Err(String::from_str("Number out of range")),
            }
        },
        (first, second) => {
            let mut message = String::from_str("Expected numbers found `");
            message.append(first.to_string().as_str());
            message.append("` and `");
            message.append(second.to_string().as_str());
            message.append("`");
            Err(message)
        },
    }
}

/// The sum of two numbers.
pub fn sum(args: Vec<Expression>) -> (result: FunctionResult)
    ensures
        result_view(result) == arithmetic_result(Arithmetic::Sum, expression_views(args@)),
{
    arithmetic(Arithmetic::Sum, &args)
}

/// The difference of two numbers.
pub fn sub(args: Vec<Expression>) -> (result: FunctionResult)
    ensures
        result_view(result) == arithmetic_result(Arithmetic::Sub, expression_views(args@)),
{
    arithmetic(Arithmetic::Sub, &args)
}

/// The product of two numbers.
pub fn mul(args: Vec<Expression>) -> (result: FunctionResult)
    ensures
        result_view(result) == arithmetic_result(Arithmetic::Mul, expression_views(args@)),
{
    arithmetic(Arithmetic::Mul, &args)
}

/// The quotient of two numbers.
pub fn div(args: Vec<Expression>) -> (result: FunctionResult)
    ensures
        result_view(result) == arithmetic_result(Arithmetic::Div, expression_views(args@)),
{
    arithmetic(Arithmetic::Div, &args)
}

} // verus!
