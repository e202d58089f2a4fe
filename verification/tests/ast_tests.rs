use minicel::ast::{clone_list, list_to_string, Ast, Expression, FunctionCallExpression};
use minicel::decimal::Decimal;

fn number(text: &str) -> Expression {
    Expression::Number(Decimal::parse(text).unwrap())
}

fn call(name: &str, arguments: Vec<Expression>) -> FunctionCallExpression {
    FunctionCallExpression { name: name.to_string(), arguments, line_number: 1 }
}

#[test]
fn function_call_gives_the_call() {
    let e = Expression::FunctionCall(call("f", vec![]));
    assert_eq!(e.function_call(), Some(&call("f", vec![])));
    assert_eq!(number("1").function_call(), None);
    assert_eq!(Expression::Array(vec![]).function_call(), None);
}

#[test]
fn expressions_are_written_out() {
    assert_eq!(number("1.0").to_string(), "1.0");
    assert_eq!(Expression::String("a b".to_string()).to_string(), "a b");
    assert_eq!(Expression::Boolean(true).to_string(), "true");
    assert_eq!(Expression::Boolean(false).to_string(), "false");
    let field = Expression::Field { col: "a".to_string(), row: 1, value: "shown".to_string() };
    assert_eq!(field.to_string(), "shown");
    assert_eq!(Expression::Array(vec![number("1"), number("2")]).to_string(), "[1, 2]");
    assert_eq!(Expression::Array(vec![]).to_string(), "[]");
}

#[test]
fn calls_are_written_out_with_their_kind() {
    assert_eq!(call("sum", vec![number("1"), number("2")]).to_string(), "builtin function: sum(1, 2)");
    assert_eq!(call("other", vec![]).to_string(), "function: other()");
    let nested = call("f", vec![Expression::FunctionCall(call("print", vec![number("1")]))]);
    assert_eq!(
        Expression::FunctionCall(nested).to_string(),
        "function: f(builtin function: print(1))"
    );
}

#[test]
fn a_list_is_written_with_commas() {
    assert_eq!(list_to_string(&vec![]), "");
    assert_eq!(list_to_string(&vec![number("1")]), "1");
    assert_eq!(list_to_string(&vec![number("1"), number("2"), number("3")]), "1, 2, 3");
}

#[test]
fn copies_are_equal() {
    let tree = call(
        "f",
        vec![
            number("1"),
            Expression::Array(vec![Expression::Boolean(true), Expression::String("s".to_string())]),
            Expression::FunctionCall(call("g", vec![])),
            Expression::Field { col: "a".to_string(), row: 3, value: "v".to_string() },
        ],
    );
    assert_eq!(tree.clone(), tree);
    assert_eq!(clone_list(&tree.arguments), tree.arguments);
    let ast = Ast { function: tree };
    assert_eq!(ast.clone(), ast);
}

#[test]
fn the_children_are_the_leaves_in_order() {
    let field = Expression::Field { col: "a".to_string(), row: 1, value: String::new() };
    let mut tree = Expression::FunctionCall(call(
        "f",
        vec![
            number("1"),
            Expression::Array(vec![
                field.clone(),
                Expression::FunctionCall(call("g", vec![Expression::String("x".to_string())])),
                Expression::Array(vec![]),
            ]),
            Expression::FunctionCall(call("h", vec![])),
            Expression::Boolean(true),
        ],
    ));
    let children = tree.mut_children();
    let seen: Vec<Expression> = children.iter().map(|c| (**c).clone()).collect();
    assert_eq!(
        seen,
        vec![number("1"), field, Expression::String("x".to_string()), Expression::Boolean(true)]
    );
}

#[test]
fn what_is_written_through_the_children_takes_the_place_of_the_leaves() {
    let mut tree = Expression::FunctionCall(call(
        "f",
        vec![
            number("1"),
            Expression::Array(vec![Expression::Boolean(false), number("2")]),
            Expression::FunctionCall(call("g", vec![number("3")])),
        ],
    ));
    for (i, child) in tree.mut_children().into_iter().enumerate() {
        *child = Expression::String(format!("leaf {}", i));
    }
    let leaf = |i: usize| Expression::String(format!("leaf {}", i));
    assert_eq!(
        tree,
        Expression::FunctionCall(call(
            "f",
            vec![
                leaf(0),
                Expression::Array(vec![leaf(1), leaf(2)]),
                Expression::FunctionCall(call("g", vec![leaf(3)])),
            ],
        ))
    );
}

#[test]
fn a_leaf_is_its_own_child() {
    let mut leaf = number("5");
    let mut children = leaf.mut_children();
    assert_eq!(children.len(), 1);
    *children.pop().unwrap() = Expression::Boolean(true);
    assert_eq!(leaf, Expression::Boolean(true));
    assert!(Expression::Array(vec![]).mut_children().is_empty());
}

#[test]
fn the_children_of_a_formula_are_the_leaves_of_its_arguments() {
    let mut ast = Ast {
        function: call("f", vec![number("1"), Expression::Array(vec![number("2")])]),
    };
    for child in ast.mut_children() {
        *child = Expression::Boolean(true);
    }
    assert_eq!(
        ast.function,
        call(
            "f",
            vec![Expression::Boolean(true), Expression::Array(vec![Expression::Boolean(true)])]
        )
    );
    let mut empty = Ast { function: call("f", vec![]) };
    assert!(empty.mut_children().is_empty());
}
