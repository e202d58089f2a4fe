use std::path::PathBuf;

use minicel::ast::{Expression, FunctionCallExpression};
use minicel::decimal::Decimal;
use minicel::engine::{is_flush_row, Engine};
use minicel::errors::ErrorKind;

const SHEET: &str = "name,price,count,total\napple, 1.5 ,4,=mul(B1;C1)\npear,2,3,=mul(B2;C2)\nsum,,,=sum(D1;D2)\n";

fn engine(text: &str) -> Engine {
    Engine::new(PathBuf::from("sheet.csv"), text).unwrap()
}

fn record(fields: &[&str]) -> Vec<String> {
    fields.iter().map(|f| f.to_string()).collect()
}

fn number(text: &str) -> Expression {
    Expression::Number(Decimal::parse(text).unwrap())
}

#[test]
fn new_takes_the_lines_of_the_text() {
    let mut e = engine(SHEET);
    assert_eq!(e.lines.len(), 4);
    assert_eq!(e.lines[0], "name,price,count,total");
    assert_eq!(e.rows(), 3);
    assert!(e.updated_records.is_empty());
    assert_eq!(e.file, PathBuf::from("sheet.csv"));
    let mut e = engine("a\r\nb");
    assert_eq!(e.lines, record(&["a", "b"]));
    let mut e = engine("");
    assert!(e.lines.is_empty());
    assert_eq!(e.rows(), 0);
}

#[test]
fn get_record_splits_and_trims() {
    let mut e = engine(SHEET);
    assert_eq!(e.get_record(0).unwrap(), record(&["name", "price", "count", "total"]));
    assert_eq!(e.get_record(1).unwrap(), record(&["apple", "1.5", "4", "=mul(B1;C1)"]));
    assert_eq!(e.get_record(3).unwrap(), record(&["sum", "", "", "=sum(D1;D2)"]));
}

#[test]
fn a_row_beyond_the_sheet_is_an_error() {
    let mut e = engine(SHEET);
    let error = e.get_record(4).unwrap_err();
    assert_eq!(error.kind, ErrorKind::Engine);
    assert_eq!(error.message, "Invalid row number 4, the rows is 3");
    assert_eq!(error.line_number, 5);
    let error = engine("").get_record(0).unwrap_err();
    assert_eq!(error.message, "Invalid row number 0, the rows is 0");
    assert_eq!(error.line_number, 1);
}

#[test]
fn a_formula_that_names_a_row_beyond_the_sheet_fails() {
    let mut e = engine(SHEET);
    let error = e.execute_field("=print(A9)".to_string(), 2).unwrap_err();
    assert_eq!(error.kind, ErrorKind::Engine);
    assert_eq!(error.message, "Invalid row number 9, the rows is 3");
    assert_eq!(error.line_number, 10);
}

#[test]
fn a_formula_that_names_a_column_beyond_the_record_fails() {
    let mut e = engine(SHEET);
    let error = e.execute_field("=print(E1)".to_string(), 2).unwrap_err();
    assert_eq!(error.kind, ErrorKind::Engine);
    assert_eq!(error.message, "CSV error: Record 1 has only 4 columns, cannot get column 4");
    assert_eq!(error.line_number, 2);
    let error = e.get_field(7, 2, 1).unwrap_err();
    assert_eq!(error.message, "CSV error: Record 2 has only 4 columns, cannot get column 7");
    assert_eq!(error.line_number, 3);
}

#[test]
fn a_text_that_is_no_formula_is_its_own_value() {
    let mut e = engine(SHEET);
    for text in ["", "apple", " 1.5 ", "a=b", "\"=x\"", " =sum(1;2)"] {
        assert_eq!(e.execute_field(text.to_string(), 1).unwrap(), text);
    }
}

#[test]
fn a_formula_is_evaluated() {
    let mut e = engine(SHEET);
    assert_eq!(e.execute_field("=sum(1;2)".to_string(), 1).unwrap(), "3");
    assert_eq!(e.execute_field("==  sum(1;2)  ".to_string(), 1).unwrap(), "3");
    assert_eq!(e.execute_field("=mul(B1;C1)".to_string(), 2).unwrap(), "6.0");
    assert_eq!(e.execute_field("=print(A1;B1;true;\"x\")".to_string(), 2).unwrap(), "apple, 1.5, true, x");
    assert_eq!(e.execute_field("=sum(mul(2;3);sub(10;4))".to_string(), 2).unwrap(), "12");
}

#[test]
fn a_field_that_holds_a_formula_is_evaluated_in_turn() {
    let mut e = engine(SHEET);
    assert_eq!(e.get_field(3, 1, 9).unwrap(), "6.0");
    assert_eq!(e.get_field(3, 3, 9).unwrap(), "12.0");
    assert_eq!(e.execute_field("=sum(D3;1)".to_string(), 9).unwrap(), "13.0");
    assert_eq!(e.get_field(0, 1, 9).unwrap(), "apple");
}

#[test]
fn fields_in_arrays_and_inner_calls_are_replaced() {
    let mut e = engine(SHEET);
    assert_eq!(
        e.execute_field("=print([A1;B1;[C1]];print(A2))".to_string(), 2).unwrap(),
        "[apple, 1.5, [4]], pear"
    );
}

#[test]
fn a_call_that_is_an_item_of_an_array_is_evaluated() {
    let mut e = engine(SHEET);
    assert_eq!(e.execute_field("=print([sum(B2;1)])".to_string(), 2).unwrap(), "[3]");
    assert_eq!(
        e.execute_field("=print([print(A1);[mul(2;C1)];1];sum(1;[sub(3;1)]))".to_string(), 2)
            .unwrap_err()
            .message,
        "Builtin function error: Expected numbers found `1` and `[2]`"
    );
    assert_eq!(
        e.execute_field("=print([print(A1);[mul(2;C1)];1])".to_string(), 2).unwrap(),
        "[apple, [8], 1]"
    );
    assert_eq!(e.execute_field("=print(print([sum(1;1)]))".to_string(), 2).unwrap(), "[2]");
}

#[test]
fn a_call_in_an_array_fails_before_the_calls_that_are_arguments() {
    let mut e = engine(SHEET);
    let error = e.execute_field("=first(1;[second(2)])".to_string(), 2).unwrap_err();
    assert_eq!(error.message, "Unknown function second");
    let error = e.execute_field("=print(sum(1);[foo(A9)];A8)".to_string(), 2).unwrap_err();
    assert_eq!(error.message, "Invalid row number 9, the rows is 3");
    let error = e.execute_field("=print(sum(1);[foo(1)];A8)".to_string(), 2).unwrap_err();
    assert_eq!(error.message, "Unknown function foo");
    let error = e.execute_field("=print(sum(1);[sum(1;1)];A8)".to_string(), 2).unwrap_err();
    assert_eq!(error.message, "Invalid row number 8, the rows is 3");
}

#[test]
fn function_call_leaves_the_calls_in_arrays_as_they_stand() {
    let mut e = engine(SHEET);
    let inner = FunctionCallExpression {
        name: "sum".to_string(),
        arguments: vec![number("1"), number("2")],
        line_number: 3,
    };
    let outer = FunctionCallExpression {
        name: "print".to_string(),
        arguments: vec![Expression::Array(vec![Expression::FunctionCall(inner)])],
        line_number: 3,
    };
    assert_eq!(e.function_call(outer).unwrap(), "[builtin function: sum(1, 2)]");
}

#[test]
fn an_unknown_function_is_an_error() {
    let mut e = engine(SHEET);
    let error = e.execute_field("=foo(1)".to_string(), 6).unwrap_err();
    assert_eq!(error.kind, ErrorKind::Engine);
    assert_eq!(error.message, "Unknown function foo");
    assert_eq!(error.line_number, 6);
}

#[test]
fn a_failing_builtin_is_an_error() {
    let mut e = engine(SHEET);
    let error = e.execute_field("=sum(1)".to_string(), 6).unwrap_err();
    assert_eq!(error.kind, ErrorKind::Engine);
    assert_eq!(error.message, "Builtin function error: Expected 2 arguments, found 1");
    assert_eq!(error.line_number, 6);
    let error = e.execute_field("=sum(A1;1)".to_string(), 6).unwrap_err();
    assert_eq!(error.message, "Builtin function error: Expected numbers found `apple` and `1`");
    let error = e.execute_field("=div(1;0)".to_string(), 6).unwrap_err();
    assert_eq!(error.message, "Builtin function error: Division by zero");
}

#[test]
fn errors_of_the_tokenizer_and_the_parser_come_through() {
    let mut e = engine(SHEET);
    let error = e.execute_field("=sum(1;\"x)".to_string(), 4).unwrap_err();
    assert_eq!(error.kind, ErrorKind::Tokenizer);
    assert_eq!(error.line_number, 4);
    let error = e.execute_field("=sum(1;a0)".to_string(), 4).unwrap_err();
    assert_eq!(error.kind, ErrorKind::Parse);
    assert_eq!(error.line_number, 4);
    let error = e.execute_field("=".to_string(), 4).unwrap_err();
    assert_eq!(error.kind, ErrorKind::Parse);
    assert_eq!(error.message, "Expected identifier, found EOF");
}

#[test]
fn an_inner_call_fails_before_the_outer_is_looked_up() {
    let mut e = engine(SHEET);
    let error = e.execute_field("=foo(bar(1))".to_string(), 4).unwrap_err();
    assert_eq!(error.message, "Unknown function bar");
}

#[test]
fn function_call_reduces_inner_calls_first() {
    let mut e = engine(SHEET);
    let inner = FunctionCallExpression {
        name: "sum".to_string(),
        arguments: vec![number("1"), number("2")],
        line_number: 3,
    };
    let outer = FunctionCallExpression {
        name: "mul".to_string(),
        arguments: vec![Expression::FunctionCall(inner), number("4")],
        line_number: 3,
    };
    assert_eq!(e.function_call(outer).unwrap(), "12");
    let unknown = FunctionCallExpression { name: "nope".to_string(), arguments: vec![], line_number: 8 };
    let error = e.function_call(unknown).unwrap_err();
    assert_eq!(error.kind, ErrorKind::Engine);
    assert_eq!(error.line_number, 8);
}

#[test]
fn a_cell_that_names_itself_is_an_error() {
    let mut e = engine("h\n=print(A1)\n");
    let error = e.get_field(0, 1, 2).unwrap_err();
    assert_eq!(error.kind, ErrorKind::Engine);
    assert_eq!(error.message, "Circular reference to column 0 of record 1");
    assert_eq!(error.line_number, 2);
    let mut e = engine("h,h\n=print(B1),=print(A1)\n");
    let error = e.execute_field("=print(A1)".to_string(), 2).unwrap_err();
    assert_eq!(error.kind, ErrorKind::Engine);
    assert_eq!(error.message, "Circular reference to column 0 of record 1");
}

#[test]
fn a_long_chain_of_fields_is_followed() {
    let mut text = String::from("h\n1\n");
    for row in 1..200 {
        text.push_str(&format!("=sum(A{};1)\n", row));
    }
    let mut e = engine(&text);
    assert_eq!(e.get_field(0, 200, 1).unwrap(), "200");
}

#[test]
fn update_field_keeps_a_computed_value() {
    let mut e = engine("h,h\n=f(A1),=f(B1)\n");
    e.update_field(0, 1, "X".to_string(), 2).unwrap();
    assert_eq!(e.updated_records, vec![(1, record(&["X", "=f(B1)"]))]);
    e.update_field(1, 1, "Y".to_string(), 2).unwrap();
    assert_eq!(e.updated_records, vec![(1, record(&["X", "Y"]))]);
    e.update_field(0, 0, "Z".to_string(), 1).unwrap();
    assert_eq!(e.updated_records, vec![(1, record(&["X", "Y"])), (0, record(&["Z", "h"]))]);
}

#[test]
fn an_update_with_the_text_of_the_sheet_keeps_the_earlier_value() {
    let mut e = engine("h,h\n=a(),=b()\n");
    e.update_field(1, 1, "V1".to_string(), 2).unwrap();
    assert_eq!(e.updated_records, vec![(1, record(&["=a()", "V1"]))]);
    e.update_field(0, 1, "=a()".to_string(), 2).unwrap();
    assert_eq!(e.updated_records, vec![(1, record(&["=a()", "V1"]))]);
}

#[test]
fn update_field_refuses_what_the_sheet_does_not_have() {
    let mut e = engine("h,h\n1,2\n");
    let error = e.update_field(2, 1, "x".to_string(), 7).unwrap_err();
    assert_eq!(error.kind, ErrorKind::Engine);
    assert_eq!(error.message, "CSV error: Record 1 has only 2 columns, cannot update column 3");
    assert_eq!(error.line_number, 7);
    let error = e.update_field(0, 2, "x".to_string(), 7).unwrap_err();
    assert_eq!(error.message, "Invalid row number 2, the rows is 1");
    assert_eq!(error.line_number, 3);
    assert!(e.updated_records.is_empty());
}

#[test]
fn a_field_of_a_computed_row_reads_the_computed_value() {
    let mut e = engine("h,h\n=sum(1;2),=sum(A1;1)\n");
    assert_eq!(e.get_field(1, 1, 1).unwrap(), "4");
    e.update_field(0, 1, "10".to_string(), 2).unwrap();
    assert_eq!(e.get_field(0, 1, 1).unwrap(), "10");
    assert_eq!(e.get_field(1, 1, 1).unwrap(), "=sum(A1;1)");
    assert_eq!(e.execute_field("=sum(A1;1)".to_string(), 2).unwrap(), "11");
    let error = e.get_field(2, 1, 5).unwrap_err();
    assert_eq!(error.message, "CSV error: Record 1 has only 2 columns, cannot get column 2");
    assert_eq!(error.line_number, 5);
}

#[test]
fn run_row_evaluates_the_cells_of_a_row() {
    let mut e = engine(SHEET);
    assert_eq!(e.run_row(0).unwrap(), Some(record(&["name", "price", "count", "total"])));
    assert!(e.updated_records.is_empty());
    assert_eq!(e.run_row(1).unwrap(), Some(record(&["apple", "1.5", "4", "6.0"])));
    assert_eq!(e.run_row(2).unwrap(), Some(record(&["pear", "2", "3", "6"])));
    assert_eq!(e.run_row(3).unwrap(), Some(record(&["sum", "", "", "12.0"])));
    let error = e.run_row(4).unwrap_err();
    assert_eq!(error.kind, ErrorKind::Engine);
    assert_eq!(error.message, "Invalid row number 4, the rows is 3");
}

#[test]
fn a_row_without_a_change_is_written_as_it_stands() {
    let mut e = engine("h\na,b,\"c d\"\n");
    assert_eq!(e.run_row(1).unwrap(), Some(record(&["a", "b", "\"c d\""])));
    assert!(e.updated_records.is_empty());
}

#[test]
fn a_cell_that_is_no_formula_is_written_without_the_white_space_around_it() {
    let mut e = engine("h\na,b , c\n");
    assert_eq!(e.run_row(1).unwrap(), Some(record(&["a", "b", "c"])));
    let mut e = engine("h\na, b ,=sum(1;1)\n");
    assert_eq!(e.run_row(1).unwrap(), Some(record(&["a", "b", "2"])));
    let mut e = engine("h\n=sum(1;1), x y ,z\n");
    assert_eq!(e.run_row(1).unwrap(), Some(record(&["2", "x y", "z"])));
}

#[test]
fn nothing_is_written_for_an_empty_line() {
    let mut e = engine("h\n\nx\n");
    assert_eq!(e.run_row(1).unwrap(), None);
    assert_eq!(e.run_row(2).unwrap(), Some(record(&["x"])));
}

#[test]
fn run_gives_the_records_of_the_whole_sheet() {
    let mut e = engine(SHEET);
    let (records, failure) = e.run();
    assert!(failure.is_none());
    assert_eq!(
        records,
        vec![
            record(&["name", "price", "count", "total"]),
            record(&["apple", "1.5", "4", "6.0"]),
            record(&["pear", "2", "3", "6"]),
            record(&["sum", "", "", "12.0"]),
        ]
    );
}

#[test]
fn run_stops_at_the_first_failure() {
    let mut e = engine("h\n=sum(1;2)\n\n=foo()\n=sum(1;1)\n");
    let (records, failure) = e.run();
    assert_eq!(records, vec![record(&["h"]), record(&["3"])]);
    let error = failure.unwrap();
    assert_eq!(error.kind, ErrorKind::Engine);
    assert_eq!(error.message, "Unknown function foo");
    assert_eq!(error.line_number, 4);
}

#[test]
fn run_reads_computed_rows_from_later_rows() {
    let mut e = engine("h,h\n=sum(1;2),=sum(A1;A2)\n=sum(A1;1),x\n");
    let (records, failure) = e.run();
    assert!(failure.is_none());
    assert_eq!(records, vec![record(&["h", "h"]), record(&["3", "7"]), record(&["4", "x"])]);
}

#[test]
fn records_are_flushed_behind_every_hundredth_row() {
    assert!(is_flush_row(0));
    assert!(!is_flush_row(1));
    assert!(!is_flush_row(99));
    assert!(is_flush_row(100));
    assert!(is_flush_row(1000));
}

#[test]
fn a_column_whose_number_does_not_fit_is_an_error() {
    let mut e = engine(SHEET);
    let error = e
        .execute_field("=print(ZZZZZZZZZZZZZZZZZZZZZZZZZZZZZZ1)".to_string(), 3)
        .unwrap_err();
    assert_eq!(error.kind, ErrorKind::Engine);
    assert_eq!(error.message, "Invalid column `ZZZZZZZZZZZZZZZZZZZZZZZZZZZZZZ`");
    assert_eq!(error.line_number, 3);
}

#[test]
fn the_engine_stays_as_it_is_when_it_is_read() {
    let mut e = engine(SHEET);
    e.update_field(0, 1, "plum".to_string(), 2).unwrap();
    let lines = e.lines.clone();
    let updated = e.updated_records.clone();
    e.get_record(1).unwrap();
    e.get_field(3, 2, 1).unwrap();
    e.execute_field("=sum(D2;1)".to_string(), 1).unwrap();
    e.execute_field("=sum(D1;D2)".to_string(), 1).unwrap_err();
    assert_eq!(e.lines, lines);
    assert_eq!(e.updated_records, updated);
}
