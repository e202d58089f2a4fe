//! The engine: evaluates the cells of a sheet.
//!
//! The sheet is the lines of a CSV text, the header first. A cell that
//! starts with `=` is a formula: a call whose fields name other cells, by
//! the letters of a column and the number of a line, the header being line
//! 0. A formula is evaluated in two passes. The first replaces each field by
//! the value of its cell, which is evaluated in turn if it is a formula, and
//! each call that is an item of an array by the value that it gives. The
//! second reduces the calls that are left, from the inside out. Beside the
//! lines the engine keeps the rows that it has computed so far; a field that
//! names such a row reads the computed value.

use vstd::prelude::*;
use std::path::PathBuf;
use crate::ast::{expression_views, has_no_call_in_an_array, have_no_call_in_an_array,
    hold_no_field, holds_no_field, is_free_of_calls, leaves, leaves_of, lemma_expression_views,
    list_with_leaves, with_leaves, CallView, Expression, ExpressionView, FunctionCallExpression};
use crate::builtins::{builtin_result, call_builtin};
use crate::errors::{Error, ErrorKind, ErrorView};
use crate::parser::{parse_tokens, parsed_formula};
use crate::text::{chars_of, decimal_text_of, lemma_trim_twice, piece_from, push_decimal, run_end,
    run_length, split, split_lines, split_trimmed, split_untrimmed, string_views, trim, trim_all,
    trimmed, trimmed_str, CharClass};
use crate::tokenizer::{tokenize, tokens_of, TokenView};
use crate::utils::{column_index, column_of, compare_records, merged_field, merged_record,
    parse_string_to_expression, reparsed};

verus! {

/// `std::path::PathBuf`, which the engine carries and never reads.
#[verifier::external_type_specification]
#[verifier::external_body]
pub struct ExPathBuf(PathBuf);

/// How many cells may be under evaluation at once, each through a field of
/// the one before: more than any sheet in memory has.
pub const DEPTH_LIMIT: usize = usize::MAX;

/// The engine of one sheet.
#[derive(Debug)]
pub struct Engine {
    /// The file from which the sheet was read.
    pub file: PathBuf,
    /// The rows computed so far: the index of the line, and its values.
    pub updated_records: Vec<(u64, Vec<String>)>,
    /// The lines of the sheet, the header first.
    pub lines: Vec<String>,
}

/// The mathematical value of an [`Engine`]: the lines of the sheet, and the
/// rows computed so far.
pub struct Grid {
    pub lines: Seq<Seq<char>>,
    pub pending: Seq<(u64, Seq<Seq<char>>)>,
}

/// The views of the rows computed so far.
pub open spec fn pending_views(records: Seq<(u64, Vec<String>)>) -> Seq<(u64, Seq<Seq<char>>)> {
    Seq::new(records.len(), |i: int| (records[i].0, string_views(records[i].1@)))
}

impl View for Engine {
    type V = Grid;

    open spec fn view(&self) -> Grid {
        Grid { lines: string_views(self.lines@), pending: pending_views(self.updated_records@) }
    }
}

/// An engine error at `line`.
pub open spec fn engine_error(message: Seq<char>, line: usize) -> ErrorView {
    ErrorView { kind: ErrorKind::Engine, message, line_number: line }
}

/// The line of a row, counted from 1; the largest number where it does not fit.
pub open spec fn line_of_row(row: int) -> usize {
    if row + 1 <= usize::MAX {
        (row + 1) as usize
    } else {
        usize::MAX
    }
}

/// The number of rows of the sheet, the header not counted.
pub open spec fn row_count(grid: Grid) -> nat {
    if grid.lines.len() > 0 {
        (grid.lines.len() - 1) as nat
    } else {
        0
    }
}

/// The message for a row that the sheet does not have.
pub open spec fn invalid_row_message(row: int, rows: nat) -> Seq<char> {
    "Invalid row number "@ + decimal_text_of(row as nat) + ", the rows is "@ + decimal_text_of(
        rows,
    )
}

/// The message for a column that a record does not have, on reading.
pub open spec fn column_message(row: int, width: nat, col: int) -> Seq<char> {
    "CSV error: Record "@ + decimal_text_of(row as nat) + " has only "@ + decimal_text_of(width)
        + " columns, cannot get column "@ + decimal_text_of(col as nat)
}

/// The message for a column that a record does not have, on updating; it
/// counts the columns from 1.
pub open spec fn update_message(row: int, width: nat, col: int) -> Seq<char> {
    "CSV error: Record "@ + decimal_text_of(row as nat) + " has only "@ + decimal_text_of(width)
        + " columns, cannot update column "@ + decimal_text_of((col + 1) as nat)
}

/// The message for a field whose column is no label, or one too long.
pub open spec fn label_message(label: Seq<char>) -> Seq<char> {
    "Invalid column `"@ + label + "`"@
}

/// The message for a cell that is under evaluation already.
pub open spec fn circular_message(row: int, col: int) -> Seq<char> {
    "Circular reference to column "@ + decimal_text_of(col as nat) + " of record "@
        + decimal_text_of(row as nat)
}

/// The message for fields that lead deeper than the limit.
pub open spec fn depth_message() -> Seq<char> {
    "References are nested too deeply"@
}

/// The message for a builtin function that fails.
pub open spec fn builtin_failure_message(message: Seq<char>) -> Seq<char> {
    "Builtin function error: "@ + message
}

/// The message for a call of a function that is not there.
pub open spec fn unknown_function_message(name: Seq<char>) -> Seq<char> {
    "Unknown function "@ + name
}

/// The error for a row that the sheet does not have.
pub open spec fn invalid_row_error(grid: Grid, row: int) -> ErrorView {
    engine_error(invalid_row_message(row, row_count(grid)), line_of_row(row))
}

/// The values of a line: what stands between its commas, each without the
/// white space around it.
pub open spec fn record_of(line: Seq<char>) -> Seq<Seq<char>> {
    trim_all(split(line, ','))
}

/// The values of a row as the sheet has them.
pub open spec fn fetched_record(grid: Grid, row: int) -> Result<Seq<Seq<char>>, ErrorView> {
    if 0 <= row < grid.lines.len() {
        Ok(record_of(grid.lines[row]))
    } else {
        Err(invalid_row_error(grid, row))
    }
}

/// The place of the first computed row for `row`, from `from` on.
pub open spec fn pending_index(pending: Seq<(u64, Seq<Seq<char>>)>, row: u64, from: int) -> Option<
    int,
>
    decreases pending.len() - from,
{
    if 0 <= from < pending.len() {
        if pending[from].0 == row {
            Some(from)
        } else {
            pending_index(pending, row, from + 1)
        }
    } else {
        None
    }
}

/// The values computed so far for `row`, if there are any.
pub open spec fn pending_at(pending: Seq<(u64, Seq<Seq<char>>)>, row: u64) -> Option<
    Seq<Seq<char>>,
> {
    match pending_index(pending, row, 0) {
        Some(i) => Some(pending[i].1),
        None => None,
    }
}

/// Whether a cell holds a formula.
pub open spec fn is_formula(text: Seq<char>) -> bool {
    text.len() > 0 && text[0] == '='
}

/// The formula of a cell: its text behind the equals signs at its start,
/// without the white space around it.
pub open spec fn formula_of(text: Seq<char>) -> Seq<char> {
    trim(text.skip(run_length(text, 0, CharClass::Only('=')) as int))
}

/// What a call gives once its arguments hold no call: the result of the
/// builtin function, an error where it fails or there is none of that name.
pub open spec fn called(name: Seq<char>, arguments: Seq<ExpressionView>, line: usize) -> Result<
    Seq<char>,
    ErrorView,
> {
    match builtin_result(name, arguments) {
        Some(Ok(text)) => Ok(text),
        Some(Err(message)) => Err(engine_error(builtin_failure_message(message), line)),
        None => Err(engine_error(unknown_function_message(name), line)),
    }
}

/// The text to which a call reduces: each argument that is a call is
/// reduced first and replaced by the value that its text stands for.
pub open spec fn reduced(call: CallView) -> Result<Seq<char>, ErrorView>
    decreases call,
{
    match reduced_arguments(call.arguments) {
        Err(e) => Err(e),
        Ok(arguments) => called(call.name, arguments, call.line_number),
    }
}

/// An argument with its call, if it is one, reduced.
pub open spec fn reduced_argument(argument: ExpressionView) -> Result<ExpressionView, ErrorView>
    decreases argument,
{
    match argument {
        ExpressionView::FunctionCall(call) => match reduced(call) {
            Ok(text) => Ok(reparsed(text)),
            Err(e) => Err(e),
        },
        other => Ok(other),
    }
}

/// The arguments, each reduced, or the first error.
pub open spec fn reduced_arguments(arguments: Seq<ExpressionView>) -> Result<
    Seq<ExpressionView>,
    ErrorView,
>
    decreases arguments,
{
    if arguments.len() == 0 {
        Ok(Seq::empty())
    } else {
        match reduced_argument(arguments[0]) {
            Err(e) => Err(e),
            Ok(first) => expressions_then(seq![first], reduced_arguments(arguments.drop_first())),
        }
    }
}

/// `first` followed by what `rest` holds, or the error of `rest`.
pub open spec fn expressions_then(
    first: Seq<ExpressionView>,
    rest: Result<Seq<ExpressionView>, ErrorView>,
) -> Result<Seq<ExpressionView>, ErrorView> {
    match rest {
        Ok(others) => Ok(first + others),
        Err(e) => Err(e),
    }
}

/// The value of a cell with the text `text` on line `line`. A text that is
/// no formula is its own value. A formula is tokenized and parsed, its
/// fields are replaced by the values of their cells, and its call is
/// reduced. `visiting` holds the cells under evaluation, and `depth` says
/// how many more may be entered.
pub open spec fn evaluated(
    grid: Grid,
    text: Seq<char>,
    line: usize,
    visiting: Seq<(u64, usize)>,
    depth: nat,
) -> Result<Seq<char>, ErrorView>
    decreases depth, 2int, text,
{
    if !is_formula(text) {
        Ok(text)
    } else {
        match tokens_of(formula_of(text), line) {
            Err(e) => Err(e),
            Ok(tokens) => match parsed_formula(tokens, line) {
                Err(e) => Err(e),
                Ok(call) => match resolved_call(grid, call, line, visiting, depth) {
                    Err(e) => Err(e),
                    Ok(resolved) => reduced(resolved),
                },
            },
        }
    }
}

/// The value of the cell in column `col` of row `row`, for a field of a
/// formula on line `line`. A row computed so far gives its value as it
/// stands; any other cell is evaluated. A cell that is under evaluation
/// already is an error.
pub open spec fn fetched(
    grid: Grid,
    col: usize,
    row: u64,
    line: usize,
    visiting: Seq<(u64, usize)>,
    depth: nat,
) -> Result<Seq<char>, ErrorView>
    decreases depth, 0int, visiting,
{
    match pending_at(grid.pending, row) {
        Some(values) => {
            if col < values.len() {
                Ok(values[col as int])
            } else {
                Err(engine_error(column_message(row as int, values.len(), col as int), line))
            }
        },
        None => match fetched_record(grid, row as int) {
            Err(e) => Err(e),
            Ok(values) => {
                let at = line_of_row(row as int);
                if col >= values.len() {
                    Err(engine_error(column_message(row as int, values.len(), col as int), at))
                } else if visiting.contains((row, col)) {
                    Err(engine_error(circular_message(row as int, col as int), at))
                } else if depth == 0 {
                    Err(engine_error(depth_message(), at))
                } else {
                    evaluated(
                        grid,
                        values[col as int],
                        at,
                        visiting.push((row, col)),
                        (depth - 1) as nat,
                    )
                }
            },
        },
    }
}

/// An expression with each field in it replaced by the value of its cell,
/// and each call that is an item of an array by the value that it gives.
pub open spec fn resolved(
    grid: Grid,
    e: ExpressionView,
    line: usize,
    visiting: Seq<(u64, usize)>,
    depth: nat,
) -> Result<ExpressionView, ErrorView>
    decreases depth, 1int, e,
{
    match e {
        ExpressionView::FunctionCall(call) => match resolved_call(
            grid,
            call,
            line,
            visiting,
            depth,
        ) {
            Ok(c) => Ok(ExpressionView::FunctionCall(c)),
            Err(e) => Err(e),
        },
        ExpressionView::Array(items) => match resolved_items(grid, items, line, visiting, depth) {
            Ok(list) => Ok(ExpressionView::Array(list)),
            Err(e) => Err(e),
        },
        ExpressionView::Field { col, row, value } => match column_of(col) {
            None => Err(engine_error(label_message(col), line)),
            Some(c) => match fetched(grid, c, row, line, visiting, depth) {
                Ok(text) => Ok(reparsed(text)),
                Err(e) => Err(e),
            },
        },
        other => Ok(other),
    }
}

/// A call with each field in its arguments replaced by the value of its cell.
pub open spec fn resolved_call(
    grid: Grid,
    call: CallView,
    line: usize,
    visiting: Seq<(u64, usize)>,
    depth: nat,
) -> Result<CallView, ErrorView>
    decreases depth, 1int, call,
{
    match resolved_list(grid, call.arguments, line, visiting, depth) {
        Ok(arguments) => Ok(CallView { name: call.name, arguments, line_number: call.line_number }),
        Err(e) => Err(e),
    }
}

/// The expressions with each field in them replaced, or the first error.
pub open spec fn resolved_list(
    grid: Grid,
    list: Seq<ExpressionView>,
    line: usize,
    visiting: Seq<(u64, usize)>,
    depth: nat,
) -> Result<Seq<ExpressionView>, ErrorView>
    decreases depth, 1int, list,
{
    if list.len() == 0 {
        Ok(Seq::empty())
    } else {
        match resolved(grid, list[0], line, visiting, depth) {
            Err(e) => Err(e),
            Ok(first) => expressions_then(
                seq![first],
                resolved_list(grid, list.drop_first(), line, visiting, depth),
            ),
        }
    }
}

/// What a call that is an item of an array gives, once it is resolved: the
/// value for which the text stands to which it reduces.
pub open spec fn executed(call: Result<CallView, ErrorView>) -> Result<ExpressionView, ErrorView> {
    match call {
        Ok(c) => match reduced(c) {
            Ok(text) => Ok(reparsed(text)),
            Err(e) => Err(e),
        },
        Err(e) => Err(e),
    }
}

/// The items of an array, each resolved, or the first error. An item that
/// is a call is resolved and then reduced, and the value that it gives
/// takes its place.
pub open spec fn resolved_items(
    grid: Grid,
    list: Seq<ExpressionView>,
    line: usize,
    visiting: Seq<(u64, usize)>,
    depth: nat,
) -> Result<Seq<ExpressionView>, ErrorView>
    decreases depth, 1int, list,
{
    if list.len() == 0 {
        Ok(Seq::empty())
    } else {
        let first = match list[0] {
            ExpressionView::FunctionCall(call) => executed(
                resolved_call(grid, call, line, visiting, depth),
            ),
            other => resolved(grid, other, line, visiting, depth),
        };
        match first {
            Err(e) => Err(e),
            Ok(item) => expressions_then(
                seq![item],
                resolved_items(grid, list.drop_first(), line, visiting, depth),
            ),
        }
    }
}

/// The sheet after the value of one cell was computed. The row that is
/// kept is the row of the sheet with the column replaced, reconciled with
/// the row as computed so far, where there is one.
pub open spec fn updated(grid: Grid, col: usize, row: u64, value: Seq<char>, line: usize)
    -> Result<Grid, ErrorView> {
    match fetched_record(grid, row as int) {
        Err(e) => Err(e),
        Ok(fixed) => {
            if fixed.len() <= col {
                Err(engine_error(update_message(row as int, fixed.len(), col as int), line))
            } else {
                let new = fixed.update(col as int, value);
                match pending_index(grid.pending, row, 0) {
                    Some(i) => Ok(
                        Grid {
                            lines: grid.lines,
                            pending: grid.pending.update(
                                i,
                                (row, merged_record(fixed, grid.pending[i].1, new)),
                            ),
                        },
                    ),
                    None => Ok(Grid { lines: grid.lines, pending: grid.pending.push((row, new)) }),
                }
            }
        },
    }
}

/// The sheet once the cells of a row were evaluated, from column `col` on,
/// and the failure at which that stopped, if it did. `fields` is what stands
/// between the commas of its line. Each cell is evaluated without the white
/// space around it; a value that differs from what stands in the line is
/// kept.
pub open spec fn row_processed(
    grid: Grid,
    fields: Seq<Seq<char>>,
    row: u64,
    col: int,
) -> (Grid, Option<ErrorView>)
    decreases fields.len() - col,
{
    if 0 <= col < fields.len() {
        let line = line_of_row(row as int);
        match evaluated(grid, trim(fields[col]), line, Seq::empty(), DEPTH_LIMIT as nat) {
            Err(e) => (grid, Some(e)),
            Ok(value) => {
                if value != fields[col] {
                    match updated(grid, col as usize, row, value, line) {
                        Err(e) => (grid, Some(e)),
                        Ok(next) => row_processed(next, fields, row, col + 1),
                    }
                } else {
                    row_processed(grid, fields, row, col + 1)
                }
            },
        }
    } else {
        (grid, None)
    }
}

/// What is written for a row: its values as computed, where any was, else
/// what stands between the commas of its line.
pub open spec fn row_output(grid: Grid, fields: Seq<Seq<char>>, row: u64) -> Seq<Seq<char>> {
    match pending_at(grid.pending, row) {
        Some(values) => values,
        None => fields,
    }
}

/// The outcome of one step of a run.
pub struct RowRun {
    /// The sheet behind the step.
    pub grid: Grid,
    /// The record that is written for the row, if one is.
    pub written: Option<Seq<Seq<char>>>,
    /// The failure at which the step stopped, if it did.
    pub failure: Option<ErrorView>,
}

/// One step of a run: the cells of the row are evaluated in order, up to
/// the first failure. Nothing is written for an empty line, nor for a row
/// that fails.
pub open spec fn row_run(grid: Grid, row: int) -> RowRun {
    if !(0 <= row < grid.lines.len()) {
        RowRun { grid, written: None, failure: Some(invalid_row_error(grid, row)) }
    } else if grid.lines[row].len() == 0 {
        RowRun { grid, written: None, failure: None }
    } else {
        let fields = split(grid.lines[row], ',');
        let (after, failure) = row_processed(grid, fields, row as u64, 0);
        RowRun {
            grid: after,
            written: if failure is None {
                Some(row_output(after, fields, row as u64))
            } else {
                None
            },
            failure,
        }
    }
}

/// The outcome of a run.
pub struct SheetRun {
    /// The records that are written, in order.
    pub written: Seq<Seq<Seq<char>>>,
    /// The rows computed so far, behind the run.
    pub pending: Seq<(u64, Seq<Seq<char>>)>,
    /// The failure at which the run stopped, if it did.
    pub failure: Option<ErrorView>,
}

/// A run from row `row` on: the rows are processed in order, up to the
/// first failure.
pub open spec fn sheet_run(
    lines: Seq<Seq<char>>,
    pending: Seq<(u64, Seq<Seq<char>>)>,
    row: int,
) -> SheetRun
    decreases lines.len() - row,
{
    if 0 <= row < lines.len() {
        let step = row_run(Grid { lines, pending }, row);
        if step.failure is Some {
            SheetRun { written: Seq::empty(), pending: step.grid.pending, failure: step.failure }
        } else {
            let rest = sheet_run(lines, step.grid.pending, row + 1);
            SheetRun {
                written: match step.written {
                    Some(record) => seq![record] + rest.written,
                    None => rest.written,
                },
                pending: rest.pending,
                failure: rest.failure,
            }
        }
    } else {
        SheetRun { written: Seq::empty(), pending, failure: None }
    }
}

/// The views of a sequence of records.
pub open spec fn record_views(records: Seq<Vec<String>>) -> Seq<Seq<Seq<char>>> {
    Seq::new(records.len(), |i: int| string_views(records[i]@))
}

/// Reduced arguments are as many as the arguments, and none of them is a call.
pub proof fn lemma_reduced_arguments_hold_no_call(arguments: Seq<ExpressionView>)
    ensures
        reduced_arguments(arguments) matches Ok(list) ==> list.len() == arguments.len()
            && is_free_of_calls(list),
    decreases arguments.len(),
{
    if arguments.len() > 0 {
        lemma_reduced_arguments_hold_no_call(arguments.drop_first());
        if let Ok(first) = reduced_argument(arguments[0]) {
            if let Ok(others) = reduced_arguments(arguments.drop_first()) {
                let list = seq![first] + others;
                assert(!(first is FunctionCall));
                assert forall|i: int| 0 <= i < list.len() implies !(
                #[trigger] list[i] is FunctionCall) by {
                    if i > 0 {
                        assert(list[i] == others[i - 1]);
                    }
                }
            }
        }
    }
}

/// A resolved expression holds no field.
pub proof fn lemma_resolved_holds_no_field(
    grid: Grid,
    e: ExpressionView,
    line: usize,
    visiting: Seq<(u64, usize)>,
    depth: nat,
)
    ensures
        resolved(grid, e, line, visiting, depth) matches Ok(value) ==> holds_no_field(value),
    decreases e,
{
    match e {
        ExpressionView::FunctionCall(call) => {
            lemma_resolved_list_holds_no_field(grid, call.arguments, line, visiting, depth);
        },
        ExpressionView::Array(items) => {
            lemma_resolved_items_hold_no_field(grid, items, line, visiting, depth);
        },
        other => {},
    }
}

/// The expressions of a resolved list hold no field.
pub proof fn lemma_resolved_list_holds_no_field(
    grid: Grid,
    list: Seq<ExpressionView>,
    line: usize,
    visiting: Seq<(u64, usize)>,
    depth: nat,
)
    ensures
        resolved_list(grid, list, line, visiting, depth) matches Ok(values) ==> hold_no_field(
            values,
        ),
    decreases list,
{
    if list.len() > 0 {
        lemma_resolved_holds_no_field(grid, list[0], line, visiting, depth);
        lemma_resolved_list_holds_no_field(grid, list.drop_first(), line, visiting, depth);
        if let Ok(first) = resolved(grid, list[0], line, visiting, depth) {
            if let Ok(others) = resolved_list(grid, list.drop_first(), line, visiting, depth) {
                let values = seq![first] + others;
                assert(values[0] == first);
                assert(values.drop_first() == others);
            }
        }
    }
}

/// The resolved items of an array hold no field.
pub proof fn lemma_resolved_items_hold_no_field(
    grid: Grid,
    list: Seq<ExpressionView>,
    line: usize,
    visiting: Seq<(u64, usize)>,
    depth: nat,
)
    ensures
        resolved_items(grid, list, line, visiting, depth) matches Ok(values) ==> hold_no_field(
            values,
        ),
    decreases list,
{
    if list.len() > 0 {
        let first = match list[0] {
            ExpressionView::FunctionCall(call) => executed(
                resolved_call(grid, call, line, visiting, depth),
            ),
            other => resolved(grid, other, line, visiting, depth),
        };
        if !(list[0] is FunctionCall) {
            lemma_resolved_holds_no_field(grid, list[0], line, visiting, depth);
        }
        lemma_resolved_items_hold_no_field(grid, list.drop_first(), line, visiting, depth);
        if let Ok(item) = first {
            assert(holds_no_field(item));
            if let Ok(others) = resolved_items(grid, list.drop_first(), line, visiting, depth) {
                let values = seq![item] + others;
                assert(values[0] == item);
                assert(values.drop_first() == others);
            }
        }
    }
}

/// Two lists are resolved one after the other.
pub proof fn lemma_resolved_list_of_two(
    grid: Grid,
    front: Seq<ExpressionView>,
    back: Seq<ExpressionView>,
    line: usize,
    visiting: Seq<(u64, usize)>,
    depth: nat,
)
    ensures
        resolved_list(grid, front, line, visiting, depth) matches Ok(values) ==> values.len()
            == front.len(),
        resolved_list(grid, front + back, line, visiting, depth) == match resolved_list(
            grid,
            front,
            line,
            visiting,
            depth,
        ) {
            Ok(values) => expressions_then(
                values,
                resolved_list(grid, back, line, visiting, depth),
            ),
            Err(e) => Err(e),
        },
    decreases front.len(),
{
    let both = front + back;
    if front.len() == 0 {
        assert(both == back);
        if let Ok(values) = resolved_list(grid, back, line, visiting, depth) {
            assert(Seq::<ExpressionView>::empty() + values == values);
        }
    } else {
        assert(both[0] == front[0]);
        assert(both.drop_first() == front.drop_first() + back);
        lemma_resolved_list_of_two(grid, front.drop_first(), back, line, visiting, depth);
        if let Ok(first) = resolved(grid, front[0], line, visiting, depth) {
            if let Ok(others) = resolved_list(grid, front.drop_first(), line, visiting, depth) {
                if let Ok(last) = resolved_list(grid, back, line, visiting, depth) {
                    assert(seq![first] + (others + last) == (seq![first] + others) + last);
                }
            }
        }
    }
}

/// The items of an array that holds no call are resolved as any list is.
pub proof fn lemma_resolved_items_without_calls(
    grid: Grid,
    list: Seq<ExpressionView>,
    line: usize,
    visiting: Seq<(u64, usize)>,
    depth: nat,
)
    requires
        is_free_of_calls(list),
    ensures
        resolved_items(grid, list, line, visiting, depth) == resolved_list(
            grid,
            list,
            line,
            visiting,
            depth,
        ),
    decreases list.len(),
{
    if list.len() > 0 {
        lemma_resolved_items_without_calls(grid, list.drop_first(), line, visiting, depth);
    }
}

/// To resolve an expression in which no array holds a call is to resolve
/// its leaves, in order, and to put the values in their place; the first
/// leaf that fails is the failure.
pub proof fn lemma_resolved_replaces_leaves(
    grid: Grid,
    e: ExpressionView,
    line: usize,
    visiting: Seq<(u64, usize)>,
    depth: nat,
)
    requires
        has_no_call_in_an_array(e),
    ensures
        resolved(grid, e, line, visiting, depth) == match resolved_list(
            grid,
            leaves(e),
            line,
            visiting,
            depth,
        ) {
            Ok(values) => Ok::<ExpressionView, ErrorView>(with_leaves(e, values)),
            Err(err) => Err(err),
        },
    decreases e,
{
    match e {
        ExpressionView::FunctionCall(call) => {
            lemma_resolved_list_replaces_leaves(grid, call.arguments, line, visiting, depth);
        },
        ExpressionView::Array(items) => {
            lemma_resolved_items_without_calls(grid, items, line, visiting, depth);
            lemma_resolved_list_replaces_leaves(grid, items, line, visiting, depth);
        },
        other => {
            let only = seq![e];
            assert(only.drop_first() == Seq::<ExpressionView>::empty());
            assert(resolved_list(grid, only.drop_first(), line, visiting, depth) == Ok::<
                Seq<ExpressionView>,
                ErrorView,
            >(Seq::empty()));
            if let Ok(first) = resolved(grid, e, line, visiting, depth) {
                assert(seq![first] + Seq::<ExpressionView>::empty() == seq![first]);
            }
        },
    }
}

/// To resolve a list of expressions in which no array holds a call is to
/// resolve their leaves, in order, and to put the values in their place.
pub proof fn lemma_resolved_list_replaces_leaves(
    grid: Grid,
    list: Seq<ExpressionView>,
    line: usize,
    visiting: Seq<(u64, usize)>,
    depth: nat,
)
    requires
        have_no_call_in_an_array(list),
    ensures
        resolved_list(grid, list, line, visiting, depth) == match resolved_list(
            grid,
            leaves_of(list),
            line,
            visiting,
            depth,
        ) {
            Ok(values) => Ok::<Seq<ExpressionView>, ErrorView>(list_with_leaves(list, values)),
            Err(err) => Err(err),
        },
    decreases list,
{
    if list.len() > 0 {
        let first = leaves(list[0]);
        let others = leaves_of(list.drop_first());
        lemma_resolved_replaces_leaves(grid, list[0], line, visiting, depth);
        lemma_resolved_list_replaces_leaves(grid, list.drop_first(), line, visiting, depth);
        lemma_resolved_list_of_two(grid, first, others, line, visiting, depth);
        if let Ok(values) = resolved_list(grid, first, line, visiting, depth) {
            if let Ok(more) = resolved_list(grid, others, line, visiting, depth) {
                let all = values + more;
                assert(all.take(first.len() as int) == values);
                assert(all.skip(first.len() as int) == more);
            }
        }
    }
}

/// A cell whose text is no formula is its own value, whatever the sheet holds.
pub proof fn lemma_plain_text_is_its_own_value(
    grid: Grid,
    text: Seq<char>,
    line: usize,
    visiting: Seq<(u64, usize)>,
    depth: nat,
)
    requires
        !is_formula(text),
    ensures
        evaluated(grid, text, line, visiting, depth) == Ok::<Seq<char>, ErrorView>(text),
{
}

/// A field that names a row beyond the sheet fails with an engine error
/// that names the row, on the line behind that row.
pub proof fn lemma_field_beyond_the_rows(
    grid: Grid,
    col: Seq<char>,
    row: u64,
    value: Seq<char>,
    line: usize,
    visiting: Seq<(u64, usize)>,
    depth: nat,
)
    requires
        column_of(col) is Some,
        pending_at(grid.pending, row) is None,
        row >= grid.lines.len(),
    ensures
        resolved(grid, ExpressionView::Field { col, row, value }, line, visiting, depth) == Err::<
            ExpressionView,
            ErrorView,
        >(
            engine_error(
                invalid_row_message(row as int, row_count(grid)),
                line_of_row(row as int),
            ),
        ),
{
}

/// A field that names a column beyond the record of its row fails with an
/// engine error that names the row, the width of the record and the column.
pub proof fn lemma_field_beyond_the_columns(
    grid: Grid,
    col: Seq<char>,
    row: u64,
    value: Seq<char>,
    line: usize,
    visiting: Seq<(u64, usize)>,
    depth: nat,
)
    requires
        column_of(col) is Some,
        pending_at(grid.pending, row) is None,
        row < grid.lines.len(),
        column_of(col)->0 >= record_of(grid.lines[row as int]).len(),
    ensures
        resolved(grid, ExpressionView::Field { col, row, value }, line, visiting, depth) == Err::<
            ExpressionView,
            ErrorView,
        >(
            engine_error(
                column_message(
                    row as int,
                    record_of(grid.lines[row as int]).len(),
                    column_of(col)->0 as int,
                ),
                line_of_row(row as int),
            ),
        ),
{
}

/// A formula fails as its first argument does, where that is a field which
/// names a row beyond the sheet.
pub proof fn lemma_formula_beyond_the_rows(
    grid: Grid,
    text: Seq<char>,
    line: usize,
    visiting: Seq<(u64, usize)>,
    depth: nat,
    tokens: Seq<TokenView>,
    call: CallView,
    col: Seq<char>,
    row: u64,
    value: Seq<char>,
)
    requires
        is_formula(text),
        tokens_of(formula_of(text), line) == Ok::<Seq<TokenView>, ErrorView>(tokens),
        parsed_formula(tokens, line) == Ok::<CallView, ErrorView>(call),
        call.arguments.len() > 0,
        call.arguments[0] == (ExpressionView::Field { col, row, value }),
        column_of(col) is Some,
        pending_at(grid.pending, row) is None,
        row >= grid.lines.len(),
    ensures
        evaluated(grid, text, line, visiting, depth) == Err::<Seq<char>, ErrorView>(
            invalid_row_error(grid, row as int),
        ),
{
    lemma_field_beyond_the_rows(grid, col, row, value, line, visiting, depth);
}

/// Whether `values` hold, for each cell of `fields` that is no formula, the
/// text of the cell, up to the white space around it.
pub open spec fn plain_cells_kept(values: Seq<Seq<char>>, fields: Seq<Seq<char>>) -> bool {
    &&& values.len() == fields.len()
    &&& forall|c: int|
        0 <= c < fields.len() && !is_formula(trim(fields[c])) ==> trim(#[trigger] values[c])
            == trim(fields[c])
}

/// Whether the row computed so far for `row`, if there is one, holds the
/// cells that are no formulas as they stand in `fields`.
pub open spec fn row_keeps_plain_cells(grid: Grid, fields: Seq<Seq<char>>, row: u64) -> bool {
    match pending_at(grid.pending, row) {
        Some(values) => plain_cells_kept(values, fields),
        None => true,
    }
}

/// Where the first computed row for `row` stands, if there is one.
pub proof fn lemma_pending_index(pending: Seq<(u64, Seq<Seq<char>>)>, row: u64, from: int)
    requires
        0 <= from,
    ensures
        match pending_index(pending, row, from) {
            Some(i) => from <= i < pending.len() && pending[i].0 == row && forall|k: int|
                from <= k < i ==> (#[trigger] pending[k]).0 != row,
            None => forall|k: int| from <= k < pending.len() ==> (#[trigger] pending[k]).0 != row,
        },
    decreases pending.len() - from,
{
    if from < pending.len() && pending[from].0 != row {
        lemma_pending_index(pending, row, from + 1);
    }
}

/// The first entry for `row` at or behind `from` is the computed row.
pub proof fn lemma_pending_index_found(
    pending: Seq<(u64, Seq<Seq<char>>)>,
    row: u64,
    from: int,
    at: int,
)
    requires
        0 <= from <= at < pending.len(),
        pending[at].0 == row,
        forall|k: int| from <= k < at ==> (#[trigger] pending[k]).0 != row,
    ensures
        pending_index(pending, row, from) == Some(at),
    decreases at - from,
{
    if from < at {
        lemma_pending_index_found(pending, row, from + 1, at);
    }
}

/// After an update the computed row for `row` is the row that was kept, and
/// the lines are as before.
pub proof fn lemma_updated_row(grid: Grid, col: usize, row: u64, value: Seq<char>, line: usize)
    ensures
        updated(grid, col, row, value, line) matches Ok(next) ==> {
            &&& next.lines == grid.lines
            &&& 0 <= row < grid.lines.len()
            &&& col < record_of(grid.lines[row as int]).len()
            &&& pending_at(next.pending, row) == Some(
                match pending_at(grid.pending, row) {
                    Some(old) => merged_record(
                        record_of(grid.lines[row as int]),
                        old,
                        record_of(grid.lines[row as int]).update(col as int, value),
                    ),
                    None => record_of(grid.lines[row as int]).update(col as int, value),
                },
            )
        },
{
    if let Ok(next) = updated(grid, col, row, value, line) {
        lemma_pending_index(grid.pending, row, 0);
        match pending_index(grid.pending, row, 0) {
            Some(i) => {
                lemma_pending_index_found(next.pending, row, 0, i);
            },
            None => {
                lemma_pending_index_found(next.pending, row, 0, grid.pending.len() as int);
            },
        }
    }
}

/// Processing a row keeps its cells that are no formulas as they stand.
pub proof fn lemma_row_processed_keeps_plain_cells(
    grid: Grid,
    fields: Seq<Seq<char>>,
    row: u64,
    col: int,
)
    requires
        0 <= col,
        row < grid.lines.len(),
        fields == split(grid.lines[row as int], ','),
        fields.len() <= usize::MAX,
        row_keeps_plain_cells(grid, fields, row),
    ensures
        row_keeps_plain_cells(row_processed(grid, fields, row, col).0, fields, row),
    decreases fields.len() - col,
{
    if col < fields.len() {
        let line = line_of_row(row as int);
        let cell = trim(fields[col]);
        if let Ok(value) = evaluated(grid, cell, line, Seq::empty(), DEPTH_LIMIT as nat) {
            if value != fields[col] {
                if let Ok(next) = updated(grid, col as usize, row, value, line) {
                    lemma_updated_row(grid, col as usize, row, value, line);
                    let fixed = record_of(grid.lines[row as int]);
                    let new = fixed.update(col, value);
                    let kept = pending_at(next.pending, row)->0;
                    assert(fixed.len() == fields.len());
                    assert forall|c: int|
                        0 <= c < fields.len() && !is_formula(trim(fields[c])) implies trim(
                        #[trigger] kept[c],
                    ) == trim(fields[c]) by {
                        lemma_trim_twice(fields[c]);
                        assert(fixed[c] == trim(fields[c]));
                        assert(trim(new[c]) == trim(fields[c]));
                        match pending_at(grid.pending, row) {
                            Some(old) => {
                                let merged = merged_record(fixed, old, new);
                                assert(trim(old[c]) == trim(fields[c]));
                                assert(merged.len() == fields.len());
                                assert(merged[c] == merged_field(
                                    trim(fixed[c]),
                                    trim(old[c]),
                                    trim(new[c]),
                                ));
                                assert(kept[c] == trim(fields[c]));
                            },
                            None => {},
                        }
                    }
                    assert(plain_cells_kept(kept, fields));
                    lemma_row_processed_keeps_plain_cells(next, fields, row, col + 1);
                }
            } else {
                lemma_row_processed_keeps_plain_cells(grid, fields, row, col + 1);
            }
        }
    }
}

/// A cell whose text is no formula is written as it stands, up to the white
/// space around it: where no row was computed for `row` before, the record
/// that a step of a run writes for it holds each such cell unchanged.
pub proof fn lemma_plain_cells_are_written(grid: Grid, row: usize)
    requires
        row < grid.lines.len(),
        split(grid.lines[row as int], ',').len() <= usize::MAX,
        pending_at(grid.pending, row as u64) is None,
    ensures
        row_run(grid, row as int).written matches Some(written) ==> plain_cells_kept(
            written,
            split(grid.lines[row as int], ','),
        ),
{
    let fields = split(grid.lines[row as int], ',');
    lemma_row_processed_keeps_plain_cells(grid, fields, row as u64, 0);
}

/// The rows for which a run from row `row` on writes a record, in order.
pub open spec fn written_rows(
    lines: Seq<Seq<char>>,
    pending: Seq<(u64, Seq<Seq<char>>)>,
    row: int,
) -> Seq<int>
    decreases lines.len() - row,
{
    if 0 <= row < lines.len() {
        let step = row_run(Grid { lines, pending }, row);
        if step.failure is Some {
            Seq::empty()
        } else {
            let rest = written_rows(lines, step.grid.pending, row + 1);
            match step.written {
                Some(record) => seq![row] + rest,
                None => rest,
            }
        }
    } else {
        Seq::empty()
    }
}

/// Whether rows are computed so far for rows before `row` only.
pub open spec fn computed_before(pending: Seq<(u64, Seq<Seq<char>>)>, row: int) -> bool {
    forall|i: int| 0 <= i < pending.len() ==> (#[trigger] pending[i]).0 < row
}

/// An update for a row leaves the other rows as they are.
pub proof fn lemma_updated_keeps_computed_before(
    grid: Grid,
    col: usize,
    row: u64,
    value: Seq<char>,
    line: usize,
)
    requires
        computed_before(grid.pending, row + 1),
    ensures
        updated(grid, col, row, value, line) matches Ok(next) ==> computed_before(
            next.pending,
            row + 1,
        ),
{
    if let Ok(next) = updated(grid, col, row, value, line) {
        lemma_pending_index(grid.pending, row, 0);
    }
}

/// Processing a row computes nothing for another row.
pub proof fn lemma_row_processed_keeps_computed_before(
    grid: Grid,
    fields: Seq<Seq<char>>,
    row: u64,
    col: int,
)
    requires
        0 <= col,
        fields.len() <= usize::MAX,
        computed_before(grid.pending, row + 1),
    ensures
        computed_before(row_processed(grid, fields, row, col).0.pending, row + 1),
        row_processed(grid, fields, row, col).0.lines == grid.lines,
    decreases fields.len() - col,
{
    if col < fields.len() {
        let line = line_of_row(row as int);
        if let Ok(value) = evaluated(grid, trim(fields[col]), line, Seq::empty(), DEPTH_LIMIT as nat) {
            if value != fields[col] {
                if let Ok(next) = updated(grid, col as usize, row, value, line) {
                    lemma_updated_keeps_computed_before(grid, col as usize, row, value, line);
                    lemma_row_processed_keeps_computed_before(next, fields, row, col + 1);
                }
            } else {
                lemma_row_processed_keeps_computed_before(grid, fields, row, col + 1);
            }
        }
    }
}

/// A run of a sheet for which no row was computed before writes each cell
/// whose text is no formula as it stands, up to the white space around it:
/// every record that is written holds each such cell of its line unchanged.
pub proof fn lemma_run_writes_plain_cells(
    lines: Seq<Seq<char>>,
    pending: Seq<(u64, Seq<Seq<char>>)>,
    row: int,
)
    requires
        0 <= row,
        lines.len() <= usize::MAX,
        forall|r: int| 0 <= r < lines.len() ==> (#[trigger] split(lines[r], ',')).len()
            <= usize::MAX,
        computed_before(pending, row),
    ensures
        sheet_run(lines, pending, row).written.len() == written_rows(lines, pending, row).len(),
        forall|k: int|
            0 <= k < written_rows(lines, pending, row).len() ==> {
                let r = #[trigger] written_rows(lines, pending, row)[k];
                &&& row <= r < lines.len()
                &&& plain_cells_kept(sheet_run(lines, pending, row).written[k], split(lines[r], ','))
            },
    decreases lines.len() - row,
{
    if row < lines.len() {
        let grid = Grid { lines, pending };
        let step = row_run(grid, row);
        let fields = split(lines[row], ',');
        assert(fields.len() <= usize::MAX);
        lemma_pending_index(pending, row as u64, 0);
        assert(pending_at(pending, row as u64) is None);
        lemma_plain_cells_are_written(grid, row as usize);
        if lines[row].len() != 0 {
            lemma_row_processed_keeps_computed_before(grid, fields, row as u64, 0);
        }
        if step.failure is None {
            let next = step.grid.pending;
            lemma_run_writes_plain_cells(lines, next, row + 1);
            let rest_rows = written_rows(lines, next, row + 1);
            let rest = sheet_run(lines, next, row + 1).written;
            let rows = written_rows(lines, pending, row);
            let written = sheet_run(lines, pending, row).written;
            assert forall|k: int| 0 <= k < rows.len() implies {
                let r = #[trigger] rows[k];
                &&& row <= r < lines.len()
                &&& plain_cells_kept(written[k], split(lines[r], ','))
            } by {
                match step.written {
                    Some(record) => {
                        if k > 0 {
                            assert(rows[k] == rest_rows[k - 1]);
                            assert(written[k] == rest[k - 1]);
                        }
                    },
                    None => {},
                }
            }
        }
    }
}

/// An engine error with the message `message`.
fn engine_failure(message: String, line_number: usize) -> (e: Error)
    ensures
        e@ == engine_error(message@, line_number),
{
    Error::new(ErrorKind::Engine, message, line_number)
}

/// The line of a row, counted from 1.
fn line_of(row: u64) -> (line: usize)
    ensures
        line == line_of_row(row as int),
{
    if row < usize::MAX as u64 {
        (row + 1) as usize
    } else {
        usize::MAX
    }
}

/// The error for a column that a record does not have.
fn column_failure(row: u64, width: usize, col: usize, line_number: usize) -> (e: Error)
    ensures
        e@ == engine_error(column_message(row as int, width as nat, col as int), line_number),
{
    let mut message = String::from_str("CSV error: Record ");
    push_decimal(&mut message, row as u128);
    message.append(" has only ");
    push_decimal(&mut message, width as u128);
    message.append(" columns, cannot get column ");
    push_decimal(&mut message, col as u128);
    engine_failure(message, line_number)
}

/// Whether `visiting` holds the cell.
fn contains_cell(visiting: &Vec<(u64, usize)>, row: u64, col: usize) -> (found: bool)
    ensures
        found == visiting@.contains((row, col)),
{
    let mut i: usize = 0;
    while i < visiting.len()
        invariant
            i <= visiting.len(),
            forall|j: int| 0 <= j < i ==> visiting@[j] != (row, col),
        decreases visiting.len() - i,
    {
        if visiting[i].0 == row && visiting[i].1 == col {
            return true;
        }
        i += 1;
    }
    false
}

/// `visiting` with one more cell.
fn with_cell(visiting: &Vec<(u64, usize)>, row: u64, col: usize) -> (more: Vec<(u64, usize)>)
    ensures
        more@ == visiting@.push((row, col)),
{
    let mut more: Vec<(u64, usize)> = Vec::new();
    let mut i: usize = 0;
    while i < visiting.len()
        invariant
            i <= visiting.len(),
            more@ == visiting@.take(i as int),
        decreases visiting.len() - i,
    {
        more.push((visiting[i].0, visiting[i].1));
        i += 1;
    }
    proof {
        assert(visiting@.take(visiting.len() as int) == visiting@);
    }
    more.push((row, col));
    more
}

/// Calls the builtin function `name` on arguments that hold no call.
fn call(name: &str, arguments: Vec<Expression>, line_number: usize) -> (text: Result<
    String,
    Error,
>)
    ensures
        match text {
            Ok(t) => called(name@, expression_views(arguments@), line_number) == Ok::<
                Seq<char>,
                ErrorView,
            >(t@),
            Err(e) => called(name@, expression_views(arguments@), line_number) == Err::<
                Seq<char>,
                ErrorView,
            >(e@),
        },
{
    match call_builtin(name, arguments) {
        Some(Ok(text)) => Ok(text),
        Some(Err(failure)) => {
            let mut message = String::from_str("Builtin function error: ");
            message.append(failure.as_str());
            Err(engine_failure(message, line_number))
        },
        None => {
            let mut message = String::from_str("Unknown function ");
            message.append(name);
            Err(engine_failure(message, line_number))
        },
    }
}

/// Reduces a call to its text.
fn reduce(call: &FunctionCallExpression) -> (text: Result<String, Error>)
    ensures
        match text {
            Ok(t) => reduced(call@) == Ok::<Seq<char>, ErrorView>(t@),
            Err(e) => reduced(call@) == Err::<Seq<char>, ErrorView>(e@),
        },
    decreases call,
{
    match reduce_arguments(&call.arguments) {
        Ok(arguments) => self::call(call.name.as_str(), arguments, call.line_number),
        Err(e) => Err(e),
    }
}

/// Reduces each argument that is a call.
fn reduce_arguments(list: &Vec<Expression>) -> (reduced_list: Result<Vec<Expression>, Error>)
    ensures
        match reduced_list {
            Ok(l) => reduced_arguments(expression_views(list@)) == Ok::<
                Seq<ExpressionView>,
                ErrorView,
            >(expression_views(l@)),
            Err(e) => reduced_arguments(expression_views(list@)) == Err::<
                Seq<ExpressionView>,
                ErrorView,
            >(e@),
        },
    decreases list,
{
    let mut out: Vec<Expression> = Vec::new();
    let ghost views = expression_views(list@);
    proof {
        lemma_expression_views(list@);
        assert(views.skip(0) == views);
        assert(expression_views(out@) + views.skip(0) == views);
    }
    let mut i: usize = 0;
    while i < list.len()
        invariant
            i <= list.len(),
            views == expression_views(list@),
            views.len() == list.len(),
            forall|j: int| 0 <= j < list.len() ==> views[j] == list@[j]@,
            reduced_arguments(views) == expressions_then(
                expression_views(out@),
                reduced_arguments(views.skip(i as int)),
            ),
        decreases list.len() - i,
    {
        let ghost before = expression_views(out@);
        let ghost prior = out@;
        proof {
            let rest = views.skip(i as int);
            assert(rest[0] == list@[i as int]@);
            assert(rest.drop_first() == views.skip(i + 1));
        }
        let item = match &list[i] {
            Expression::FunctionCall(inner) => {
                assert(list@[i as int]@ == ExpressionView::FunctionCall(inner@));
                match reduce(inner) {
                    Ok(text) => parse_string_to_expression(text),
                    Err(e) => {
                        return Err(e);
                    },
                }
            },
            other => {
                assert(reduced_argument(other@) == Ok::<ExpressionView, ErrorView>(other@));
                other.clone()
            },
        };
        let ghost first = item@;
        out.push(item);
        proof {
            assert(reduced_argument(views[i as int]) == Ok::<ExpressionView, ErrorView>(first));
            assert(out@.drop_last() == prior);
            assert(expression_views(out@) == before.push(first));
            let tail = reduced_arguments(views.skip(i + 1));
            if let Ok(others) = tail {
                assert(before.push(first) + others == before + (seq![first] + others));
            }
        }
        i += 1;
    }
    proof {
        let done = expression_views(out@);
        assert(done + Seq::<ExpressionView>::empty() == done);
    }
    Ok(out)
}

impl Engine {
    /// The engine of the sheet that `csv_str` holds, with no row computed.
    pub fn new(csv_path: PathBuf, csv_str: &str) -> (engine: Result<Engine, Error>)
        ensures
            engine matches Ok(e) && e.file == csv_path && e@.lines == crate::text::lines(csv_str@)
                && e@.pending.len() == 0,
    {
        let text = chars_of(csv_str);
        let engine = Engine {
            file: csv_path,
            updated_records: Vec::new(),
            lines: split_lines(&text),
        };
        proof {
            assert(engine@.pending =~= Seq::empty());
        }
        Ok(engine)
    }

    /// The number of rows of the sheet, the header not counted.
    pub fn rows(&self) -> (rows: usize)
        ensures
            rows == row_count(self@),
    {
        if self.lines.len() > 0 {
            self.lines.len() - 1
        } else {
            0
        }
    }

    /// The error for a row that the sheet does not have.
    fn invalid_row(&self, row: u64) -> (e: Error)
        ensures
            e@ == invalid_row_error(self@, row as int),
    {
        let mut message = String::from_str("Invalid row number ");
        push_decimal(&mut message, row as u128);
        message.append(", the rows is ");
        push_decimal(&mut message, self.rows() as u128);
        engine_failure(message, line_of(row))
    }

    /// The place of the first computed row for `row`.
    fn find_pending(&self, row: u64) -> (found: Option<usize>)
        ensures
            match found {
                Some(i) => i < self.updated_records.len() && pending_index(self@.pending, row, 0)
                    == Some(i as int),
                None => pending_index(self@.pending, row, 0) is None,
            },
    {
        let mut i: usize = 0;
        while i < self.updated_records.len()
            invariant
                i <= self.updated_records.len(),
                self@.pending.len() == self.updated_records.len(),
                pending_index(self@.pending, row, 0) == pending_index(self@.pending, row, i as int),
            decreases self.updated_records.len() - i,
        {
            if self.updated_records[i].0 == row {
                return Some(i);
            }
            i += 1;
        }
        None
    }

    /// The values of a row as the sheet has them.
    fn record(&self, row: usize) -> (record: Result<Vec<String>, Error>)
        ensures
            match record {
                Ok(values) => fetched_record(self@, row as int) == Ok::<
                    Seq<Seq<char>>,
                    ErrorView,
                >(string_views(values@)),
                Err(e) => fetched_record(self@, row as int) == Err::<Seq<Seq<char>>, ErrorView>(
                    e@,
                ),
            },
    {
        if row >= self.lines.len() {
            return Err(self.invalid_row(row as u64));
        }
        let line = chars_of(self.lines[row].as_str());
        Ok(split_trimmed(&line, ','))
    }

    /// The values of a row as the sheet has them: what stands between the
    /// commas of its line, each without the white space around it. The
    /// header is row 0. A row that the sheet does not have is an error that
    /// names it. The engine stays as it is.
    pub fn get_record(&mut self, row: usize) -> (record: Result<Vec<String>, Error>)
        ensures
            *final(self) == *old(self),
            match record {
                Ok(values) => fetched_record(old(self)@, row as int) == Ok::<
                    Seq<Seq<char>>,
                    ErrorView,
                >(string_views(values@)),
                Err(e) => fetched_record(old(self)@, row as int) == Err::<
                    Seq<Seq<char>>,
                    ErrorView,
                >(e@),
            },
    {
        self.record(row)
    }

    /// Reduces a call to its text: each argument that is a call is reduced
    /// first and replaced by the value that its text stands for, then the
    /// builtin function is called.
    pub fn function_call(&mut self, function_call: FunctionCallExpression) -> (text: Result<
        String,
        Error,
    >)
        ensures
            *final(self) == *old(self),
            match text {
                Ok(t) => reduced(function_call@) == Ok::<Seq<char>, ErrorView>(t@),
                Err(e) => reduced(function_call@) == Err::<Seq<char>, ErrorView>(e@),
            },
    {
        reduce(&function_call)
    }

    /// The value of a cell with the text `field` on line `line_number`: the
    /// text itself where it is no formula, else what the formula gives.
    pub fn execute_field(&mut self, field: String, line_number: usize) -> (value: Result<
        String,
        Error,
    >)
        ensures
            *final(self) == *old(self),
            match value {
                Ok(text) => evaluated(
                    old(self)@,
                    field@,
                    line_number,
                    Seq::empty(),
                    DEPTH_LIMIT as nat,
                ) == Ok::<Seq<char>, ErrorView>(text@),
                Err(e) => evaluated(
                    old(self)@,
                    field@,
                    line_number,
                    Seq::empty(),
                    DEPTH_LIMIT as nat,
                ) == Err::<Seq<char>, ErrorView>(e@),
            },
            !is_formula(field@) ==> (value matches Ok(text) && text@ == field@),
    {
        let visiting: Vec<(u64, usize)> = Vec::new();
        self.evaluate(field.as_str(), line_number, &visiting, DEPTH_LIMIT)
    }

    /// The value of the cell in column `col` of row `row`, for a field of a
    /// formula on line `line_number`.
    pub fn get_field(&mut self, col: usize, row: u64, line_number: usize) -> (value: Result<
        String,
        Error,
    >)
        ensures
            *final(self) == *old(self),
            match value {
                Ok(text) => fetched(
                    old(self)@,
                    col,
                    row,
                    line_number,
                    Seq::empty(),
                    DEPTH_LIMIT as nat,
                ) == Ok::<Seq<char>, ErrorView>(text@),
                Err(e) => fetched(
                    old(self)@,
                    col,
                    row,
                    line_number,
                    Seq::empty(),
                    DEPTH_LIMIT as nat,
                ) == Err::<Seq<char>, ErrorView>(e@),
            },
    {
        let visiting: Vec<(u64, usize)> = Vec::new();
        self.fetch(col, row, line_number, &visiting, DEPTH_LIMIT)
    }

    /// Evaluates a cell, with the cells under evaluation and the depth left.
    fn evaluate(
        &self,
        text: &str,
        line_number: usize,
        visiting: &Vec<(u64, usize)>,
        depth: usize,
    ) -> (value: Result<String, Error>)
        ensures
            match value {
                Ok(t) => evaluated(self@, text@, line_number, visiting@, depth as nat) == Ok::<
                    Seq<char>,
                    ErrorView,
                >(t@),
                Err(e) => evaluated(self@, text@, line_number, visiting@, depth as nat) == Err::<
                    Seq<char>,
                    ErrorView,
                >(e@),
            },
        decreases depth, 2int, visiting,
    {
        let chars = chars_of(text);
        if chars.len() == 0 || chars[0] != '=' {
            return Ok(String::from_str(text));
        }
        let start = run_end(&chars, 0, CharClass::Only('='));
        let body = piece_from(&chars, start, chars.len());
        let formula = trimmed(&body);
        let tokens = match tokenize(formula.as_str(), line_number) {
            Ok(tokens) => tokens,
            Err(e) => {
                return Err(e);
            },
        };
        let ast = match parse_tokens(&tokens, line_number) {
            Ok(ast) => ast,
            Err(e) => {
                return Err(e);
            },
        };
        match self.resolve_call(&ast.function, line_number, visiting, depth) {
            Ok(resolved_function) => reduce(&resolved_function),
            Err(e) => Err(e),
        }
    }

    /// The value of a cell for a field, with the cells under evaluation and
    /// the depth left.
    fn fetch(
        &self,
        col: usize,
        row: u64,
        line_number: usize,
        visiting: &Vec<(u64, usize)>,
        depth: usize,
    ) -> (value: Result<String, Error>)
        ensures
            match value {
                Ok(t) => fetched(self@, col, row, line_number, visiting@, depth as nat) == Ok::<
                    Seq<char>,
                    ErrorView,
                >(t@),
                Err(e) => fetched(self@, col, row, line_number, visiting@, depth as nat) == Err::<
                    Seq<char>,
                    ErrorView,
                >(e@),
            },
        decreases depth, 0int, visiting,
    {
        match self.find_pending(row) {
            Some(i) => {
                let values = &self.updated_records[i].1;
                if col < values.len() {
                    Ok(values[col].clone())
                } else {
                    Err(column_failure(row, values.len(), col, line_number))
                }
            },
            None => {
                if row >= self.lines.len() as u64 {
                    return Err(self.invalid_row(row));
                }
                let values = match self.record(row as usize) {
                    Ok(values) => values,
                    Err(e) => {
                        return Err(e);
                    },
                };
                let at = line_of(row);
                if col >= values.len() {
                    Err(column_failure(row, values.len(), col, at))
                } else if contains_cell(visiting, row, col) {
                    let mut message = String::from_str("Circular reference to column ");
                    push_decimal(&mut message, col as u128);
                    message.append(" of record ");
                    push_decimal(&mut message, row as u128);
                    Err(engine_failure(message, at))
                } else if depth == 0 {
                    Err(engine_failure(String::from_str("References are nested too deeply"), at))
                } else {
                    let deeper = with_cell(visiting, row, col);
                    self.evaluate(values[col].as_str(), at, &deeper, depth - 1)
                }
            },
        }
    }

    /// Resolves an expression.
    fn resolve(
        &self,
        e: &Expression,
        line_number: usize,
        visiting: &Vec<(u64, usize)>,
        depth: usize,
    ) -> (value: Result<Expression, Error>)
        ensures
            match value {
                Ok(v) => resolved(self@, e@, line_number, visiting@, depth as nat) == Ok::<
                    ExpressionView,
                    ErrorView,
                >(v@),
                Err(err) => resolved(self@, e@, line_number, visiting@, depth as nat) == Err::<
                    ExpressionView,
                    ErrorView,
                >(err@),
            },
        decreases depth, 1int, e,
    {
        match e {
            Expression::FunctionCall(call) => match self.resolve_call(
                call,
                line_number,
                visiting,
                depth,
            ) {
                Ok(c) => Ok(Expression::FunctionCall(c)),
                Err(err) => Err(err),
            },
            Expression::Array(items) => match self.resolve_items(
                items,
                line_number,
                visiting,
                depth,
            ) {
                Ok(list) => Ok(Expression::Array(list)),
                Err(err) => Err(err),
            },
            Expression::Field { col, row, .. } => match column_index(col.as_str()) {
                None => {
                    let mut message = String::from_str("Invalid column `");
                    message.append(col.as_str());
                    message.append("`");
                    Err(engine_failure(message, line_number))
                },
                Some(c) => match self.fetch(c, *row, line_number, visiting, depth) {
                    Ok(text) => Ok(parse_string_to_expression(text)),
                    Err(err) => Err(err),
                },
            },
            other => Ok(other.clone()),
        }
    }

    /// Resolves the arguments of a call.
    fn resolve_call(
        &self,
        call: &FunctionCallExpression,
        line_number: usize,
        visiting: &Vec<(u64, usize)>,
        depth: usize,
    ) -> (value: Result<FunctionCallExpression, Error>)
        ensures
            match value {
                Ok(v) => resolved_call(self@, call@, line_number, visiting@, depth as nat) == Ok::<
                    CallView,
                    ErrorView,
                >(v@),
                Err(err) => resolved_call(self@, call@, line_number, visiting@, depth as nat)
                    == Err::<CallView, ErrorView>(err@),
            },
        decreases depth, 1int, call,
    {
        match self.resolve_list(&call.arguments, line_number, visiting, depth) {
            Ok(arguments) => Ok(
                FunctionCallExpression {
                    name: call.name.clone(),
                    arguments,
                    line_number: call.line_number,
                },
            ),
            Err(err) => Err(err),
        }
    }

    /// Resolves the expressions of a list, in order.
    fn resolve_list(
        &self,
        list: &Vec<Expression>,
        line_number: usize,
        visiting: &Vec<(u64, usize)>,
        depth: usize,
    ) -> (value: Result<Vec<Expression>, Error>)
        ensures
            match value {
                Ok(v) => resolved_list(
                    self@,
                    expression_views(list@),
                    line_number,
                    visiting@,
                    depth as nat,
                ) == Ok::<Seq<ExpressionView>, ErrorView>(expression_views(v@)),
                Err(err) => resolved_list(
                    self@,
                    expression_views(list@),
                    line_number,
                    visiting@,
                    depth as nat,
                ) == Err::<Seq<ExpressionView>, ErrorView>(err@),
            },
        decreases depth, 1int, list,
    {
        let mut out: Vec<Expression> = Vec::new();
        let ghost views = expression_views(list@);
        proof {
            lemma_expression_views(list@);
            assert(views.skip(0) == views);
        }
        let mut i: usize = 0;
        while i < list.len()
            invariant
                i <= list.len(),
                views == expression_views(list@),
                views.len() == list.len(),
                forall|j: int| 0 <= j < list.len() ==> views[j] == list@[j]@,
                resolved_list(self@, views, line_number, visiting@, depth as nat)
                    == expressions_then(
                    expression_views(out@),
                    resolved_list(
                        self@,
                        views.skip(i as int),
                        line_number,
                        visiting@,
                        depth as nat,
                    ),
                ),
            decreases list.len() - i,
        {
            let ghost before = expression_views(out@);
            let ghost prior = out@;
            let item = match self.resolve(&list[i], line_number, visiting, depth) {
                Ok(item) => item,
                Err(e) => {
                    return Err(e);
                },
            };
            let ghost first = item@;
            out.push(item);
            proof {
                let rest = views.skip(i as int);
                assert(rest[0] == views[i as int]);
                assert(rest.drop_first() == views.skip(i + 1));
                assert(out@.drop_last() == prior);
                assert(expression_views(out@) == before.push(first));
                let tail = resolved_list(
                    self@,
                    views.skip(i + 1),
                    line_number,
                    visiting@,
                    depth as nat,
                );
                if let Ok(others) = tail {
                    assert(before.push(first) + others == before + (seq![first] + others));
                }
            }
            i += 1;
        }
        proof {
            let done = expression_views(out@);
            assert(done + Seq::<ExpressionView>::empty() == done);
        }
        Ok(out)
    }

    /// Resolves the items of an array, in order, and reduces those that are calls.
    fn resolve_items(
        &self,
        list: &Vec<Expression>,
        line_number: usize,
        visiting: &Vec<(u64, usize)>,
        depth: usize,
    ) -> (value: Result<Vec<Expression>, Error>)
        ensures
            match value {
                Ok(v) => resolved_items(
                    self@,
                    expression_views(list@),
                    line_number,
                    visiting@,
                    depth as nat,
                ) == Ok::<Seq<ExpressionView>, ErrorView>(expression_views(v@)),
                Err(err) => resolved_items(
                    self@,
                    expression_views(list@),
                    line_number,
                    visiting@,
                    depth as nat,
                ) == Err::<Seq<ExpressionView>, ErrorView>(err@),
            },
        decreases depth, 1int, list,
    {
        let mut out: Vec<Expression> = Vec::new();
        let ghost views = expression_views(list@);
        proof {
            lemma_expression_views(list@);
            assert(views.skip(0) == views);
        }
        let mut i: usize = 0;
        while i < list.len()
            invariant
                i <= list.len(),
                views == expression_views(list@),
                views.len() == list.len(),
                forall|j: int| 0 <= j < list.len() ==> views[j] == list@[j]@,
                resolved_items(self@, views, line_number, visiting@, depth as nat)
                    == expressions_then(
                    expression_views(out@),
                    resolved_items(
                        self@,
                        views.skip(i as int),
                        line_number,
                        visiting@,
                        depth as nat,
                    ),
                ),
            decreases list.len() - i,
        {
            let ghost before = expression_views(out@);
            let ghost prior = out@;
            proof {
                let rest = views.skip(i as int);
                assert(rest[0] == list@[i as int]@);
                assert(rest.drop_first() == views.skip(i + 1));
            }
            let item = match &list[i] {
                Expression::FunctionCall(call) => {
                    assert(list@[i as int]@ == ExpressionView::FunctionCall(call@));
                    let resolved_function = match self.resolve_call(
                        call,
                        line_number,
                        visiting,
                        depth,
                    ) {
                        Ok(c) => c,
                        Err(e) => {
                            return Err(e);
                        },
                    };
                    match reduce(&resolved_function) {
                        Ok(text) => parse_string_to_expression(text),
                        Err(e) => {
                            return Err(e);
                        },
                    }
                },
                other => match self.resolve(other, line_number, visiting, depth) {
                    Ok(item) => item,
                    Err(e) => {
                        return Err(e);
                    },
                },
            };
            let ghost first = item@;
            out.push(item);
            proof {
                assert(out@.drop_last() == prior);
                assert(expression_views(out@) == before.push(first));
                let tail = resolved_items(
                    self@,
                    views.skip(i + 1),
                    line_number,
                    visiting@,
                    depth as nat,
                );
                if let Ok(others) = tail {
                    assert(before.push(first) + others == before + (seq![first] + others));
                }
            }
            i += 1;
        }
        proof {
            let done = expression_views(out@);
            assert(done + Seq::<ExpressionView>::empty() == done);
        }
        Ok(out)
    }

    /// Keeps the value computed for one cell. The row that is kept is the
    /// row of the sheet with the column replaced, reconciled with the row as
    /// computed so far, where there is one. On an error nothing changes.
    pub fn update_field(
        &mut self,
        col: usize,
        row: u64,
        value: String,
        line_number: usize,
    ) -> (done: Result<(), Error>)
        ensures
            match done {
                Ok(_) => updated(old(self)@, col, row, value@, line_number) == Ok::<
                    Grid,
                    ErrorView,
                >(final(self)@),
                Err(e) => updated(old(self)@, col, row, value@, line_number) == Err::<
                    Grid,
                    ErrorView,
                >(e@) && final(self)@ == old(self)@,
            },
    {
        if row >= self.lines.len() as u64 {
            return Err(self.invalid_row(row));
        }
        let fixed = match self.record(row as usize) {
            Ok(values) => values,
            Err(e) => {
                return Err(e);
            },
        };
        if fixed.len() <= col {
            let mut message = String::from_str("CSV error: Record ");
            push_decimal(&mut message, row as u128);
            message.append(" has only ");
            push_decimal(&mut message, fixed.len() as u128);
            message.append(" columns, cannot update column ");
            push_decimal(&mut message, col as u128 + 1);
            return Err(engine_failure(message, line_number));
        }
        let mut new_record = copy_record(&fixed);
        new_record[col] = value;
        proof {
            assert(string_views(new_record@) =~= string_views(fixed@).update(col as int, value@));
        }
        let ghost before = self@;
        match self.find_pending(row) {
            Some(i) => {
                let old_record = copy_record(&self.updated_records[i].1);
                let merged = compare_records(fixed, old_record, new_record);
                self.updated_records[i] = (row, merged);
                proof {
                    assert(self@.pending =~= before.pending.update(
                        i as int,
                        (row, string_views(merged@)),
                    ));
                }
            },
            None => {
                self.updated_records.push((row, new_record));
                proof {
                    assert(self@.pending =~= before.pending.push((row, string_views(new_record@))));
                }
            },
        }
        Ok(())
    }

    /// One step of a run: evaluates the cells of a row in order, keeps the
    /// values that differ from what stands in the line, and returns what is
    /// to be written for the row; nothing is written for an empty line. At
    /// the first failure the step stops, and what it kept by then stays.
    pub fn run_row(&mut self, row: usize) -> (written: Result<Option<Vec<String>>, Error>)
        ensures
            final(self)@ == row_run(old(self)@, row as int).grid,
            final(self)@.lines == old(self)@.lines,
            match written {
                Ok(Some(record)) => row_run(old(self)@, row as int).failure is None && row_run(
                    old(self)@,
                    row as int,
                ).written == Some(string_views(record@)),
                Ok(None) => row_run(old(self)@, row as int).failure is None && row_run(
                    old(self)@,
                    row as int,
                ).written is None,
                Err(e) => row_run(old(self)@, row as int).failure == Some(e@),
            },
    {
        if row >= self.lines.len() {
            return Err(self.invalid_row(row as u64));
        }
        let line = chars_of(self.lines[row].as_str());
        if line.len() == 0 {
            return Ok(None);
        }
        let fields = split_untrimmed(&line, ',');
        let line_number = line_of(row as u64);
        let ghost start = self@;
        let ghost raw = split(line@, ',');
        let mut col: usize = 0;
        while col < fields.len()
            invariant
                col <= fields.len(),
                string_views(fields@) == raw,
                line_number == line_of_row(row as int),
                start == old(self)@,
                self@.lines == start.lines,
                row < start.lines.len(),
                start.lines[row as int].len() != 0,
                raw == split(start.lines[row as int], ','),
                row_processed(start, raw, row as u64, 0) == row_processed(
                    self@,
                    raw,
                    row as u64,
                    col as int,
                ),
            decreases fields.len() - col,
        {
            let cell = trimmed_str(fields[col].as_str());
            let value = match self.evaluate(
                cell.as_str(),
                line_number,
                &Vec::new(),
                DEPTH_LIMIT,
            ) {
                Ok(value) => value,
                Err(e) => {
                    return Err(e);
                },
            };
            if value != fields[col] {
                match self.update_field(col, row as u64, value, line_number) {
                    Ok(_) => {},
                    Err(e) => {
                        return Err(e);
                    },
                }
            }
            col += 1;
        }
        match self.find_pending(row as u64) {
            Some(i) => Ok(Some(copy_record(&self.updated_records[i].1))),
            None => Ok(Some(fields)),
        }
    }

    /// Runs the whole sheet, row by row from the header on, up to the first
    /// failure: returns the records to be written, and that failure.
    pub fn run(&mut self) -> (outcome: (Vec<Vec<String>>, Option<Error>))
        ensures
            final(self)@.lines == old(self)@.lines,
            final(self)@.pending == sheet_run(old(self)@.lines, old(self)@.pending, 0).pending,
            record_views(outcome.0@) == sheet_run(old(self)@.lines, old(self)@.pending, 0).written,
            match outcome.1 {
                Some(e) => sheet_run(old(self)@.lines, old(self)@.pending, 0).failure == Some(e@),
                None => sheet_run(old(self)@.lines, old(self)@.pending, 0).failure is None,
            },
    {
        let mut records: Vec<Vec<String>> = Vec::new();
        let ghost lines = self@.lines;
        let ghost whole = sheet_run(lines, self@.pending, 0);
        let mut row: usize = 0;
        while row < self.lines.len()
            invariant
                row <= self.lines.len(),
                self@.lines == lines,
                lines == old(self)@.lines,
                whole == sheet_run(old(self)@.lines, old(self)@.pending, 0),
                whole.written == record_views(records@) + sheet_run(
                    lines,
                    self@.pending,
                    row as int,
                ).written,
                whole.pending == sheet_run(lines, self@.pending, row as int).pending,
                whole.failure == sheet_run(lines, self@.pending, row as int).failure,
            decreases self.lines.len() - row,
        {
            let ghost before = record_views(records@);
            proof {
                assert(self@ == Grid { lines, pending: self@.pending });
            }
            match self.run_row(row) {
                Ok(Some(record)) => {
                    let ghost written = string_views(record@);
                    records.push(record);
                    proof {
                        assert(record_views(records@) =~= before.push(written));
                        let rest = sheet_run(lines, self@.pending, row + 1).written;
                        assert(before.push(written) + rest == before + (seq![written] + rest));
                    }
                },
                Ok(None) => {},
                Err(e) => {
                    proof {
                        assert(before + Seq::<Seq<Seq<char>>>::empty() == before);
                    }
                    return (records, Some(e));
                },
            }
            row += 1;
        }
        proof {
            let done = record_views(records@);
            assert(done + Seq::<Seq<Seq<char>>>::empty() == done);
        }
        (records, None)
    }
}

/// Whether the records written so far are to be flushed behind row `row`:
/// behind every hundredth row, the header first.
pub fn is_flush_row(row: usize) -> (due: bool)
    ensures
        due == (row % 100 == 0),
{
    row % 100 == 0
}

/// A copy of a record.
fn copy_record(record: &Vec<String>) -> (copy: Vec<String>)
    ensures
        string_views(copy@) == string_views(record@),
        copy.len() == record.len(),
{
    let mut copy: Vec<String> = Vec::new();
    let mut i: usize = 0;
    while i < record.len()
        invariant
            i <= record.len(),
            copy.len() == i,
            forall|j: int| 0 <= j < i ==> copy@[j]@ == record@[j]@,
        decreases record.len() - i,
    {
        copy.push(record[i].clone());
        i += 1;
    }
    proof {
        assert(string_views(copy@) =~= string_views(record@));
    }
    copy
}

} // verus!
