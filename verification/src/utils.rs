//! Column labels, the reconciliation of a row, and the reading of a value.

use vstd::prelude::*;
use crate::ast::{Expression, ExpressionView};
use crate::decimal::{decimal_parse, Decimal};
use crate::text::{chars_of, is_letter, is_letter_char, string_views, trim, trimmed_str};

verus! {

/// The number for which a letter stands in a column label: `A` is 1, `B` is
/// 2, and so on by code point.
pub open spec fn letter_number(c: char) -> int {
    c as int - 64
}

/// The number that a column label writes in base 26: `A` is 1, `Z` is 26,
/// `AA` is 27.
pub open spec fn label_number(label: Seq<char>) -> int
    decreases label.len(),
{
    if label.len() == 0 {
        0
    } else {
        label_number(label.drop_last()) * 26 + letter_number(label.last())
    }
}

/// Whether a text is a column label: letters, at least one.
pub open spec fn is_label(label: Seq<char>) -> bool {
    label.len() > 0 && forall|i: int| 0 <= i < label.len() ==> is_letter(#[trigger] label[i])
}

/// The index of the column that a label names, from 0.
pub open spec fn label_index(label: Seq<char>) -> int {
    label_number(label) - 1
}

/// The index of the column that a text names, where it is a label and the
/// index fits.
pub open spec fn column_of(label: Seq<char>) -> Option<usize> {
    if is_label(label) && label_index(label) <= usize::MAX {
        Some(label_index(label) as usize)
    } else {
        None
    }
}

/// What is kept of one column when a row is reconciled: the earlier value
/// where this round left the column as it was and an earlier round had
/// changed it, the new value otherwise.
pub open spec fn merged_field(fixed: Seq<char>, old: Seq<char>, new: Seq<char>) -> Seq<char> {
    if new == fixed && new != old {
        old
    } else {
        new
    }
}

/// The reconciled row, column by column, as far as the three records all
/// reach; each value is taken without the white space around it.
pub open spec fn merged_record(
    fixed: Seq<Seq<char>>,
    old: Seq<Seq<char>>,
    new: Seq<Seq<char>>,
) -> Seq<Seq<char>> {
    let width = if fixed.len() <= old.len() && fixed.len() <= new.len() {
        fixed.len()
    } else if old.len() <= new.len() {
        old.len()
    } else {
        new.len()
    };
    Seq::new(width, |i: int| merged_field(trim(fixed[i]), trim(old[i]), trim(new[i])))
}

/// The value that a text stands for: a number where the text is one, the
/// text itself otherwise.
pub open spec fn reparsed(text: Seq<char>) -> ExpressionView {
    match decimal_parse(text) {
        Some(number) => ExpressionView::Number(number),
        None => ExpressionView::String(text),
    }
}

/// Reconciling a row never loses what an earlier round computed for another
/// column: where the new record is the record of the sheet with one column
/// replaced, every other column keeps its earlier value.
pub proof fn lemma_update_keeps_other_columns(
    fixed: Seq<Seq<char>>,
    old: Seq<Seq<char>>,
    col: int,
    value: Seq<char>,
    other: int,
)
    requires
        old.len() == fixed.len(),
        0 <= col < fixed.len(),
        0 <= other < fixed.len(),
        other != col,
    ensures
        merged_record(fixed, old, fixed.update(col, value)).len() == fixed.len(),
        merged_record(fixed, old, fixed.update(col, value))[other] == trim(old[other]),
{
}

/// The column that a round replaces takes the new value, unless the new
/// value is what the sheet has: then it keeps its earlier value.
pub proof fn lemma_update_sets_its_column(
    fixed: Seq<Seq<char>>,
    old: Seq<Seq<char>>,
    col: int,
    value: Seq<char>,
)
    requires
        old.len() == fixed.len(),
        0 <= col < fixed.len(),
    ensures
        trim(value) != trim(fixed[col]) ==> merged_record(fixed, old, fixed.update(col, value))[col]
            == trim(value),
        trim(value) == trim(fixed[col]) ==> merged_record(fixed, old, fixed.update(col, value))[col]
            == trim(old[col]),
{
}

/// The number of a label grows with each letter, and is at least its length.
proof fn lemma_label_number_grows(label: Seq<char>, k: int)
    requires
        0 <= k <= label.len(),
        forall|i: int| 0 <= i < label.len() ==> is_letter(#[trigger] label[i]),
    ensures
        0 <= label_number(label.take(k)) <= label_number(label),
        label.len() > 0 ==> label_number(label) >= 1,
    decreases label.len(),
{
    if label.len() > 0 {
        let front = label.drop_last();
        assert(is_letter(label[label.len() - 1]));
        if k < label.len() {
            assert(front.take(k) == label.take(k));
            lemma_label_number_grows(front, k);
        } else {
            assert(label.take(k) == label);
            lemma_label_number_grows(front, front.len() as int);
            assert(front.take(front.len() as int) == front);
        }
    } else {
        assert(label.take(k) == label);
    }
}

/// The index of the column that a text names, from 0: `None` where the text
/// is no label or the index does not fit.
pub fn column_index(alpha: &str) -> (col: Option<usize>)
    ensures
        col == column_of(alpha@),
{
    let label = chars_of(alpha);
    if label.len() == 0 {
        return None;
    }
    let mut number: u128 = 0;
    let mut i: usize = 0;
    while i < label.len()
        invariant
            i <= label.len(),
            label@ == alpha@,
            label.len() > 0,
            forall|j: int| 0 <= j < i ==> is_letter(#[trigger] label@[j]),
            number == label_number(label@.take(i as int)),
            number <= usize::MAX + 1,
        decreases label.len() - i,
    {
        let c = label[i];
        if !is_letter_char(c) {
            return None;
        }
        let digit: u128 = (c as u32 - 64) as u128;
        proof {
            let now = label@.take(i + 1);
            assert(now.drop_last() == label@.take(i as int));
            assert(now.last() == c);
        }
        number = number * 26 + digit;
        if number > usize::MAX as u128 + 1 {
            proof {
                if forall|j: int| 0 <= j < label.len() ==> is_letter(#[trigger] label@[j]) {
                    lemma_label_number_grows(label@, i + 1);
                }
            }
            return None;
        }
        i += 1;
    }
    proof {
        assert(label@.take(i as int) == label@);
        lemma_label_number_grows(label@, 0);
    }
    Some((number - 1) as usize)
}

/// The index of the column that a label names, from 0: `A` gives 0, `Z`
/// gives 25, `AA` gives 26.
pub fn col_number_from_alpha(alpha: &str) -> (col: usize)
    requires
        is_label(alpha@),
        label_index(alpha@) <= usize::MAX,
    ensures
        col == label_index(alpha@),
{
    proof {
        lemma_label_number_grows(alpha@, 0);
    }
    match column_index(alpha) {
        Some(col) => col,
        None => 0,
    }
}

/// Reconciles a row. `static_record` is the row as the sheet has it,
/// `old_record` the row as earlier rounds left it, `new_record` the row of
/// the sheet with the column of this round replaced. A column that this
/// round did not touch keeps what an earlier round computed for it.
pub fn compare_records(
    static_record: Vec<String>,
    old_record: Vec<String>,
    new_record: Vec<String>,
) -> (merged: Vec<String>)
    ensures
        string_views(merged@) == merged_record(
            string_views(static_record@),
            string_views(old_record@),
            string_views(new_record@),
        ),
{
    let mut width = static_record.len();
    if old_record.len() < width {
        width = old_record.len();
    }
    if new_record.len() < width {
        width = new_record.len();
    }
    let mut merged: Vec<String> = Vec::new();
    let mut i: usize = 0;
    while i < width
        invariant
            i <= width,
            width <= static_record.len(),
            width <= old_record.len(),
            width <= new_record.len(),
            merged.len() == i,
            forall|j: int|
                0 <= j < i ==> (#[trigger] merged@[j])@ == merged_field(
                    trim(static_record@[j]@),
                    trim(old_record@[j]@),
                    trim(new_record@[j]@),
                ),
        decreases width - i,
    {
        let fixed = trimmed_str(static_record[i].as_str());
        let old = trimmed_str(old_record[i].as_str());
        let new = trimmed_str(new_record[i].as_str());
        if new == fixed && new != old {
            merged.push(old);
        } else {
            merged.push(new);
        }
        i += 1;
    }
    proof {
        assert(string_views(merged@) =~= merged_record(
            string_views(static_record@),
            string_views(old_record@),
            string_views(new_record@),
        ));
    }
    merged
}

/// Reads a value: a number where the text is one, the text itself otherwise.
pub fn parse_string_to_expression(string: String) -> (value: Expression)
    ensures
        value@ == reparsed(string@),
{
    match Decimal::parse(string.as_str()) {
        Some(number) => Expression::Number(number),
        None => Expression::String(string),
    }
}

} // verus!
