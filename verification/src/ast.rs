//! The syntax tree of a formula.

use vstd::prelude::*;
use crate::builtins::{is_builtin, is_builtin_name};
use crate::decimal::{decimal_text, Decimal};

verus! {

/// An expression of a formula.
#[derive(Debug, PartialEq, Eq)]
pub enum Expression {
    /// A function call, such as `sum(a1; sum(a2; a3))`.
    FunctionCall(FunctionCallExpression),
    /// A field, such as `a1`: the letters of its column, the number of its
    /// row, which starts at 1, and the text that stands for it.
    Field { col: String, row: u64, value: String },
    /// A number, such as `1`, `-2` or `1.10`.
    Number(Decimal),
    /// A string, such as `"hello"`.
    String(String),
    /// `true` or `false`.
    Boolean(bool),
    /// An array, such as `[1; 2; sum(a1; a2)]`.
    Array(Vec<Expression>),
}

/// A function call: the name, the arguments in order, and the line of the cell.
#[derive(Debug, PartialEq, Eq)]
pub struct FunctionCallExpression {
    pub name: String,
    pub arguments: Vec<Expression>,
    pub line_number: usize,
}

/// The syntax tree of a formula: one function call.
#[derive(Debug, PartialEq, Eq)]
pub struct Ast {
    pub function: FunctionCallExpression,
}

/// The mathematical value of an [`Expression`].
pub enum ExpressionView {
    FunctionCall(CallView),
    Field { col: Seq<char>, row: u64, value: Seq<char> },
    Number((Seq<u8>, int)),
    String(Seq<char>),
    Boolean(bool),
    Array(Seq<ExpressionView>),
}

/// The mathematical value of a [`FunctionCallExpression`].
pub struct CallView {
    pub name: Seq<char>,
    pub arguments: Seq<ExpressionView>,
    pub line_number: usize,
}

/// The mathematical value of an expression.
pub open spec fn expression_view(e: Expression) -> ExpressionView
    decreases e,
{
    match e {
        Expression::FunctionCall(call) => ExpressionView::FunctionCall(call_view(call)),
        Expression::Field { col, row, value } => ExpressionView::Field {
            col: col@,
            row,
            value: value@,
        },
        Expression::Number(number) => ExpressionView::Number(number@),
        Expression::String(text) => ExpressionView::String(text@),
        Expression::Boolean(b) => ExpressionView::Boolean(b),
        Expression::Array(items) => ExpressionView::Array(expression_views(items@)),
    }
}

/// The mathematical value of a call.
pub open spec fn call_view(call: FunctionCallExpression) -> CallView
    decreases call,
{
    CallView {
        name: call.name@,
        arguments: expression_views(call.arguments@),
        line_number: call.line_number,
    }
}

/// The mathematical values of the expressions of a list.
pub open spec fn expression_views(list: Seq<Expression>) -> Seq<ExpressionView>
    decreases list,
{
    if list.len() == 0 {
        Seq::empty()
    } else {
        expression_views(list.drop_last()).push(expression_view(list.last()))
    }
}

impl View for Expression {
    type V = ExpressionView;

    open spec fn view(&self) -> ExpressionView {
        expression_view(*self)
    }
}

impl View for FunctionCallExpression {
    type V = CallView;

    open spec fn view(&self) -> CallView {
        call_view(*self)
    }
}

impl View for Ast {
    type V = CallView;

    open spec fn view(&self) -> CallView {
        call_view(self.function)
    }
}

/// The views of a list are the views of its items.
pub proof fn lemma_expression_views(list: Seq<Expression>)
    ensures
        expression_views(list).len() == list.len(),
        forall|i: int| 0 <= i < list.len() ==> expression_views(list)[i] == list[i]@,
    decreases list.len(),
{
    if list.len() > 0 {
        lemma_expression_views(list.drop_last());
    }
}

/// The words that stand before the name of a call when it is written out.
pub open spec fn call_prefix(name: Seq<char>) -> Seq<char> {
    if is_builtin_name(name) {
        "builtin function: "@
    } else {
        "function: "@
    }
}

/// The text of an expression.
pub open spec fn display(e: ExpressionView) -> Seq<char>
    decreases e,
{
    match e {
        ExpressionView::FunctionCall(call) => display_call(call),
        ExpressionView::Field { col, row, value } => value,
        ExpressionView::Number(number) => decimal_text(number),
        ExpressionView::String(text) => text,
        ExpressionView::Boolean(b) => if b {
            "true"@
        } else {
            "false"@
        },
        ExpressionView::Array(items) => "["@ + display_list(items) + "]"@,
    }
}

/// The text of a call: whether it is a builtin, its name, and its arguments
/// in round brackets.
pub open spec fn display_call(call: CallView) -> Seq<char>
    decreases call,
{
    call_prefix(call.name) + call.name + "("@ + display_list(call.arguments) + ")"@
}

/// The texts of the expressions, with a comma and a space between two of them.
pub open spec fn display_list(list: Seq<ExpressionView>) -> Seq<char>
    decreases list,
{
    if list.len() == 0 {
        Seq::empty()
    } else if list.len() == 1 {
        display(list[0])
    } else {
        display_list(list.drop_last()) + ", "@ + display(list.last())
    }
}

/// Writes the expressions out, with a comma and a space between two of them.
pub fn list_to_string(list: &Vec<Expression>) -> (text: String)
    ensures
        text@ == display_list(expression_views(list@)),
    decreases list,
{
    let mut text = String::new();
    let ghost views = expression_views(list@);
    proof {
        lemma_expression_views(list@);
    }
    let mut i: usize = 0;
    while i < list.len()
        invariant
            i <= list.len(),
            views == expression_views(list@),
            views.len() == list.len(),
            forall|j: int| 0 <= j < list.len() ==> views[j] == list@[j]@,
            text@ == display_list(views.take(i as int)),
        decreases list.len() - i,
    {
        if i > 0 {
            text.append(", ");
        }
        let item = list[i].to_string();
        text.append(item.as_str());
        proof {
            let now = views.take(i + 1);
            assert(now.drop_last() == views.take(i as int));
            assert(now.last() == views[i as int]);
            if i == 0 {
                assert(text@ == display(views[0]));
            }
        }
        i += 1;
    }
    proof {
        assert(views.take(list.len() as int) == views);
    }
    text
}

impl Expression {
    /// The call, if the expression is one.
    pub fn function_call(&self) -> (call: Option<&FunctionCallExpression>)
        ensures
            match self {
                Expression::FunctionCall(c) => call == Some(c),
                _ => call is None,
            },
    {
        match self {
            Expression::FunctionCall(call) => Some(call),
            _ => None,
        }
    }

    /// Writes the expression out.
    pub fn to_string(&self) -> (text: String)
        ensures
            text@ == display(self@),
        decreases self,
    {
        match self {
            Expression::FunctionCall(call) => call.to_string(),
            Expression::Field { value, .. } => value.clone(),
            Expression::Number(number) => number.to_string(),
            Expression::String(text) => text.clone(),
            Expression::Boolean(b) => if *b {
                String::from_str("true")
            } else {
                String::from_str("false")
            },
            Expression::Array(items) => {
                let mut text = String::from_str("[");
                let inner = list_to_string(items);
                text.append(inner.as_str());
                text.append("]");
                text
            },
        }
    }
}

impl FunctionCallExpression {
    /// Writes the call out.
    pub fn to_string(&self) -> (text: String)
        ensures
            text@ == display_call(self@),
        decreases self,
    {
        let mut text = if is_builtin(self.name.as_str()) {
            String::from_str("builtin function: ")
        } else {
            String::from_str("function: ")
        };
        text.append(self.name.as_str());
        text.append("(");
        let inner = list_to_string(&self.arguments);
        text.append(inner.as_str());
        text.append(")");
        text
    }
}

impl Clone for Expression {
    fn clone(&self) -> (copy: Expression)
        ensures
            copy@ == self@,
        decreases self,
    {
        match self {
            Expression::FunctionCall(call) => Expression::FunctionCall(call.clone()),
            Expression::Field { col, row, value } => Expression::Field {
                col: col.clone(),
                row: *row,
                value: value.clone(),
            },
            Expression::Number(number) => Expression::Number(number.clone()),
            Expression::String(text) => Expression::String(text.clone()),
            Expression::Boolean(b) => Expression::Boolean(*b),
            Expression::Array(items) => Expression::Array(clone_list(items)),
        }
    }
}

impl Clone for FunctionCallExpression {
    fn clone(&self) -> (copy: FunctionCallExpression)
        ensures
            copy@ == self@,
        decreases self,
    {
        FunctionCallExpression {
            name: self.name.clone(),
            arguments: clone_list(&self.arguments),
            line_number: self.line_number,
        }
    }
}

impl Clone for Ast {
    fn clone(&self) -> (copy: Ast)
        ensures
            copy@ == self@,
    {
        Ast { function: self.function.clone() }
    }
}

/// A copy of each expression.
pub fn clone_list(list: &Vec<Expression>) -> (copy: Vec<Expression>)
    ensures
        expression_views(copy@) == expression_views(list@),
    decreases list,
{
    let mut copy: Vec<Expression> = Vec::new();
    let mut i: usize = 0;
    while i < list.len()
        invariant
            i <= list.len(),
            copy.len() == i,
            forall|j: int| 0 <= j < i ==> copy@[j]@ == list@[j]@,
        decreases list.len() - i,
    {
        copy.push(list[i].clone());
        i += 1;
    }
    proof {
        lemma_expression_views(list@);
        lemma_expression_views(copy@);
        assert(expression_views(copy@) =~= expression_views(list@));
    }
    copy
}

/// The leaves of an expression, in order: the fields, numbers, strings and
/// booleans in it. A call and an array are no leaves; their leaves are
/// those of their arguments and items.
pub open spec fn leaves(e: ExpressionView) -> Seq<ExpressionView>
    decreases e,
{
    match e {
        ExpressionView::FunctionCall(call) => leaves_of(call.arguments),
        ExpressionView::Array(items) => leaves_of(items),
        other => seq![other],
    }
}

/// The leaves of the expressions of a list, in order.
pub open spec fn leaves_of(list: Seq<ExpressionView>) -> Seq<ExpressionView>
    decreases list,
{
    if list.len() == 0 {
        Seq::empty()
    } else {
        leaves(list[0]) + leaves_of(list.drop_first())
    }
}

/// An expression with `values` in the place of its leaves, in order.
pub open spec fn with_leaves(e: ExpressionView, values: Seq<ExpressionView>) -> ExpressionView
    decreases e,
{
    match e {
        ExpressionView::FunctionCall(call) => ExpressionView::FunctionCall(
            CallView {
                name: call.name,
                arguments: list_with_leaves(call.arguments, values),
                line_number: call.line_number,
            },
        ),
        ExpressionView::Array(items) => ExpressionView::Array(list_with_leaves(items, values)),
        other => values[0],
    }
}

/// The expressions of a list with `values` in the place of their leaves, in order.
pub open spec fn list_with_leaves(list: Seq<ExpressionView>, values: Seq<ExpressionView>) -> Seq<
    ExpressionView,
>
    decreases list,
{
    if list.len() == 0 {
        Seq::empty()
    } else {
        let n = leaves(list[0]).len() as int;
        seq![with_leaves(list[0], values.take(n))] + list_with_leaves(
            list.drop_first(),
            values.skip(n),
        )
    }
}

/// Whether the expression holds no field.
pub open spec fn holds_no_field(e: ExpressionView) -> bool
    decreases e,
{
    match e {
        ExpressionView::FunctionCall(call) => hold_no_field(call.arguments),
        ExpressionView::Array(items) => hold_no_field(items),
        ExpressionView::Field { col, row, value } => false,
        other => true,
    }
}

/// Whether the expressions of a list hold no field.
pub open spec fn hold_no_field(list: Seq<ExpressionView>) -> bool
    decreases list,
{
    list.len() == 0 || (holds_no_field(list[0]) && hold_no_field(list.drop_first()))
}

/// Whether no array in the expression has a call among its items.
pub open spec fn has_no_call_in_an_array(e: ExpressionView) -> bool
    decreases e,
{
    match e {
        ExpressionView::FunctionCall(call) => have_no_call_in_an_array(call.arguments),
        ExpressionView::Array(items) => is_free_of_calls(items) && have_no_call_in_an_array(items),
        other => true,
    }
}

/// Whether no array in the expressions of a list has a call among its items.
pub open spec fn have_no_call_in_an_array(list: Seq<ExpressionView>) -> bool
    decreases list,
{
    list.len() == 0 || (has_no_call_in_an_array(list[0]) && have_no_call_in_an_array(
        list.drop_first(),
    ))
}

/// Whether no expression of a list is a call.
pub open spec fn is_free_of_calls(list: Seq<ExpressionView>) -> bool {
    forall|i: int| 0 <= i < list.len() ==> !(#[trigger] list[i] is FunctionCall)
}

/// The values to which the references point now.
pub open spec fn current_views(children: Seq<&mut Expression>) -> Seq<ExpressionView> {
    Seq::new(children.len(), |i: int| (*children[i])@)
}

/// References to the leaves of the expressions of a slice, in order.
pub fn slice_children<'a>(list: &'a mut [Expression]) -> (children: Vec<&'a mut Expression>)
    ensures
        current_views(children@) == leaves_of(expression_views(old(list)@)),
        expression_views(final(list)@) == list_with_leaves(
            expression_views(old(list)@),
            Seq::new(children@.len(), |i: int| (*final(children@[i]))@),
        ),
    decreases old(list)@,
{
    if list.len() == 0 {
        let children: Vec<&'a mut Expression> = Vec::new();
        proof {
            assert(current_views(children@) =~= Seq::empty());
            assert(final(list)@ =~= old(list)@);
        }
        return children;
    }
    let ghost before = list@;
    let ghost after = final(list)@;
    let (head, tail) = list.split_at_mut(1);
    let ghost tail_before = tail@;
    let ghost tail_after = final(tail)@;
    let first = head.first_mut().unwrap();
    let ghost first_before = *first;
    let ghost first_after = *final(first);
    let mut children = first.mut_children();
    let mut rest = slice_children(tail);
    let ghost head_children = children@;
    let ghost tail_children = rest@;
    children.append(&mut rest);
    proof {
        lemma_expression_views(before);
        lemma_expression_views(tail_before);
        let views = expression_views(before);
        assert(children@ == head_children + tail_children);
        assert(current_views(children@) =~= current_views(head_children) + current_views(
            tail_children,
        ));
        assert(tail_before == before.subrange(1, before.len() as int));
        assert(first_before == before[0]);
        assert(views[0] == first_before@);
        assert(views.drop_first() =~= expression_views(tail_before));
        let finals = Seq::new(children@.len(), |i: int| (*final(children@[i]))@);
        let head_finals = Seq::new(head_children.len(), |i: int| (*final(head_children[i]))@);
        let tail_finals = Seq::new(tail_children.len(), |i: int| (*final(tail_children[i]))@);
        let n = leaves(views[0]).len() as int;
        assert(current_views(head_children).len() == n);
        assert(finals.take(n) =~= head_finals);
        assert(finals.skip(n) =~= tail_finals);
        assert(after =~= seq![first_after] + tail_after);
        lemma_expression_views(after);
        lemma_expression_views(tail_after);
        assert(first_after@ == with_leaves(views[0], head_finals));
        assert(expression_views(after) =~= seq![first_after@] + expression_views(tail_after));
    }
    children
}

impl Expression {
    /// References to the leaves of the expression, in order. What is
    /// written through them takes the place of the leaves.
    pub fn mut_children(&mut self) -> (children: Vec<&mut Expression>)
        ensures
            current_views(children@) == leaves(old(self)@),
            final(self)@ == with_leaves(
                old(self)@,
                Seq::new(children@.len(), |i: int| (*final(children@[i]))@),
            ),
        decreases *old(self),
    {
        match self {
            Expression::FunctionCall(call) => slice_children(call.arguments.as_mut_slice()),
            Expression::Array(items) => slice_children(items.as_mut_slice()),
            other => {
                let mut children: Vec<&mut Expression> = Vec::new();
                children.push(other);
                children
            },
        }
    }
}

impl Ast {
    /// References to the leaves of the formula, in order. What is written
    /// through them takes the place of the leaves.
    pub fn mut_children(&mut self) -> (children: Vec<&mut Expression>)
        ensures
            current_views(children@) == leaves_of(old(self)@.arguments),
            final(self)@ == (CallView {
                name: old(self)@.name,
                arguments: list_with_leaves(
                    old(self)@.arguments,
                    Seq::new(children@.len(), |i: int| (*final(children@[i]))@),
                ),
                line_number: old(self)@.line_number,
            }),
    {
        slice_children(self.function.arguments.as_mut_slice())
    }
}

} // verus!
