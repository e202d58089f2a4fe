//! The parser: from the tokens of a formula to its syntax tree.

use vstd::prelude::*;
use multipeek::MultiPeek;
use crate::ast::{expression_views, Ast, CallView, Expression, ExpressionView,
    FunctionCallExpression};
use crate::decimal::decimal_text;
use crate::errors::{Error, ErrorKind, ErrorView};
use crate::text::{chars_of, is_digit, is_digit_char, run_end, run_length, same_text, string_from,
    CharClass};
use crate::tokenizer::{token_views, Token, TokenView};

verus! {

/// `multipeek::MultiPeek`: an iterator that lets its user look at the items
/// to come without taking them.
#[verifier::external_type_specification]
#[verifier::external_body]
#[verifier::reject_recursive_types(I)]
pub struct ExMultiPeek<I: Iterator>(MultiPeek<I>);

/// The tokens that a `MultiPeek` over a slice of tokens has yet to hand out,
/// in order.
pub uninterp spec fn upcoming(tokens: MultiPeek<std::slice::Iter<'_, Token>>) -> Seq<TokenView>;

/// `multipeek::multipeek`, on the iterator of a vector of tokens: all the
/// tokens of the vector are yet to come.
#[verifier::external_body]
pub(crate) fn peekable_tokens<'a>(tokens: &'a Vec<Token>) -> (peekable: MultiPeek<
    std::slice::Iter<'a, Token>,
>)
    ensures
        upcoming(peekable) == token_views(tokens@),
{
    multipeek::multipeek(tokens.iter())
}

/// `MultiPeek::peek_nth`: the token that stands `n` places ahead, if there
/// is one. What is yet to come stays as it is.
#[verifier::external_body]
pub(crate) fn peek_nth_token<'a>(tokens: &mut MultiPeek<std::slice::Iter<'a, Token>>, n: usize)
    -> (token: Option<&'a Token>)
    ensures
        upcoming(*final(tokens)) == upcoming(*old(tokens)),
        match token {
            Some(t) => n < upcoming(*old(tokens)).len() && t@ == upcoming(*old(tokens))[n as int],
            None => upcoming(*old(tokens)).len() <= n,
        },
{
    tokens.peek_nth(n).copied()
}

/// `MultiPeek::peek`: the next token, if there is one. What is yet to come
/// stays as it is.
#[verifier::external_body]
pub(crate) fn peek_token<'a>(tokens: &mut MultiPeek<std::slice::Iter<'a, Token>>) -> (token:
    Option<&'a Token>)
    ensures
        upcoming(*final(tokens)) == upcoming(*old(tokens)),
        match token {
            Some(t) => 0 < upcoming(*old(tokens)).len() && t@ == upcoming(*old(tokens))[0],
            None => upcoming(*old(tokens)).len() == 0,
        },
{
    tokens.peek().copied()
}

/// `MultiPeek::next`: takes the next token, if there is one.
#[verifier::external_body]
pub(crate) fn next_token<'a>(tokens: &mut MultiPeek<std::slice::Iter<'a, Token>>) -> (token:
    Option<&'a Token>)
    ensures
        match token {
            Some(t) => 0 < upcoming(*old(tokens)).len() && t@ == upcoming(*old(tokens))[0]
                && upcoming(*final(tokens)) == upcoming(*old(tokens)).drop_first(),
            None => upcoming(*old(tokens)).len() == 0 && upcoming(*final(tokens)) == upcoming(
                *old(tokens),
            ),
        },
{
    tokens.next()
}

/// The token that ends a list of expressions.
#[derive(Debug, Clone, Copy)]
pub enum Closer {
    /// `)`, which ends the arguments of a call.
    Parenthesis,
    /// `]`, which ends an array.
    Bracket,
}

/// A parse error at `line`.
pub open spec fn parse_error(message: Seq<char>, line: usize) -> ErrorView {
    ErrorView { kind: ErrorKind::Parse, message, line_number: line }
}

/// How a token is named in a message.
pub open spec fn describe(token: TokenView) -> Seq<char> {
    match token {
        TokenView::Identifier(name) => "Identifier(\""@ + name + "\")"@,
        TokenView::String(text) => "String(\""@ + text + "\")"@,
        TokenView::Number(number) => "Number("@ + decimal_text(number) + ")"@,
        TokenView::Semicolon => "Semicolon"@,
        TokenView::LeftParenthesis => "LeftParenthesis"@,
        TokenView::RightParenthesis => "RightParenthesis"@,
        TokenView::LeftBracket => "LeftBracket"@,
        TokenView::RightBracket => "RightBracket"@,
    }
}

/// The message that `what` was expected where `found` stands; no token
/// stands at the end of the input.
pub open spec fn expected_message(what: Seq<char>, found: Option<TokenView>) -> Seq<char> {
    "Expected "@ + what + ", found "@ + match found {
        Some(token) => describe(token),
        None => "EOF"@,
    }
}

/// The message for a field whose row is 0.
pub open spec fn row_zero_message(name: Seq<char>) -> Seq<char> {
    "Invalid field identifier `"@ + name + "`, row number starts from 1, found 0"@
}

/// The message for a field without a row.
pub open spec fn row_missing_message(col: Seq<char>, row: Seq<char>) -> Seq<char> {
    "Invalid field identifier, expected a row number after the column `"@ + col
        + "` but found `"@ + row + "`"@
}

/// The token that ends the list.
pub open spec fn closer_token(closer: Closer) -> TokenView {
    match closer {
        Closer::Parenthesis => TokenView::RightParenthesis,
        Closer::Bracket => TokenView::RightBracket,
    }
}

/// How the token that ends the list is named in a message.
pub open spec fn closer_name(closer: Closer) -> Seq<char> {
    match closer {
        Closer::Parenthesis => "right parenthesis"@,
        Closer::Bracket => "right bracket"@,
    }
}

/// The first token, if there is one.
pub open spec fn first_of(tokens: Seq<TokenView>) -> Option<TokenView> {
    if tokens.len() > 0 {
        Some(tokens[0])
    } else {
        None
    }
}

/// The number that decimal digits write.
pub open spec fn digits_value(digits: Seq<char>) -> nat
    decreases digits.len(),
{
    if digits.len() == 0 {
        0
    } else {
        digits_value(digits.drop_last()) * 10 + (digits.last() as nat - 48) as nat
    }
}

/// The row that a text names: the text holds decimal digits only, at least
/// one, and their number fits.
pub open spec fn row_of(text: Seq<char>) -> Option<u64> {
    if text.len() > 0 && (forall|i: int| 0 <= i < text.len() ==> is_digit(#[trigger] text[i]))
        && digits_value(text) <= u64::MAX {
        Some(digits_value(text) as u64)
    } else {
        None
    }
}

/// The field that an identifier names: the letters at its start are the
/// column, the rest is the row, a number that starts at 1.
pub open spec fn field_of(name: Seq<char>, line: usize) -> Result<ExpressionView, ErrorView> {
    let letters = run_length(name, 0, CharClass::Letter) as int;
    let col = name.take(letters);
    let row = name.skip(letters);
    match row_of(row) {
        Some(number) => if number == 0 {
            Err(parse_error(row_zero_message(name), line))
        } else {
            Ok(ExpressionView::Field { col, row: number, value: Seq::empty() })
        },
        None => Err(parse_error(row_missing_message(col, row), line)),
    }
}

/// An identifier, and the tokens behind it.
pub open spec fn parsed_identifier(tokens: Seq<TokenView>, line: usize) -> Result<
    (Seq<char>, Seq<TokenView>),
    ErrorView,
> {
    match first_of(tokens) {
        Some(TokenView::Identifier(name)) => Ok((name, tokens.drop_first())),
        other => Err(parse_error(expected_message("identifier"@, other), line)),
    }
}

/// A field, and the tokens behind it.
pub open spec fn parsed_field(tokens: Seq<TokenView>, line: usize) -> Result<
    (ExpressionView, Seq<TokenView>),
    ErrorView,
> {
    match parsed_identifier(tokens, line) {
        Ok((name, rest)) => match field_of(name, line) {
            Ok(field) => Ok((field, rest)),
            Err(e) => Err(e),
        },
        Err(e) => Err(e),
    }
}

/// The expressions up to the closing token, and the tokens behind it.
/// Semicolons between, before and behind the expressions are passed over.
pub open spec fn parsed_items(tokens: Seq<TokenView>, closer: Closer, line: usize) -> Result<
    (Seq<ExpressionView>, Seq<TokenView>),
    ErrorView,
>
    decreases tokens.len(), 3int,
{
    if tokens.len() == 0 {
        Err(parse_error(expected_message(closer_name(closer), None), line))
    } else if tokens[0] == closer_token(closer) {
        Ok((Seq::empty(), tokens.drop_first()))
    } else if tokens[0] == TokenView::Semicolon {
        parsed_items(tokens.drop_first(), closer, line)
    } else {
        match parsed_expression(tokens, line) {
            Err(e) => Err(e),
            Ok((first, rest)) => {
                if rest.len() < tokens.len() {
                    match parsed_items(rest, closer, line) {
                        Err(e) => Err(e),
                        Ok((others, behind)) => Ok((seq![first] + others, behind)),
                    }
                } else {
                    Ok((seq![first], rest))
                }
            },
        }
    }
}

/// An array, and the tokens behind it.
pub open spec fn parsed_array(tokens: Seq<TokenView>, line: usize) -> Result<
    (ExpressionView, Seq<TokenView>),
    ErrorView,
>
    decreases tokens.len(), 0int,
{
    if tokens.len() > 0 && tokens[0] == TokenView::LeftBracket {
        match parsed_items(tokens.drop_first(), Closer::Bracket, line) {
            Ok((items, rest)) => Ok((ExpressionView::Array(items), rest)),
            Err(e) => Err(e),
        }
    } else {
        Err(parse_error(expected_message("left bracket"@, first_of(tokens)), line))
    }
}

/// The arguments of a call, in their brackets, and the tokens behind them.
pub open spec fn parsed_arguments(tokens: Seq<TokenView>, line: usize) -> Result<
    (Seq<ExpressionView>, Seq<TokenView>),
    ErrorView,
>
    decreases tokens.len(), 0int,
{
    if tokens.len() > 0 && tokens[0] == TokenView::LeftParenthesis {
        parsed_items(tokens.drop_first(), Closer::Parenthesis, line)
    } else {
        Err(parse_error(expected_message("left parenthesis"@, first_of(tokens)), line))
    }
}

/// A call, and the tokens behind it.
pub open spec fn parsed_call(tokens: Seq<TokenView>, line: usize) -> Result<
    (CallView, Seq<TokenView>),
    ErrorView,
>
    decreases tokens.len(), 1int,
{
    match parsed_identifier(tokens, line) {
        Err(e) => Err(e),
        Ok((name, rest)) => {
            if rest.len() < tokens.len() {
                match parsed_arguments(rest, line) {
                    Ok((arguments, behind)) => Ok(
                        (CallView { name, arguments, line_number: line }, behind),
                    ),
                    Err(e) => Err(e),
                }
            } else {
                Err(parse_error(expected_message("identifier"@, None), line))
            }
        },
    }
}

/// An expression, and the tokens behind it. An identifier with `(` behind
/// it starts a call; `true` and `false` are booleans; any other identifier
/// is a field.
pub open spec fn parsed_expression(tokens: Seq<TokenView>, line: usize) -> Result<
    (ExpressionView, Seq<TokenView>),
    ErrorView,
>
    decreases tokens.len(), 2int,
{
    match first_of(tokens) {
        Some(TokenView::Identifier(name)) => {
            if tokens.len() > 1 && tokens[1] == TokenView::LeftParenthesis {
                match parsed_call(tokens, line) {
                    Ok((call, rest)) => Ok((ExpressionView::FunctionCall(call), rest)),
                    Err(e) => Err(e),
                }
            } else if name == "true"@ {
                Ok((ExpressionView::Boolean(true), tokens.drop_first()))
            } else if name == "false"@ {
                Ok((ExpressionView::Boolean(false), tokens.drop_first()))
            } else {
                parsed_field(tokens, line)
            }
        },
        Some(TokenView::Number(number)) => Ok(
            (ExpressionView::Number(number), tokens.drop_first()),
        ),
        Some(TokenView::String(text)) => Ok((ExpressionView::String(text), tokens.drop_first())),
        Some(TokenView::LeftBracket) => parsed_array(tokens, line),
        other => Err(parse_error(expected_message("expression"@, other), line)),
    }
}

/// The syntax tree of a formula: the call with which its tokens start.
pub open spec fn parsed_formula(tokens: Seq<TokenView>, line: usize) -> Result<
    CallView,
    ErrorView,
> {
    match parsed_call(tokens, line) {
        Ok((call, rest)) => Ok(call),
        Err(e) => Err(e),
    }
}

/// `first` followed by the expressions that `rest` holds, or the error of `rest`.
pub open spec fn items_then(
    first: Seq<ExpressionView>,
    rest: Result<(Seq<ExpressionView>, Seq<TokenView>), ErrorView>,
) -> Result<(Seq<ExpressionView>, Seq<TokenView>), ErrorView> {
    match rest {
        Ok((others, behind)) => Ok((first + others, behind)),
        Err(e) => Err(e),
    }
}

/// Whatever is parsed takes at least one token.
pub proof fn lemma_parse_consumes(tokens: Seq<TokenView>, closer: Closer, line: usize)
    ensures
        parsed_identifier(tokens, line) matches Ok((_, rest)) ==> rest.len() < tokens.len(),
        parsed_field(tokens, line) matches Ok((_, rest)) ==> rest.len() < tokens.len(),
        parsed_array(tokens, line) matches Ok((_, rest)) ==> rest.len() < tokens.len(),
        parsed_arguments(tokens, line) matches Ok((_, rest)) ==> rest.len() < tokens.len(),
        parsed_call(tokens, line) matches Ok((_, rest)) ==> rest.len() < tokens.len(),
        parsed_expression(tokens, line) matches Ok((_, rest)) ==> rest.len() < tokens.len(),
        parsed_items(tokens, closer, line) matches Ok((_, rest)) ==> rest.len() < tokens.len(),
    decreases tokens.len(),
{
    if tokens.len() > 0 {
        let behind = tokens.drop_first();
        lemma_parse_consumes(behind, Closer::Bracket, line);
        lemma_parse_consumes(behind, Closer::Parenthesis, line);
        lemma_parse_consumes(behind, closer, line);
        assert(parsed_array(tokens, line) matches Ok((_, rest)) ==> rest.len() < tokens.len());
        assert(parsed_call(tokens, line) matches Ok((_, rest)) ==> rest.len() < tokens.len());
        assert(parsed_expression(tokens, line) matches Ok((_, rest)) ==> rest.len()
            < tokens.len());
        if let Ok((_, rest)) = parsed_expression(tokens, line) {
            lemma_parse_consumes(rest, closer, line);
        }
    }
}

/// The number that the digits write grows with each digit.
proof fn lemma_digits_value_grows(digits: Seq<char>, k: int)
    requires
        0 <= k <= digits.len(),
        forall|i: int| 0 <= i < digits.len() ==> is_digit(#[trigger] digits[i]),
    ensures
        digits_value(digits.take(k)) <= digits_value(digits),
    decreases digits.len(),
{
    if k < digits.len() {
        let front = digits.drop_last();
        assert(front.take(k) == digits.take(k));
        lemma_digits_value_grows(front, k);
    } else {
        assert(digits.take(k) == digits);
    }
}

/// Reads the row that the text names from `from` on.
fn parse_row(text: &Vec<char>, from: usize) -> (row: Option<u64>)
    requires
        from <= text.len(),
    ensures
        row == row_of(text@.skip(from as int)),
{
    let ghost digits = text@.skip(from as int);
    if from == text.len() {
        return None;
    }
    let mut value: u64 = 0;
    let mut i: usize = from;
    while i < text.len()
        invariant
            from <= i <= text.len(),
            from < text.len(),
            digits == text@.skip(from as int),
            forall|j: int| 0 <= j < i - from ==> is_digit(#[trigger] digits[j]),
            value == digits_value(digits.take(i - from)),
        decreases text.len() - i,
    {
        let c = text[i];
        if !is_digit_char(c) {
            assert(digits[i - from] == c);
            return None;
        }
        let d: u64 = (c as u32 - 48) as u64;
        proof {
            let now = digits.take(i - from + 1);
            assert(now.drop_last() == digits.take(i - from));
            assert(now.last() == c);
            assert(digits_value(now) == value * 10 + d);
        }
        if value > (u64::MAX - d) / 10 {
            proof {
                if forall|j: int| 0 <= j < digits.len() ==> is_digit(#[trigger] digits[j]) {
                    lemma_digits_value_grows(digits, i - from + 1);
                }
            }
            return None;
        }
        value = value * 10 + d;
        i += 1;
    }
    proof {
        assert(digits.take(i - from) == digits);
    }
    Some(value)
}

/// The field that an identifier names.
pub fn field_from(name: &str, line_number: usize) -> (field: Result<Expression, Error>)
    ensures
        match field {
            Ok(f) => field_of(name@, line_number) == Ok::<ExpressionView, ErrorView>(f@),
            Err(e) => field_of(name@, line_number) == Err::<ExpressionView, ErrorView>(e@),
        },
{
    let chars = chars_of(name);
    let letters = run_end(&chars, 0, CharClass::Letter);
    let col = string_from(&chars, 0, letters);
    match parse_row(&chars, letters) {
        Some(row) => {
            if row == 0 {
                let mut message = String::from_str("Invalid field identifier `");
                message.append(name);
                message.append("`, row number starts from 1, found 0");
                Err(Error::new(ErrorKind::Parse, message, line_number))
            } else {
                Ok(Expression::Field { col, row, value: String::new() })
            }
        },
        None => {
            let mut message = String::from_str(
                "Invalid field identifier, expected a row number after the column `",
            );
            message.append(col.as_str());
            message.append("` but found `");
            message.append(string_from(&chars, letters, chars.len()).as_str());
            message.append("`");
            Err(Error::new(ErrorKind::Parse, message, line_number))
        },
    }
}

/// Names a token, for a message.
fn describe_token(token: &Token) -> (text: String)
    ensures
        text@ == describe(token@),
{
    match token {
        Token::Identifier(name) => {
            let mut text = String::from_str("Identifier(\"");
            text.append(name.as_str());
            text.append("\")");
            text
        },
        Token::String(inner) => {
            let mut text = String::from_str("String(\"");
            text.append(inner.as_str());
            text.append("\")");
            text
        },
        Token::Number(number) => {
            let mut text = String::from_str("Number(");
            text.append(number.to_string().as_str());
            text.append(")");
            text
        },
        Token::Semicolon => String::from_str("Semicolon"),
        Token::LeftParenthesis => String::from_str("LeftParenthesis"),
        Token::RightParenthesis => String::from_str("RightParenthesis"),
        Token::LeftBracket => String::from_str("LeftBracket"),
        Token::RightBracket => String::from_str("RightBracket"),
    }
}

/// The view of a token that may be missing.
pub open spec fn found_view(found: Option<&Token>) -> Option<TokenView> {
    match found {
        Some(token) => Some(token@),
        None => None,
    }
}

/// The error that `what` was expected where `found` stands.
fn unexpected(what: &str, found: Option<&Token>, line_number: usize) -> (e: Error)
    ensures
        e@ == parse_error(expected_message(what@, found_view(found)), line_number),
{
    let mut message = String::from_str("Expected ");
    message.append(what);
    message.append(", found ");
    match found {
        Some(token) => message.append(describe_token(token).as_str()),
        None => message.append("EOF"),
    }
    Error::new(ErrorKind::Parse, message, line_number)
}

/// Whether the token is the one that closes the list.
fn is_closer(token: &Token, closer: Closer) -> (closes: bool)
    ensures
        closes == (token@ == closer_token(closer)),
{
    match (token, closer) {
        (Token::RightParenthesis, Closer::Parenthesis) => true,
        (Token::RightBracket, Closer::Bracket) => true,
        _ => false,
    }
}

/// The parser of one formula.
#[derive(Debug)]
pub struct Parser<'a> {
    tokens: MultiPeek<std::slice::Iter<'a, Token>>,
    line_number: usize,
}

impl<'a> Parser<'a> {
    /// The tokens that the parser has yet to read.
    pub closed spec fn remaining(&self) -> Seq<TokenView> {
        upcoming(self.tokens)
    }

    /// The line of the cell, for the errors.
    pub closed spec fn line(&self) -> usize {
        self.line_number
    }

    /// A parser that reads the tokens which `tokens` has yet to hand out.
    pub fn new(tokens: MultiPeek<std::slice::Iter<'a, Token>>, line_number: usize) -> (parser:
        Parser<'a>)
        ensures
            parser.remaining() == upcoming(tokens),
            parser.line() == line_number,
    {
        Parser { tokens, line_number }
    }

    /// Parses the tokens into the syntax tree of a formula: the call with
    /// which they start. Tokens behind the call are left unread.
    pub fn parse(&mut self) -> (parsed: Result<Ast, Error>)
        ensures
            final(self).line() == old(self).line(),
            match parsed {
                Ok(ast) => parsed_formula(old(self).remaining(), old(self).line()) == Ok::<
                    CallView,
                    ErrorView,
                >(ast@) && parsed_call(old(self).remaining(), old(self).line()) == Ok::<
                    (CallView, Seq<TokenView>),
                    ErrorView,
                >((ast@, final(self).remaining())),
                Err(e) => parsed_formula(old(self).remaining(), old(self).line()) == Err::<
                    CallView,
                    ErrorView,
                >(e@),
            },
    {
        match self.parse_function_call() {
            Ok(function) => Ok(Ast { function }),
            Err(e) => Err(e),
        }
    }

    /// Reads an identifier.
    fn parse_identifier(&mut self) -> (parsed: Result<&'a String, Error>)
        ensures
            final(self).line() == old(self).line(),
            match parsed {
                Ok(name) => parsed_identifier(old(self).remaining(), old(self).line()) == Ok::<
                    (Seq<char>, Seq<TokenView>),
                    ErrorView,
                >((name@, final(self).remaining())),
                Err(e) => parsed_identifier(old(self).remaining(), old(self).line()) == Err::<
                    (Seq<char>, Seq<TokenView>),
                    ErrorView,
                >(e@),
            },
    {
        match peek_token(&mut self.tokens) {
            Some(Token::Identifier(name)) => {
                next_token(&mut self.tokens);
                Ok(name)
            },
            Some(token) => Err(unexpected("identifier", Some(token), self.line_number)),
            None => Err(unexpected("identifier", None, self.line_number)),
        }
    }

    /// Reads a field: an identifier such as `a1` or `aa200`.
    fn parse_field(&mut self) -> (parsed: Result<Expression, Error>)
        ensures
            final(self).line() == old(self).line(),
            match parsed {
                Ok(field) => parsed_field(old(self).remaining(), old(self).line()) == Ok::<
                    (ExpressionView, Seq<TokenView>),
                    ErrorView,
                >((field@, final(self).remaining())),
                Err(e) => parsed_field(old(self).remaining(), old(self).line()) == Err::<
                    (ExpressionView, Seq<TokenView>),
                    ErrorView,
                >(e@),
            },
    {
        match self.parse_identifier() {
            Ok(name) => field_from(name.as_str(), self.line_number),
            Err(e) => Err(e),
        }
    }

    /// Reads expressions up to the closing token, which it takes.
    fn parse_items(&mut self, closer: Closer) -> (parsed: Result<Vec<Expression>, Error>)
        ensures
            final(self).line() == old(self).line(),
            match parsed {
                Ok(items) => parsed_items(old(self).remaining(), closer, old(self).line())
                    == Ok::<(Seq<ExpressionView>, Seq<TokenView>), ErrorView>(
                    (expression_views(items@), final(self).remaining()),
                ),
                Err(e) => parsed_items(old(self).remaining(), closer, old(self).line()) == Err::<
                    (Seq<ExpressionView>, Seq<TokenView>),
                    ErrorView,
                >(e@),
            },
        decreases old(self).remaining().len(), 3int,
    {
        let mut items: Vec<Expression> = Vec::new();
        let ghost start = self.remaining();
        let ghost line = self.line();
        loop
            invariant
                self.line() == line,
                line == old(self).line(),
                start == old(self).remaining(),
                self.remaining().len() <= start.len(),
                parsed_items(start, closer, line) == items_then(
                    expression_views(items@),
                    parsed_items(self.remaining(), closer, line),
                ),
            decreases self.remaining().len(),
        {
            let ghost now = self.remaining();
            let ghost before = expression_views(items@);
            match peek_token(&mut self.tokens) {
                None => {
                    let what = match closer {
                        Closer::Parenthesis => "right parenthesis",
                        Closer::Bracket => "right bracket",
                    };
                    return Err(unexpected(what, None, self.line_number));
                },
                Some(token) => {
                    if is_closer(token, closer) {
                        next_token(&mut self.tokens);
                        proof {
                            assert(before + Seq::<ExpressionView>::empty() == before);
                        }
                        return Ok(items);
                    } else if matches!(token, Token::Semicolon) {
                        next_token(&mut self.tokens);
                    } else {
                        proof {
                            lemma_parse_consumes(now, closer, line);
                        }
                        match self.parse_expression() {
                            Ok(item) => {
                                let ghost prior = items@;
                                let ghost first = item@;
                                items.push(item);
                                proof {
                                    assert(items@.drop_last() == prior);
                                    assert(expression_views(items@) == before.push(first));
                                    let rest = parsed_items(self.remaining(), closer, line);
                                    if let Ok((others, behind)) = rest {
                                        assert(before.push(first) + others == before + (seq![
                                            first,
                                        ] + others));
                                    }
                                }
                            },
                            Err(e) => {
                                return Err(e);
                            },
                        }
                    }
                },
            }
        }
    }

    /// Reads an array.
    fn parse_array(&mut self) -> (parsed: Result<Expression, Error>)
        ensures
            final(self).line() == old(self).line(),
            match parsed {
                Ok(array) => parsed_array(old(self).remaining(), old(self).line()) == Ok::<
                    (ExpressionView, Seq<TokenView>),
                    ErrorView,
                >((array@, final(self).remaining())),
                Err(e) => parsed_array(old(self).remaining(), old(self).line()) == Err::<
                    (ExpressionView, Seq<TokenView>),
                    ErrorView,
                >(e@),
            },
        decreases old(self).remaining().len(), 0int,
    {
        match peek_token(&mut self.tokens) {
            Some(Token::LeftBracket) => {
                next_token(&mut self.tokens);
                match self.parse_items(Closer::Bracket) {
                    Ok(items) => Ok(Expression::Array(items)),
                    Err(e) => Err(e),
                }
            },
            Some(token) => Err(unexpected("left bracket", Some(token), self.line_number)),
            None => Err(unexpected("left bracket", None, self.line_number)),
        }
    }

    /// Reads an expression.
    fn parse_expression(&mut self) -> (parsed: Result<Expression, Error>)
        ensures
            final(self).line() == old(self).line(),
            match parsed {
                Ok(e) => parsed_expression(old(self).remaining(), old(self).line()) == Ok::<
                    (ExpressionView, Seq<TokenView>),
                    ErrorView,
                >((e@, final(self).remaining())),
                Err(e) => parsed_expression(old(self).remaining(), old(self).line()) == Err::<
                    (ExpressionView, Seq<TokenView>),
                    ErrorView,
                >(e@),
            },
        decreases old(self).remaining().len(), 2int,
    {
        match peek_token(&mut self.tokens) {
            Some(token) => match token {
                Token::Identifier(name) => {
                    let call = match peek_nth_token(&mut self.tokens, 1) {
                        Some(Token::LeftParenthesis) => true,
                        _ => false,
                    };
                    if call {
                        match self.parse_function_call() {
                            Ok(function) => Ok(Expression::FunctionCall(function)),
                            Err(e) => Err(e),
                        }
                    } else if same_text(name.as_str(), "true") {
                        next_token(&mut self.tokens);
                        Ok(Expression::Boolean(true))
                    } else if same_text(name.as_str(), "false") {
                        next_token(&mut self.tokens);
                        Ok(Expression::Boolean(false))
                    } else {
                        self.parse_field()
                    }
                },
                Token::Number(number) => {
                    next_token(&mut self.tokens);
                    Ok(Expression::Number(number.clone()))
                },
                Token::String(text) => {
                    next_token(&mut self.tokens);
                    Ok(Expression::String(text.clone()))
                },
                Token::LeftBracket => self.parse_array(),
                _ => Err(unexpected("expression", Some(token), self.line_number)),
            },
            None => Err(unexpected("expression", None, self.line_number)),
        }
    }

    /// Reads the arguments of a call, in their round brackets.
    fn parse_arguments(&mut self) -> (parsed: Result<Vec<Expression>, Error>)
        ensures
            final(self).line() == old(self).line(),
            match parsed {
                Ok(arguments) => parsed_arguments(old(self).remaining(), old(self).line())
                    == Ok::<(Seq<ExpressionView>, Seq<TokenView>), ErrorView>(
                    (expression_views(arguments@), final(self).remaining()),
                ),
                Err(e) => parsed_arguments(old(self).remaining(), old(self).line()) == Err::<
                    (Seq<ExpressionView>, Seq<TokenView>),
                    ErrorView,
                >(e@),
            },
        decreases old(self).remaining().len(), 0int,
    {
        match peek_token(&mut self.tokens) {
            Some(Token::LeftParenthesis) => {
                next_token(&mut self.tokens);
                self.parse_items(Closer::Parenthesis)
            },
            Some(token) => Err(unexpected("left parenthesis", Some(token), self.line_number)),
            None => Err(unexpected("left parenthesis", None, self.line_number)),
        }
    }

    /// Reads a call: a name and the arguments.
    fn parse_function_call(&mut self) -> (parsed: Result<FunctionCallExpression, Error>)
        ensures
            final(self).line() == old(self).line(),
            match parsed {
                Ok(call) => parsed_call(old(self).remaining(), old(self).line()) == Ok::<
                    (CallView, Seq<TokenView>),
                    ErrorView,
                >((call@, final(self).remaining())),
                Err(e) => parsed_call(old(self).remaining(), old(self).line()) == Err::<
                    (CallView, Seq<TokenView>),
                    ErrorView,
                >(e@),
            },
        decreases old(self).remaining().len(), 1int,
    {
        let name = match self.parse_identifier() {
            Ok(name) => name.clone(),
            Err(e) => {
                return Err(e);
            },
        };
        match self.parse_arguments() {
            Ok(arguments) => Ok(
                FunctionCallExpression { name, arguments, line_number: self.line_number },
            ),
            Err(e) => Err(e),
        }
    }
}

/// Parses the tokens of a formula into its syntax tree.
pub fn parse_tokens(tokens: &Vec<Token>, line_number: usize) -> (parsed: Result<Ast, Error>)
    ensures
        match parsed {
            Ok(ast) => parsed_formula(token_views(tokens@), line_number) == Ok::<
                CallView,
                ErrorView,
            >(ast@),
            Err(e) => parsed_formula(token_views(tokens@), line_number) == Err::<
                CallView,
                ErrorView,
            >(e@),
        },
{
    let mut parser = Parser::new(peekable_tokens(tokens), line_number);
    parser.parse()
}

} // verus!
