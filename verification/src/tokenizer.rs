//! The tokenizer: from the text of a formula to its tokens.

use vstd::prelude::*;
use crate::decimal::{decimal_parse, Decimal};
use crate::errors::{Error, ErrorKind, ErrorView};
use crate::text::{
    chars_of, is_digit, is_digit_char, is_letter, is_letter_char, is_whitespace,
    is_whitespace_char, lemma_run, push_char, run_end, run_length, string_from, CharClass,
};

verus! {

/// The tokens of a formula.
#[derive(Debug, PartialEq, Eq)]
pub enum Token {
    /// A name: of a function, of a field, or `true` or `false`.
    Identifier(String),
    /// The text between two double quotes.
    String(String),
    /// A number.
    Number(Decimal),
    /// `;`
    Semicolon,
    /// `(`
    LeftParenthesis,
    /// `)`
    RightParenthesis,
    /// `[`
    LeftBracket,
    /// `]`
    RightBracket,
}

/// The mathematical value of a [`Token`].
pub enum TokenView {
    Identifier(Seq<char>),
    String(Seq<char>),
    Number((Seq<u8>, int)),
    Semicolon,
    LeftParenthesis,
    RightParenthesis,
    LeftBracket,
    RightBracket,
}

impl View for Token {
    type V = TokenView;

    open spec fn view(&self) -> TokenView {
        match self {
            Token::Identifier(name) => TokenView::Identifier(name@),
            Token::String(text) => TokenView::String(text@),
            Token::Number(number) => TokenView::Number(number@),
            Token::Semicolon => TokenView::Semicolon,
            Token::LeftParenthesis => TokenView::LeftParenthesis,
            Token::RightParenthesis => TokenView::RightParenthesis,
            Token::LeftBracket => TokenView::LeftBracket,
            Token::RightBracket => TokenView::RightBracket,
        }
    }
}

/// The views of a sequence of tokens.
pub open spec fn token_views(tokens: Seq<Token>) -> Seq<TokenView> {
    Seq::new(tokens.len(), |i: int| tokens[i]@)
}

/// What is wrong with a number.
pub enum NumberFault {
    /// A second decimal point.
    SecondPoint,
    /// A minus sign that is not the first character.
    LateMinus,
}

/// A tokenizer error at `line`.
pub open spec fn tokenizer_error(message: Seq<char>, line: usize) -> ErrorView {
    ErrorView { kind: ErrorKind::Tokenizer, message, line_number: line }
}

/// The message for a string without its closing quote.
pub open spec fn unclosed_string_message() -> Seq<char> {
    "String is not closed"@
}

/// The message for a second decimal point in a number.
pub open spec fn second_point_message() -> Seq<char> {
    "Invalid float number"@
}

/// The message for a minus sign that is not the first character of a number.
pub open spec fn late_minus_message() -> Seq<char> {
    "Invalid negative number"@
}

/// The message for a number that `bigdecimal` does not take.
pub open spec fn invalid_number_message() -> Seq<char> {
    "Invalid number"@
}

/// The message for a character with which no token starts.
pub open spec fn unknown_character_message(c: char) -> Seq<char> {
    "Unknown character: "@.push(c)
}

/// The message for a fault of a number.
pub open spec fn number_fault_message(fault: NumberFault) -> Seq<char> {
    match fault {
        NumberFault::SecondPoint => second_point_message(),
        NumberFault::LateMinus => late_minus_message(),
    }
}

/// The string token whose text starts at `pos`, behind the opening quote,
/// and the position behind its closing quote. There are no escapes: the
/// text ends at the next quote.
pub open spec fn string_token_at(text: Seq<char>, pos: int, line: usize) -> Result<
    (TokenView, int),
    ErrorView,
> {
    let end = pos + run_length(text, pos, CharClass::Except('"'));
    if end < text.len() {
        Ok((TokenView::String(text.subrange(pos, end)), end + 1))
    } else {
        Err(tokenizer_error(unclosed_string_message(), line))
    }
}

/// How far a number runs from `pos` on, behind its first character. It runs
/// over digits and at most one decimal point (`point` says whether one was
/// seen); a second point or a minus sign is a fault.
pub open spec fn number_run(text: Seq<char>, pos: int, point: bool) -> Result<nat, NumberFault>
    decreases text.len() - pos,
{
    if 0 <= pos < text.len() {
        let c = text[pos];
        if is_digit(c) {
            match number_run(text, pos + 1, point) {
                Ok(n) => Ok(n + 1),
                Err(fault) => Err(fault),
            }
        } else if c == '.' {
            if point {
                Err(NumberFault::SecondPoint)
            } else {
                match number_run(text, pos + 1, true) {
                    Ok(n) => Ok(n + 1),
                    Err(fault) => Err(fault),
                }
            }
        } else if c == '-' {
            Err(NumberFault::LateMinus)
        } else {
            Ok(0)
        }
    } else {
        Ok(0)
    }
}

/// The number token that starts at `pos`, with a digit or a minus sign, and
/// the position behind it.
pub open spec fn number_token_at(text: Seq<char>, pos: int, line: usize) -> Result<
    (TokenView, int),
    ErrorView,
> {
    match number_run(text, pos + 1, false) {
        Err(fault) => Err(tokenizer_error(number_fault_message(fault), line)),
        Ok(n) => match decimal_parse(text.subrange(pos, pos + 1 + n)) {
            Some(number) => Ok((TokenView::Number(number), pos + 1 + n)),
            None => Err(tokenizer_error(invalid_number_message(), line)),
        },
    }
}

/// The identifier that starts at `pos` and the position behind it.
pub open spec fn identifier_token_at(text: Seq<char>, pos: int) -> (TokenView, int) {
    let end = pos + 1 + run_length(text, pos + 1, CharClass::Word);
    (TokenView::Identifier(text.subrange(pos, end)), end)
}

/// What stands at `pos`: a token or white space, and the position behind it.
pub open spec fn token_at(text: Seq<char>, pos: int, line: usize) -> Result<
    (Option<TokenView>, int),
    ErrorView,
> {
    let c = text[pos];
    if c == ';' {
        Ok((Some(TokenView::Semicolon), pos + 1))
    } else if c == '(' {
        Ok((Some(TokenView::LeftParenthesis), pos + 1))
    } else if c == ')' {
        Ok((Some(TokenView::RightParenthesis), pos + 1))
    } else if c == '[' {
        Ok((Some(TokenView::LeftBracket), pos + 1))
    } else if c == ']' {
        Ok((Some(TokenView::RightBracket), pos + 1))
    } else if c == '"' {
        match string_token_at(text, pos + 1, line) {
            Ok((token, next)) => Ok((Some(token), next)),
            Err(e) => Err(e),
        }
    } else if is_digit(c) || c == '-' {
        match number_token_at(text, pos, line) {
            Ok((token, next)) => Ok((Some(token), next)),
            Err(e) => Err(e),
        }
    } else if is_letter(c) || c == '_' {
        let (token, next) = identifier_token_at(text, pos);
        Ok((Some(token), next))
    } else if is_whitespace(c) {
        Ok((None, pos + 1))
    } else {
        Err(tokenizer_error(unknown_character_message(c), line))
    }
}

/// `first` followed by what `rest` holds, or the error of `rest`.
pub open spec fn tokens_then(first: Seq<TokenView>, rest: Result<Seq<TokenView>, ErrorView>)
    -> Result<Seq<TokenView>, ErrorView> {
    match rest {
        Ok(tokens) => Ok(first + tokens),
        Err(e) => Err(e),
    }
}

/// The tokens of `text` from `pos` on, or the first error.
pub open spec fn tokens_from(text: Seq<char>, pos: int, line: usize) -> Result<
    Seq<TokenView>,
    ErrorView,
>
    decreases text.len() - pos,
{
    if 0 <= pos < text.len() {
        match token_at(text, pos, line) {
            Err(e) => Err(e),
            Ok((token, next)) => {
                if pos < next <= text.len() {
                    let first = match token {
                        Some(t) => seq![t],
                        None => Seq::empty(),
                    };
                    tokens_then(first, tokens_from(text, next, line))
                } else {
                    Ok(Seq::empty())
                }
            },
        }
    } else {
        Ok(Seq::empty())
    }
}

/// The tokens of a formula, or the first error.
pub open spec fn tokens_of(text: Seq<char>, line: usize) -> Result<Seq<TokenView>, ErrorView> {
    tokens_from(text, 0, line)
}

/// Every token ends behind the position at which it starts.
pub proof fn lemma_token_advances(text: Seq<char>, pos: int, line: usize)
    requires
        0 <= pos < text.len(),
    ensures
        token_at(text, pos, line) matches Ok((_, next)) ==> pos < next <= text.len(),
{
    lemma_run(text, pos + 1, CharClass::Except('"'));
    lemma_run(text, pos + 1, CharClass::Word);
    lemma_number_run_within(text, pos + 1, false);
}

/// A number ends within the text.
pub proof fn lemma_number_run_within(text: Seq<char>, pos: int, point: bool)
    requires
        0 <= pos <= text.len(),
    ensures
        number_run(text, pos, point) matches Ok(n) ==> pos + n <= text.len(),
    decreases text.len() - pos,
{
    if pos < text.len() {
        let c = text[pos];
        if is_digit(c) {
            lemma_number_run_within(text, pos + 1, point);
        } else if c == '.' && !point {
            lemma_number_run_within(text, pos + 1, true);
        }
    }
}

/// A tokenizer error with the message `message`.
fn tokenizer_failure(message: &str, line_number: usize) -> (e: Error)
    ensures
        e@ == tokenizer_error(message@, line_number),
{
    Error::new(ErrorKind::Tokenizer, String::from_str(message), line_number)
}

/// Reads the string whose text starts at `pos`, behind the opening quote.
fn read_string(text: &Vec<char>, pos: usize, line_number: usize) -> (read: Result<
    (Token, usize),
    Error,
>)
    requires
        pos <= text.len(),
    ensures
        match read {
            Ok((token, next)) => string_token_at(text@, pos as int, line_number) == Ok::<
                (TokenView, int),
                ErrorView,
            >((token@, next as int)) && next <= text.len(),
            Err(e) => string_token_at(text@, pos as int, line_number) == Err::<
                (TokenView, int),
                ErrorView,
            >(e@),
        },
{
    let end = run_end(text, pos, CharClass::Except('"'));
    if end < text.len() {
        Ok((Token::String(string_from(text, pos, end)), end + 1))
    } else {
        Err(tokenizer_failure("String is not closed", line_number))
    }
}

/// Reads the number that starts at `pos`, with a digit or a minus sign.
fn read_number(text: &Vec<char>, pos: usize, line_number: usize) -> (read: Result<
    (Token, usize),
    Error,
>)
    requires
        pos < text.len(),
    ensures
        match read {
            Ok((token, next)) => number_token_at(text@, pos as int, line_number) == Ok::<
                (TokenView, int),
                ErrorView,
            >((token@, next as int)) && pos < next <= text.len(),
            Err(e) => number_token_at(text@, pos as int, line_number) == Err::<
                (TokenView, int),
                ErrorView,
            >(e@),
        },
{
    let mut end: usize = pos + 1;
    let mut point = false;
    let ghost whole = number_run(text@, pos + 1, false);
    loop
        invariant_except_break
            pos < end <= text.len(),
            whole == number_run(text@, pos + 1, false),
            match number_run(text@, end as int, point) {
                Ok(n) => whole == Ok::<nat, NumberFault>((end - pos - 1 + n) as nat),
                Err(fault) => whole == Err::<nat, NumberFault>(fault),
            },
        ensures
            pos < end <= text.len(),
            whole == number_run(text@, pos + 1, false),
            whole == Ok::<nat, NumberFault>((end - pos - 1) as nat),
        decreases text.len() - end,
    {
        if end >= text.len() {
            break ;
        }
        let c = text[end];
        if is_digit_char(c) {
            end += 1;
        } else if c == '.' {
            if point {
                return Err(tokenizer_failure("Invalid float number", line_number));
            }
            point = true;
            end += 1;
        } else if c == '-' {
            return Err(tokenizer_failure("Invalid negative number", line_number));
        } else {
            break ;
        }
    }
    let digits = string_from(text, pos, end);
    match Decimal::parse(digits.as_str()) {
        Some(number) => Ok((Token::Number(number), end)),
        None => Err(tokenizer_failure("Invalid number", line_number)),
    }
}

/// Reads the identifier that starts at `pos`.
fn read_identifier(text: &Vec<char>, pos: usize) -> (read: (Token, usize))
    requires
        pos < text.len(),
    ensures
        identifier_token_at(text@, pos as int) == (read.0@, read.1 as int),
        pos < read.1 <= text.len(),
{
    let end = run_end(text, pos + 1, CharClass::Word);
    (Token::Identifier(string_from(text, pos, end)), end)
}

/// Tokenizes a formula: its text without the leading `=` and the white
/// space around it. On success the tokens are those of the text, in order;
/// a failure is the first error that the text holds, at `line_number`.
pub fn tokenize(field: &str, line_number: usize) -> (tokenized: Result<Vec<Token>, Error>)
    ensures
        match tokenized {
            Ok(tokens) => tokens_of(field@, line_number) == Ok::<Seq<TokenView>, ErrorView>(
                token_views(tokens@),
            ),
            Err(e) => tokens_of(field@, line_number) == Err::<Seq<TokenView>, ErrorView>(e@),
        },
{
    let text = chars_of(field);
    let mut tokens: Vec<Token> = Vec::new();
    let mut pos: usize = 0;
    while pos < text.len()
        invariant
            pos <= text.len(),
            text@ == field@,
            tokens_of(text@, line_number) == tokens_then(
                token_views(tokens@),
                tokens_from(text@, pos as int, line_number),
            ),
        decreases text.len() - pos,
    {
        let c = text[pos];
        let ghost before = token_views(tokens@);
        let ghost start = pos;
        proof {
            lemma_token_advances(text@, pos as int, line_number);
        }
        if c == ';' {
            tokens.push(Token::Semicolon);
            pos += 1;
        } else if c == '(' {
            tokens.push(Token::LeftParenthesis);
            pos += 1;
        } else if c == ')' {
            tokens.push(Token::RightParenthesis);
            pos += 1;
        } else if c == '[' {
            tokens.push(Token::LeftBracket);
            pos += 1;
        } else if c == ']' {
            tokens.push(Token::RightBracket);
            pos += 1;
        } else if c == '"' {
            match read_string(&text, pos + 1, line_number) {
                Ok((token, next)) => {
                    tokens.push(token);
                    pos = next;
                },
                Err(e) => {
                    return Err(e);
                },
            }
        } else if is_digit_char(c) || c == '-' {
            match read_number(&text, pos, line_number) {
                Ok((token, next)) => {
                    tokens.push(token);
                    pos = next;
                },
                Err(e) => {
                    return Err(e);
                },
            }
        } else if is_letter_char(c) || c == '_' {
            let (token, next) = read_identifier(&text, pos);
            tokens.push(token);
            pos = next;
        } else if is_whitespace_char(c) {
            pos += 1;
        } else {
            let mut message = String::from_str("Unknown character: ");
            push_char(&mut message, c);
            return Err(Error::new(ErrorKind::Tokenizer, message, line_number));
        }
        proof {
            let step = token_at(text@, start as int, line_number);
            assert(step is Ok);
            let first = match step->Ok_0.0 {
                Some(t) => seq![t],
                None => Seq::empty(),
            };
            assert(token_views(tokens@) == before + first);
            let rest = tokens_from(text@, pos as int, line_number);
            if rest is Ok {
                assert(before + (first + rest->Ok_0) == (before + first) + rest->Ok_0);
            }
        }
    }
    proof {
        let views = token_views(tokens@);
        assert(views + Seq::<TokenView>::empty() == views);
    }
    Ok(tokens)
}

} // verus!
