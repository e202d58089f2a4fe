//! Errors of the three stages: tokenizer, parser and engine.

use vstd::prelude::*;
use crate::text::{decimal_text_of, push_decimal};

verus! {

/// The stage in which an error arose.
#[derive(Debug, Clone, Copy, PartialEq, Eq, Structural)]
pub enum ErrorKind {
    Tokenizer,
    Parse,
    Engine,
}

/// An error: its kind, a message and the 1-based line of the offending cell.
#[derive(Debug)]
pub struct Error {
    pub kind: ErrorKind,
    pub message: String,
    pub line_number: usize,
}

/// The mathematical value of an [`Error`].
pub struct ErrorView {
    pub kind: ErrorKind,
    pub message: Seq<char>,
    pub line_number: usize,
}

/// The name under which a kind is reported.
pub open spec fn kind_name(kind: ErrorKind) -> Seq<char> {
    match kind {
        ErrorKind::Tokenizer => "TokenizerError"@,
        ErrorKind::Parse => "ParseError"@,
        ErrorKind::Engine => "EngineError"@,
    }
}

/// The rendered form of an error: `Kind: "message" at line: N`.
pub open spec fn render_error(e: ErrorView) -> Seq<char> {
    kind_name(e.kind) + ": \""@ + e.message + "\" at line: "@ + decimal_text_of(
        e.line_number as nat,
    )
}

impl ErrorKind {
    /// Returns the name under which the kind is reported.
    pub fn as_str(&self) -> (name: &'static str)
        ensures
            name@ == kind_name(*self),
    {
        match self {
            ErrorKind::Tokenizer => "TokenizerError",
            ErrorKind::Parse => "ParseError",
            ErrorKind::Engine => "EngineError",
        }
    }
}

impl View for Error {
    type V = ErrorView;

    open spec fn view(&self) -> ErrorView {
        ErrorView { kind: self.kind, message: self.message@, line_number: self.line_number }
    }
}

impl Error {
    /// An error of the kind `kind` with the message `message`, on line `line_number`.
    pub fn new(kind: ErrorKind, message: String, line_number: usize) -> (e: Error)
        ensures
            e.kind == kind,
            e.message == message,
            e.line_number == line_number,
            e@ == (ErrorView { kind, message: message@, line_number }),
    {
        Error { kind, message, line_number }
    }

    /// Renders the error as `Kind: "message" at line: N`.
    pub fn to_string(&self) -> (s: String)
        ensures
            s@ == render_error(self@),
    {
        let mut s = String::from_str(self.kind.as_str());
        s.append(": \"");
        s.append(self.message.as_str());
        s.append("\" at line: ");
        push_decimal(&mut s, self.line_number as u128);
        s
    }
}

} // verus!
