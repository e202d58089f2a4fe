use minicel::errors::{Error, ErrorKind};

#[test]
fn kinds_have_their_names() {
    assert_eq!(ErrorKind::Tokenizer.as_str(), "TokenizerError");
    assert_eq!(ErrorKind::Parse.as_str(), "ParseError");
    assert_eq!(ErrorKind::Engine.as_str(), "EngineError");
}

#[test]
fn new_keeps_its_arguments() {
    let error = Error::new(ErrorKind::Parse, "oops".to_string(), 12);
    assert_eq!(error.kind, ErrorKind::Parse);
    assert_eq!(error.message, "oops");
    assert_eq!(error.line_number, 12);
}

#[test]
fn an_error_is_rendered_with_kind_message_and_line() {
    let error = Error::new(ErrorKind::Engine, "Unknown function foo".to_string(), 3);
    assert_eq!(error.to_string(), "EngineError: \"Unknown function foo\" at line: 3");
    let error = Error::new(ErrorKind::Tokenizer, String::new(), 0);
    assert_eq!(error.to_string(), "TokenizerError: \"\" at line: 0");
    let error = Error::new(ErrorKind::Parse, "x".to_string(), 1234567890);
    assert_eq!(error.to_string(), "ParseError: \"x\" at line: 1234567890");
}
