use hipack::{to_vec, Cause, Error, ErrorCode, Value};
use std::io;

fn io_failure() -> io::Error {
    io::Error::new(io::ErrorKind::Other, "disk full")
}

fn utf8_failure() -> std::string::FromUtf8Error {
    String::from_utf8(vec![0x66, 0xff]).unwrap_err()
}

#[test]
fn syntax_error_has_no_position() {
    assert!(matches!(
        Error::syntax(ErrorCode::InvalidKey),
        Error::SyntaxError(ErrorCode::InvalidKey, 0, 0, 0)
    ));
    assert!(matches!(
        to_vec(&Value::Absent),
        Err(Error::SyntaxError(ErrorCode::UnrepresentableValue, 0, 0, 0))
    ));
}

#[test]
fn code_phrases() {
    assert_eq!("Invalid key", ErrorCode::InvalidKey.phrase());
    assert_eq!("Value cannot be represented", ErrorCode::UnrepresentableValue.phrase());
}

#[test]
fn codes_compare() {
    assert_eq!(ErrorCode::InvalidKey, ErrorCode::InvalidKey.clone());
    assert_ne!(ErrorCode::InvalidKey, ErrorCode::UnrepresentableValue);
}

#[test]
fn syntax_error_message() {
    assert_eq!(
        "\"Invalid key\" at line 0 column 0",
        Error::syntax(ErrorCode::InvalidKey).to_string()
    );
    assert_eq!(
        "\"Value cannot be represented\" at line 12 column 345",
        Error::SyntaxError(ErrorCode::UnrepresentableValue, 7, 12, 345).to_string()
    );
    assert_eq!(
        format!("\"Invalid key\" at line {} column 10", usize::MAX),
        Error::SyntaxError(ErrorCode::InvalidKey, 0, usize::MAX, 10).to_string()
    );
}

#[test]
fn wrapped_errors_speak_for_themselves() {
    assert_eq!(format!("{}", io_failure()), Error::IoError(io_failure()).to_string());
    assert_eq!("disk full", Error::IoError(io_failure()).to_string());
    assert_eq!(format!("{}", utf8_failure()), Error::FromUtf8Error(utf8_failure()).to_string());
}

#[test]
#[allow(deprecated)]
fn descriptions() {
    assert_eq!("syntax error", Error::syntax(ErrorCode::InvalidKey).description());
    assert_eq!("syntax error", Error::SyntaxError(ErrorCode::UnrepresentableValue, 1, 2, 3).description());
    assert_eq!(
        std::error::Error::description(&io_failure()),
        Error::IoError(io_failure()).description()
    );
    assert_eq!(
        std::error::Error::description(&utf8_failure()),
        Error::FromUtf8Error(utf8_failure()).description()
    );
}

#[test]
fn causes() {
    assert!(Error::syntax(ErrorCode::InvalidKey).cause().is_none());
    let wrapped = Error::IoError(io_failure());
    match wrapped.cause() {
        Some(Cause::Io(inner)) => assert_eq!(io::ErrorKind::Other, inner.kind()),
        _ => panic!("an I/O error is its own cause"),
    }
    let wrapped = Error::FromUtf8Error(utf8_failure());
    match wrapped.cause() {
        Some(Cause::Utf8(inner)) => assert_eq!(1, inner.utf8_error().valid_up_to()),
        _ => panic!("a conversion error is its own cause"),
    }
}

#[test]
fn codes_of_errors() {
    assert_eq!(Some(ErrorCode::InvalidKey), Error::syntax(ErrorCode::InvalidKey).code());
    assert_eq!(
        Some(ErrorCode::UnrepresentableValue),
        Error::SyntaxError(ErrorCode::UnrepresentableValue, 3, 2, 1).code()
    );
    assert_eq!(None, Error::IoError(io_failure()).code());
    assert_eq!(None, Error::FromUtf8Error(utf8_failure()).code());
}

#[test]
fn conversions() {
    assert!(matches!(Error::from(io_failure()), Error::IoError(_)));
    assert!(matches!(Error::from(utf8_failure()), Error::FromUtf8Error(_)));
}
