//! The ways in which encoding can fail.

use vstd::prelude::*;
use vstd::string::*;

verus! {

/// `std::io::Error`, carried through as an opaque value: nothing is known
/// of what it holds.
#[verifier::external_type_specification]
#[verifier::external_body]
pub struct ExIoError(std::io::Error);

/// `std::string::FromUtf8Error`, carried through as an opaque value:
/// nothing is known of what it holds.
#[verifier::external_type_specification]
#[verifier::external_body]
pub struct ExFromUtf8Error(std::string::FromUtf8Error);

/// Why a value cannot be written in the format.
#[derive(Clone, Copy, Debug, PartialEq, Eq, Structural)]
pub enum ErrorCode {
    /// A mapping key that is not a string.
    InvalidKey,
    /// An absent value: the format has no literal for it.
    UnrepresentableValue,
}

/// A failed encoding. Every error ends the call that met it.
#[derive(Debug)]
pub enum Error {
    /// The value has no text in the format. The three numbers are a byte
    /// offset, a line and a column; encoding leaves them at zero.
    SyntaxError(ErrorCode, usize, usize, usize),
    /// Bytes that were to be read as text are not UTF-8.
    FromUtf8Error(std::string::FromUtf8Error),
    /// The destination refused a write.
    IoError(std::io::Error),
}

/// What lies behind an [`Error`] that wraps another.
pub enum Cause<'a> {
    /// The failed conversion to text.
    Utf8(&'a std::string::FromUtf8Error),
    /// The failed write.
    Io(&'a std::io::Error),
}

/// The phrase for each code.
pub open spec fn code_phrase(code: ErrorCode) -> Seq<char> {
    match code {
        ErrorCode::InvalidKey => "Invalid key"@,
        ErrorCode::UnrepresentableValue => "Value cannot be represented"@,
    }
}

/// The character for the digit `d`, which is below ten.
pub open spec fn digit_char(d: nat) -> char {
    if d == 0 {
        '0'
    } else if d == 1 {
        '1'
    } else if d == 2 {
        '2'
    } else if d == 3 {
        '3'
    } else if d == 4 {
        '4'
    } else if d == 5 {
        '5'
    } else if d == 6 {
        '6'
    } else if d == 7 {
        '7'
    } else if d == 8 {
        '8'
    } else {
        '9'
    }
}

/// `n` in decimal, without leading zeros.
pub open spec fn decimal(n: nat) -> Seq<char>
    decreases n,
{
    if n < 10 {
        seq![digit_char(n)]
    } else {
        decimal(n / 10).push(digit_char(n % 10))
    }
}

/// The message of a syntax error: the quoted phrase of its code, then the
/// line and the column.
pub open spec fn syntax_message(code: ErrorCode, line: nat, column: nat) -> Seq<char> {
    seq!['"'] + code_phrase(code) + "\" at line "@ + decimal(line) + " column "@ + decimal(column)
}

/// The text of the I/O error, as the standard library words it.
/// Calls the `Display` impl of `std::io::Error`; nothing is claimed of the
/// wording, which follows the operating system.
#[verifier::external_body]
fn io_error_text(error: &std::io::Error) -> String {
    format!("{}", error)
}

/// The text of the conversion error, as the standard library words it.
/// Calls the `Display` impl of `std::string::FromUtf8Error`; nothing is
/// claimed of the wording.
#[verifier::external_body]
fn utf8_error_text(error: &std::string::FromUtf8Error) -> String {
    format!("{}", error)
}

/// The short description of the I/O error, as the standard library gives it.
/// Calls `std::error::Error::description` on `std::io::Error`; nothing is
/// claimed of the wording.
#[verifier::external_body]
#[allow(deprecated)]
fn io_error_description(error: &std::io::Error) -> String {
    std::error::Error::description(error).to_owned()
}

/// The short description of the conversion error, as the standard library
/// gives it. Calls `std::error::Error::description` on
/// `std::string::FromUtf8Error`; nothing is claimed of the wording.
#[verifier::external_body]
#[allow(deprecated)]
fn utf8_error_description(error: &std::string::FromUtf8Error) -> String {
    std::error::Error::description(error).to_owned()
}

/// One decimal digit as a string.
fn digit_str(d: usize) -> (text: &'static str)
    requires
        d < 10,
    ensures
        text@ == seq![digit_char(d as nat)],
{
    proof {
        reveal_strlit("0");
        reveal_strlit("1");
        reveal_strlit("2");
        reveal_strlit("3");
        reveal_strlit("4");
        reveal_strlit("5");
        reveal_strlit("6");
        reveal_strlit("7");
        reveal_strlit("8");
        reveal_strlit("9");
    }
    if d == 0 {
        "0"
    } else if d == 1 {
        "1"
    } else if d == 2 {
        "2"
    } else if d == 3 {
        "3"
    } else if d == 4 {
        "4"
    } else if d == 5 {
        "5"
    } else if d == 6 {
        "6"
    } else if d == 7 {
        "7"
    } else if d == 8 {
        "8"
    } else {
        "9"
    }
}

/// Appends `n` in decimal.
fn push_decimal(text: &mut String, n: usize)
    ensures
        final(text)@ == old(text)@ + decimal(n as nat),
    decreases n,
{
    if n >= 10 {
        push_decimal(text, n / 10);
    }
    text.append(digit_str(n % 10));
}

impl ErrorCode {
    /// The phrase that names the code in messages.
    pub fn phrase(&self) -> (text: &'static str)
        ensures
            text@ == code_phrase(*self),
    {
        match self {
            ErrorCode::InvalidKey => "Invalid key",
            ErrorCode::UnrepresentableValue => "Value cannot be represented",
        }
    }
}

impl Error {
    /// The error for a value that has no text in the format, with no position.
    pub fn syntax(code: ErrorCode) -> (error: Error)
        ensures
            error == Error::SyntaxError(code, 0, 0, 0),
    {
        Error::SyntaxError(code, 0, 0, 0)
    }

    /// The code of a syntax error; `None` for the errors that wrap another.
    pub fn code(&self) -> (code: Option<ErrorCode>)
        ensures
            code == match *self {
                Error::SyntaxError(c, _, _, _) => Some(c),
                _ => None,
            },
    {
        match self {
            Error::SyntaxError(c, _, _, _) => Some(*c),
            _ => None,
        }
    }

    /// A few words on the kind of error: `syntax error`, or the description
    /// of the error that this one wraps.
    pub fn description(&self) -> (text: String)
        ensures
            *self is SyntaxError ==> text@ == "syntax error"@,
    {
        match self {
            Error::SyntaxError(..) => String::from_str("syntax error"),
            Error::FromUtf8Error(inner) => utf8_error_description(inner),
            Error::IoError(inner) => io_error_description(inner),
        }
    }

    /// The error that this one wraps; `None` for a syntax error.
    pub fn cause(&self) -> (cause: Option<Cause<'_>>)
        ensures
            match *self {
                Error::SyntaxError(..) => cause is None,
                Error::FromUtf8Error(inner) => cause == Some(Cause::Utf8(&inner)),
                Error::IoError(inner) => cause == Some(Cause::Io(&inner)),
            },
    {
        match self {
            Error::SyntaxError(..) => None,
            Error::FromUtf8Error(inner) => Some(Cause::Utf8(inner)),
            Error::IoError(inner) => Some(Cause::Io(inner)),
        }
    }

    /// The message of the error. For a syntax error it is the quoted phrase
    /// of the code with the line and the column; an error that wraps another
    /// speaks with the words of the one it wraps.
    pub fn to_string(&self) -> (text: String)
        ensures
            *self matches Error::SyntaxError(code, _, line, column) ==> text@ == syntax_message(
                code,
                line as nat,
                column as nat,
            ),
    {
        match self {
            Error::SyntaxError(code, _, line, column) => {
                let mut text = String::from_str("\"");
                text.append(code.phrase());
                text.append("\" at line ");
                push_decimal(&mut text, *line);
                text.append(" column ");
                push_decimal(&mut text, *column);
                proof {
                    reveal_strlit("\"");
                }
                text
            },
            Error::FromUtf8Error(inner) => utf8_error_text(inner),
            Error::IoError(inner) => io_error_text(inner),
        }
    }
}

impl From<std::io::Error> for Error {
    fn from(error: std::io::Error) -> (converted: Error) {
        Error::IoError(error)
    }
}

impl vstd::std_specs::convert::FromSpecImpl<std::io::Error> for Error {
    open spec fn obeys_from_spec() -> bool {
        true
    }

    open spec fn from_spec(error: std::io::Error) -> Error {
        Error::IoError(error)
    }
}

impl From<std::string::FromUtf8Error> for Error {
    fn from(error: std::string::FromUtf8Error) -> (converted: Error) {
        Error::FromUtf8Error(error)
    }
}

impl vstd::std_specs::convert::FromSpecImpl<std::string::FromUtf8Error> for Error {
    open spec fn obeys_from_spec() -> bool {
        true
    }

    open spec fn from_spec(error: std::string::FromUtf8Error) -> Error {
        Error::FromUtf8Error(error)
    }
}

} // verus!
