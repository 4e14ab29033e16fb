//! The errors of the game, and how they read.

use vstd::prelude::*;
use vstd::std_specs::convert::FromSpecImpl;

verus! {

/// `std::io::Error`, carried inside [`Error::Io`]; opaque to proofs.
#[verifier::external_type_specification]
#[verifier::external_body]
pub struct ExIoError(std::io::Error);

/// What can go wrong in the game.
#[derive(Debug)]
pub enum Error {
    /// Reading or writing a file failed.
    Io(std::io::Error),
    /// The system clock stands before 1970, so no random seed can be taken
    /// from it.
    ClockBeforeUnixEpoch,
    /// A stored number was empty.
    ParseIntEmpty,
    /// A stored number held a character that is not a digit.
    ParseIntInvalidDigit,
    /// A stored number does not fit in 32 bits.
    ParseIntPosOverflow,
    /// An error with a sentence saying what was being done.
    Context(Box<(&'static str, Error)>),
}

/// The message of an error, where it does not rest on an I/O error (whose
/// text comes from the standard library).
pub open spec fn error_text(e: Error) -> Option<Seq<char>>
    decreases e,
{
    match e {
        Error::Io(_) => None,
        Error::ClockBeforeUnixEpoch => Some(
            "Failed to generate random seed from system time: system clock is set before year 1970: second time provided was later than self"@,
        ),
        Error::ParseIntEmpty => Some("cannot parse integer from empty string"@),
        Error::ParseIntInvalidDigit => Some("invalid digit found in string"@),
        Error::ParseIntPosOverflow => Some("number too large to fit in target type"@),
        Error::Context(b) => match error_text(b.1) {
            Some(inner) => Some(b.0@ + ": "@ + inner),
            None => None,
        },
    }
}

/// Calls `std::io::Error`'s `Display` through `format!`. The text of an I/O
/// error comes from the standard library and is not stated.
#[verifier::external_body]
fn io_error_text(e: &std::io::Error) -> String {
    format!("{e}")
}

impl Error {
    /// The message of the error; a context error reads as its sentence, `": "`
    /// and the message of the error inside.
    pub fn to_string(&self) -> (text: String)
        ensures
            error_text(*self) matches Some(t) ==> text@ == t,
        decreases self,
    {
        match self {
            Error::Io(e) => io_error_text(e),
            Error::ClockBeforeUnixEpoch => {
                let t = "Failed to generate random seed from system time: system clock is set before year 1970: second time provided was later than self";
                String::from_str(t)
            },
            Error::ParseIntEmpty => String::from_str("cannot parse integer from empty string"),
            Error::ParseIntInvalidDigit => String::from_str("invalid digit found in string"),
            Error::ParseIntPosOverflow => String::from_str("number too large to fit in target type"),
            Error::Context(b) => {
                let inner = b.1.to_string();
                let mut text = String::from_str(b.0);
                text.append(": ");
                text.append(inner.as_str());
                text
            },
        }
    }
}

impl From<std::io::Error> for Error {
    fn from(e: std::io::Error) -> (r: Error) {
        Error::Io(e)
    }
}

impl FromSpecImpl<std::io::Error> for Error {
    open spec fn obeys_from_spec() -> bool {
        true
    }

    open spec fn from_spec(v: std::io::Error) -> Error {
        Error::Io(v)
    }
}

/// Wraps an error with a sentence saying what was being done.
pub fn contextual_error(message: &'static str, source: Error) -> (e: Error)
    ensures
        e == Error::Context(Box::new((message, source))),
{
    Error::Context(Box::new((message, source)))
}

/// Adding a sentence to the error of a failed result.
pub trait Context<T> {
    fn context(self, msg: &'static str) -> Result<T, Error>;
}

impl<T> Context<T> for Result<T, Error> {
    /// A success stays as it is; an error gets the sentence.
    fn context(self, msg: &'static str) -> (r: Result<T, Error>)
        ensures
            match self {
                Ok(v) => r == Ok::<T, Error>(v),
                Err(e) => r == Err::<T, Error>(Error::Context(Box::new((msg, e)))),
            },
    {
        match self {
            Ok(value) => Ok(value),
            Err(error) => Err(contextual_error(msg, error)),
        }
    }
}

impl<T> Context<T> for Result<T, std::io::Error> {
    /// A success stays as it is; an I/O error becomes [`Error::Io`] with the
    /// sentence.
    fn context(self, msg: &'static str) -> (r: Result<T, Error>)
        ensures
            match self {
                Ok(v) => r == Ok::<T, Error>(v),
                Err(e) => r == Err::<T, Error>(Error::Context(Box::new((msg, Error::Io(e))))),
            },
    {
        match self {
            Ok(value) => Ok(value),
            Err(error) => Err(contextual_error(msg, Error::Io(error))),
        }
    }
}

} // verus!
