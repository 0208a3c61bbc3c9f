use vstd::prelude::*;

use crate::tokenizer::{Token, TokenModel};
use crate::value::Type;

verus! {

#[verifier::external_type_specification]
#[verifier::external_body]
pub struct ExIoErrorKind(std::io::ErrorKind);

/// A failure of parsing or evaluation.
#[derive(Debug, PartialEq)]
pub struct Error {
    pub error_type: ErrorType,
}

/// The kinds of failure, with their payloads.
#[derive(Debug, PartialEq)]
pub enum ErrorType {
    UnexpectedToken(Token),
    MissingToken,
    UndefinedFunction(String),
    ArgumentError,
    NotAFunction(String),
    TooFewArguments,
    IOError(std::io::ErrorKind),
    TypeError { expected_type: Type, actual_type: Type },
    /// User-defined calls nested deeper than a 64-bit count: the host's stack runs
    /// out long before, so no evaluation gives this in practice.
    CallDepthExceeded,
}

/// The mathematical value of a failure.
pub enum ErrorModel {
    UnexpectedToken(TokenModel),
    MissingToken,
    UndefinedFunction(Seq<char>),
    ArgumentError,
    NotAFunction(Seq<char>),
    TooFewArguments,
    IOError(std::io::ErrorKind),
    TypeError { expected_type: Type, actual_type: Type },
    CallDepthExceeded,
}

impl View for ErrorType {
    type V = ErrorModel;

    open spec fn view(&self) -> ErrorModel {
        match self {
            ErrorType::UnexpectedToken(t) => ErrorModel::UnexpectedToken(t@),
            ErrorType::MissingToken => ErrorModel::MissingToken,
            ErrorType::UndefinedFunction(s) => ErrorModel::UndefinedFunction(s@),
            ErrorType::ArgumentError => ErrorModel::ArgumentError,
            ErrorType::NotAFunction(s) => ErrorModel::NotAFunction(s@),
            ErrorType::TooFewArguments => ErrorModel::TooFewArguments,
            ErrorType::IOError(k) => ErrorModel::IOError(*k),
            ErrorType::TypeError { expected_type, actual_type } => ErrorModel::TypeError {
                expected_type: *expected_type,
                actual_type: *actual_type,
            },
            ErrorType::CallDepthExceeded => ErrorModel::CallDepthExceeded,
        }
    }
}

impl View for Error {
    type V = ErrorModel;

    open spec fn view(&self) -> ErrorModel {
        self.error_type@
    }
}

impl Error {
    /// Builds an error of the given kind; the message is for the reader of the code only.
    pub fn new(_message: &str, error_type: ErrorType) -> (r: Self)
        ensures
            r.error_type == error_type,
    {
        Error { error_type }
    }
}

} // verus!
