//! The errors of the library.

use crate::span::LocateError;
use vstd::prelude::*;

verus! {

/// What can end an analysis or a scan.
#[derive(Clone, Debug, PartialEq, Eq)]
pub enum ProgError {
    /// A file could not be read; the message names the file and the cause.
    IO(String),
    /// A configuration or a pattern could not be parsed; the message holds
    /// the parser's own words.
    ParseFailure(String),
    /// The pattern matched nowhere in the text.
    NoMatch,
    /// A group of the pattern could not be located in the pattern's text.
    Locate(LocateError),
}

/// The mathematical value of a `ProgError`.
pub enum ErrorModel {
    IO(Seq<char>),
    ParseFailure(Seq<char>),
    NoMatch,
    Locate(LocateError),
}

impl View for ProgError {
    type V = ErrorModel;

    open spec fn view(&self) -> ErrorModel {
        match self {
            ProgError::IO(message) => ErrorModel::IO(message@),
            ProgError::ParseFailure(message) => ErrorModel::ParseFailure(message@),
            ProgError::NoMatch => ErrorModel::NoMatch,
            ProgError::Locate(cause) => ErrorModel::Locate(*cause),
        }
    }
}

impl ErrorModel {
    /// The words in which an error is reported.
    pub open spec fn message(self) -> Seq<char> {
        match self {
            ErrorModel::IO(message) => message,
            ErrorModel::ParseFailure(message) => "failed to parse: "@ + message,
            ErrorModel::NoMatch => "found no matches"@,
            ErrorModel::Locate(LocateError::MissingTag) => {
                "capture group is not named in the pattern text"@
            },
            ErrorModel::Locate(LocateError::MissingOpen) => {
                "capture group has no opening parenthesis"@
            },
            ErrorModel::Locate(LocateError::Unclosed) => {
                "capture group has no closing parenthesis"@
            },
        }
    }
}

impl ProgError {
    /// The words in which this error is reported.
    pub fn message(&self) -> (words: String)
        ensures
            words@ == self@.message(),
    {
        match self {
            ProgError::IO(message) => message.clone(),
            ProgError::ParseFailure(message) => {
                String::from_str("failed to parse: ").concat(message.as_str())
            },
            ProgError::NoMatch => String::from_str("found no matches"),
            ProgError::Locate(LocateError::MissingTag) => {
                String::from_str("capture group is not named in the pattern text")
            },
            ProgError::Locate(LocateError::MissingOpen) => {
                String::from_str("capture group has no opening parenthesis")
            },
            ProgError::Locate(LocateError::Unclosed) => {
                String::from_str("capture group has no closing parenthesis")
            },
        }
    }
}

} // verus!
