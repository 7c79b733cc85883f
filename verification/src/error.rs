//! The library's error: a kind and a message.
use vstd::prelude::*;

verus! {

/// What sort of failure an [`Error`] reports.
#[derive(Debug, Clone, Copy, PartialEq, Eq, Structural)]
pub enum ErrorKind {
    /// The input breaks a rule of the format.
    DataInvalid,
    /// The input asks for something that is not supported.
    FeatureUnsupported,
    /// The call does not fit the state of the object.
    Unexpected,
}

/// A failure with its kind and a message for people.
#[derive(Debug)]
pub struct Error {
    kind: ErrorKind,
    message: String,
}

/// The mathematical value of an [`Error`].
pub struct ErrorModel {
    /// The kind.
    pub kind: ErrorKind,
    /// The characters of the message.
    pub message: Seq<char>,
}

impl View for Error {
    type V = ErrorModel;

    closed spec fn view(&self) -> ErrorModel {
        ErrorModel { kind: self.kind, message: self.message@ }
    }
}

impl Error {
    /// Makes an error.
    pub fn new(kind: ErrorKind, message: String) -> (error: Error)
        ensures
            error@ == (ErrorModel { kind, message: message@ }),
    {
        Error { kind, message }
    }

    /// The kind of the error.
    pub fn kind(&self) -> (kind: ErrorKind)
        ensures
            kind == self@.kind,
    {
        self.kind
    }

    /// The message of the error.
    pub fn message(&self) -> (message: &str)
        ensures
            message@ == self@.message,
    {
        self.message.as_str()
    }
}

/// The model of an error of kind [`ErrorKind::DataInvalid`].
pub open spec fn invalid(message: Seq<char>) -> ErrorModel {
    ErrorModel { kind: ErrorKind::DataInvalid, message }
}

/// The model of an error of kind [`ErrorKind::Unexpected`].
pub open spec fn unexpected(message: Seq<char>) -> ErrorModel {
    ErrorModel { kind: ErrorKind::Unexpected, message }
}

} // verus!
