use vstd::prelude::*;

verus! {

/// The kinds of failure that the hub and its nodes report to each other.
#[derive(Debug, Clone, Copy, PartialEq, Eq, Structural)]
pub enum UnicomErrorKind {
    NotFound,
    ParameterInvalid,
    InputInvalid,
    NotAllowed,
    Timeout,
    Empty,
    Internal,
    Io,
    Encoding,
}

/// An error with its kind and a human readable message.
#[derive(Debug, Clone)]
pub struct UnicomError {
    pub kind: UnicomErrorKind,
    pub message: String,
}

/// HTTP status code that the dispatcher answers with for an error kind.
pub open spec fn status_of(kind: UnicomErrorKind) -> u16 {
    match kind {
        UnicomErrorKind::NotFound => 404,
        UnicomErrorKind::ParameterInvalid => 400,
        UnicomErrorKind::InputInvalid => 400,
        UnicomErrorKind::NotAllowed => 403,
        UnicomErrorKind::Timeout => 504,
        _ => 500,
    }
}

impl UnicomError {
    pub fn new(kind: UnicomErrorKind, message: &str) -> (r: UnicomError)
        ensures
            r.kind == kind,
            r.message@ == message@,
    {
        UnicomError { kind, message: message.to_owned() }
    }

    /// The HTTP status code for this error.
    pub fn http_status(&self) -> (r: u16)
        ensures
            r == status_of(self.kind),
    {
        match self.kind {
            UnicomErrorKind::NotFound => 404,
            UnicomErrorKind::ParameterInvalid => 400,
            UnicomErrorKind::InputInvalid => 400,
            UnicomErrorKind::NotAllowed => 403,
            UnicomErrorKind::Timeout => 504,
            _ => 500,
        }
    }
}

} // verus!
