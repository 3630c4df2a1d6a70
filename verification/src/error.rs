use vstd::prelude::*;

verus! {

/// The kinds of failure the connection surfaces to its caller.
#[non_exhaustive]
#[derive(Clone, Copy, Debug, PartialEq)]
pub enum ErrorKind {
    /// The connection has closed; no further interaction is possible.
    ConnectionClosed,
    /// The underlying transport failed; generally not recoverable.
    IO,
    /// An invariant of the engine was violated; indicates a bug, not a
    /// protocol condition.
    InternalError(&'static str),
}

/// The standard I/O error type, opaque to the verifier; carried through
/// as the cause of a transport failure, for inspection only.
#[verifier::external_type_specification]
#[verifier::external_body]
pub struct ExIoError(std::io::Error);

/// The mathematical content of an error: its kind, and the transport
/// error that caused it, when one did.
pub ghost struct ErrorModel {
    pub kind: ErrorKind,
    pub cause: Option<std::io::Error>,
}

/// The error type returned by the connection operations.
#[derive(Debug)]
pub struct ESLError {
    kind: ErrorKind,
    cause: Option<std::io::Error>,
}

impl View for ESLError {
    type V = ErrorModel;

    closed spec fn view(&self) -> ErrorModel {
        ErrorModel {
            kind: self.kind,
            cause: match self.cause {
                Some(ref e) => Some(*e),
                None => None,
            },
        }
    }
}

impl ESLError {
    pub fn new(kind: ErrorKind) -> (r: Self)
        ensures
            r@.kind == kind,
            r@.cause is None,
    {
        Self { kind, cause: None }
    }

    /// A transport failure, keeping the underlying error as its cause.
    pub fn from(value: std::io::Error) -> (r: Self)
        ensures
            r@.kind is IO,
            r@.cause == Some(value),
    {
        Self { kind: ErrorKind::IO, cause: Some(value) }
    }

    pub fn kind(&self) -> (r: &ErrorKind)
        ensures
            *r == self@.kind,
    {
        &self.kind
    }

    /// The underlying transport error, when this error wraps one.
    pub fn cause(&self) -> (r: Option<&std::io::Error>)
        ensures
            match r {
                Some(e) => self@.cause == Some(*e),
                None => self@.cause is None,
            },
    {
        self.cause.as_ref()
    }
}

} // verus!
