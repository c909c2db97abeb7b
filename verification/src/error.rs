//! Chain client errors
use vstd::prelude::*;

verus! {

/// Different variants of possible errors
#[derive(Copy, Clone, Eq, PartialEq, Debug)]
pub enum ErrorKind {
    /// Storage initialization error
    StorageInitializationError,
    /// Other storage error
    StorageError,
    /// Key generation error
    KeyGenerationError,
    /// Random number generator error
    RngError,
    /// Decryption error
    DecryptionError,
}

/// The message that describes each kind of error.
pub open spec fn error_kind_message(kind: ErrorKind) -> Seq<char> {
    match kind {
        ErrorKind::StorageInitializationError => "Storage initialization error"@,
        ErrorKind::StorageError => "Storage error"@,
        ErrorKind::KeyGenerationError => "Key generation error"@,
        ErrorKind::RngError => "Random number generator error"@,
        ErrorKind::DecryptionError => "Decryption error"@,
    }
}

impl ErrorKind {
    /// The message that describes this kind of error.
    pub fn message(&self) -> (res: &'static str)
        ensures
            res@ == error_kind_message(*self),
    {
        match self {
            ErrorKind::StorageInitializationError => "Storage initialization error",
            ErrorKind::StorageError => "Storage error",
            ErrorKind::KeyGenerationError => "Key generation error",
            ErrorKind::RngError => "Random number generator error",
            ErrorKind::DecryptionError => "Decryption error",
        }
    }
}

/// An opaque error type, used for all errors in this crate: its kind, and
/// the text of the error that caused it, if any.
#[derive(Debug)]
pub struct Error {
    kind: ErrorKind,
    cause: Option<String>,
}

impl View for Error {
    type V = ErrorKind;

    closed spec fn view(&self) -> ErrorKind {
        self.kind
    }
}

/// The text of the error that caused `e`, if any.
pub closed spec fn error_cause(e: Error) -> Option<Seq<char>> {
    match e.cause {
        Some(c) => Some(c@),
        None => None,
    }
}

/// The error of kind `kind`, with no cause.
pub closed spec fn error_of_kind(kind: ErrorKind) -> Error {
    Error { kind, cause: None }
}

/// The kind of an error made from a kind is that kind, and it has no cause.
pub proof fn lemma_error_kind_of(kind: ErrorKind)
    ensures
        error_of_kind(kind)@ == kind,
        error_cause(error_of_kind(kind)) is None,
{
}

impl Error {
    /// The error of kind `kind` caused by an error described by `cause`.
    pub fn with_cause(kind: ErrorKind, cause: String) -> (res: Error)
        ensures
            res@ == kind,
            error_cause(res) == Some(cause@),
    {
        Error { kind, cause: Some(cause) }
    }

    /// The text of the error that caused this one, if any.
    pub fn cause(&self) -> (res: Option<&str>)
        ensures
            match res {
                Some(c) => error_cause(*self) == Some(c@),
                None => error_cause(*self) is None,
            },
    {
        match &self.cause {
            Some(c) => Some(c.as_str()),
            None => None,
        }
    }

    /// Returns [`ErrorKind`] of current error
    pub fn kind(&self) -> (res: ErrorKind)
        ensures
            res == self@,
    {
        self.kind
    }

    /// The message that describes this error: that of its kind.
    pub fn message(&self) -> (res: &'static str)
        ensures
            res@ == error_kind_message(self@),
    {
        self.kind.message()
    }
}

impl From<ErrorKind> for Error {
    fn from(kind: ErrorKind) -> (res: Error) {
        Error { kind, cause: None }
    }
}

impl vstd::std_specs::convert::FromSpecImpl<ErrorKind> for Error {
    open spec fn obeys_from_spec() -> bool {
        true
    }

    open spec fn from_spec(kind: ErrorKind) -> Error {
        error_of_kind(kind)
    }
}

} // verus!
