use vstd::prelude::*;

verus! {

/// The kinds of failure that scanning and parsing report. Each carries a
/// human-readable message.
#[derive(Debug)]
pub enum Error {
    /// Accumulated bytes could not be turned into text.
    Buffer(String),
    /// A token of the wrong grammatical kind.
    Unexpected(String),
    /// A token whose literal breaks its own class's grammar.
    Invalid(String),
    /// An input (or parenthesized sub-input) without any expression.
    Empty(String),
    /// An input that ends in the middle of an expression.
    Incomplete(String),
}

impl Error {
    /// The message carried by the error, whatever its kind.
    pub fn message(&self) -> (r: &String)
        ensures
            r == match self {
                Error::Buffer(m) => m,
                Error::Unexpected(m) => m,
                Error::Invalid(m) => m,
                Error::Empty(m) => m,
                Error::Incomplete(m) => m,
            },
    {
        match self {
            Error::Buffer(m) => m,
            Error::Unexpected(m) => m,
            Error::Invalid(m) => m,
            Error::Empty(m) => m,
            Error::Incomplete(m) => m,
        }
    }
}

/// The kind of an error, without its message.
pub enum ErrKind {
    Buffer,
    Unexpected,
    Invalid,
    Empty,
    Incomplete,
}

pub open spec fn err_kind(e: Error) -> ErrKind {
    match e {
        Error::Buffer(_) => ErrKind::Buffer,
        Error::Unexpected(_) => ErrKind::Unexpected,
        Error::Invalid(_) => ErrKind::Invalid,
        Error::Empty(_) => ErrKind::Empty,
        Error::Incomplete(_) => ErrKind::Incomplete,
    }
}

} // verus!
