//! The failures that loading can end in.

use vstd::prelude::*;

verus! {

/// What is wrong with a line that cannot be parsed.
#[derive(Clone, Copy, Debug, PartialEq, Eq, Structural)]
pub enum ParseErrorKind {
    /// A key is not followed by `=`.
    MissingEquals,
    /// A quoted value is not closed.
    UnterminatedQuote,
    /// The line does not start with a key.
    InvalidKey,
    /// A backslash stands before a byte that it cannot escape.
    BadEscape,
}

/// A failure of resolution or of parsing.
#[derive(Clone, Copy, Debug, PartialEq, Eq, Structural)]
pub enum Error {
    /// The source could not be located.
    NotFound,
    /// The source is there and could not be opened or read.
    Io,
    /// A line could not be parsed; `line` counts physical lines from 1.
    Parse { kind: ParseErrorKind, line: usize },
    /// A source was resolved a second time.
    State,
}

impl Error {
    /// Whether the failure is that the source could not be located.
    pub open spec fn is_not_found(self) -> bool {
        self == Error::NotFound
    }

    /// Tells whether the failure is that the source could not be located,
    /// the one failure that a caller may choose to tolerate.
    pub fn not_found(&self) -> (r: bool)
        ensures
            r == self.is_not_found(),
    {
        match self {
            Error::NotFound => true,
            _ => false,
        }
    }
}

} // verus!
