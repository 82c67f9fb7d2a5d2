//! The lexical errors that a scan can report.
use vstd::prelude::*;

verus! {

/// What a lexical error is, as plain mathematical data.
pub enum ErrorData {
    /// A character that starts no token and is not blank: the character and
    /// the line it stands on.
    UnexpectedCharacter(char, nat),
    /// A string literal with no closing quote before the end of the input:
    /// the line of its opening quote.
    UnterminatedString(nat),
}

/// A lexical error, with the line it is attributed to.
#[derive(Debug, Clone, Copy, PartialEq, Eq, Structural)]
pub enum ScanError {
    /// A character that starts no token and is not blank: the character and
    /// the line it stands on.
    UnexpectedCharacter(char, usize),
    /// A string literal with no closing quote before the end of the input:
    /// the line of its opening quote.
    UnterminatedString(usize),
}

impl View for ScanError {
    type V = ErrorData;

    open spec fn view(&self) -> ErrorData {
        match *self {
            ScanError::UnexpectedCharacter(c, line) => ErrorData::UnexpectedCharacter(
                c,
                line as nat,
            ),
            ScanError::UnterminatedString(line) => ErrorData::UnterminatedString(line as nat),
        }
    }
}

impl ErrorData {
    /// The line that the error is attributed to.
    pub open spec fn line(self) -> nat {
        match self {
            ErrorData::UnexpectedCharacter(_, line) => line,
            ErrorData::UnterminatedString(line) => line,
        }
    }
}

impl ScanError {
    /// The line that the error is attributed to.
    pub fn line(&self) -> (line: usize)
        ensures
            line as nat == self@.line(),
    {
        match self {
            ScanError::UnexpectedCharacter(_, line) => *line,
            ScanError::UnterminatedString(line) => *line,
        }
    }
}

/// The views of a sequence of errors, in the same order.
pub open spec fn error_views(errors: Seq<ScanError>) -> Seq<ErrorData> {
    Seq::new(errors.len(), |i: int| errors[i]@)
}

} // verus!
