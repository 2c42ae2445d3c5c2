//! The failure vocabulary. Every failure is fatal to the recognition attempt:
//! the checker surfaces the first error as a structured value and stops.

use vstd::prelude::*;

verus! {

/// Mathematical model of a lexical error.
pub enum LexErr {
    /// A malformed numeric literal, with the line (count of line feeds seen).
    MalformedNumber { line: int },
    /// A string literal with no closing quote, with the line.
    MissingQuote { line: int },
    /// A bareword that is none of the reserved words.
    UnknownKeyword { text: Seq<char> },
    /// A character that starts no token.
    UnknownChar { c: char },
    /// The scanner could not look one character ahead of a decimal point.
    PeekFailed,
}

/// An error raised by the scanner while forming a token.
#[derive(Debug)]
pub enum LexError {
    MalformedNumber { line: u64 },
    MissingQuote { line: u64 },
    UnknownKeyword { text: String },
    UnknownChar { c: char },
    PeekFailed,
}

impl View for LexError {
    type V = LexErr;

    open spec fn view(&self) -> LexErr {
        match self {
            LexError::MalformedNumber { line } => LexErr::MalformedNumber { line: *line as int },
            LexError::MissingQuote { line } => LexErr::MissingQuote { line: *line as int },
            LexError::UnknownKeyword { text } => LexErr::UnknownKeyword { text: text@ },
            LexError::UnknownChar { c } => LexErr::UnknownChar { c: *c },
            LexError::PeekFailed => LexErr::PeekFailed,
        }
    }
}

/// Mathematical model of a recognition error.
pub enum ParseErr {
    /// A token other than the one the grammar requires appeared.
    ExpectedString,
    /// A comma directly before the brace that closes an object.
    TrailingComma,
    /// The scanner failed while the recognizer pulled a token.
    Lexical { err: LexErr },
}

/// An error raised by the recognizer, or passed up from the scanner.
#[derive(Debug)]
pub enum ParseError {
    ExpectedString,
    TrailingComma,
    Lexical { err: LexError },
}

impl View for ParseError {
    type V = ParseErr;

    open spec fn view(&self) -> ParseErr {
        match self {
            ParseError::ExpectedString => ParseErr::ExpectedString,
            ParseError::TrailingComma => ParseErr::TrailingComma,
            ParseError::Lexical { err } => ParseErr::Lexical { err: err@ },
        }
    }
}

} // verus!
