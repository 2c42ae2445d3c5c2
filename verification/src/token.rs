//! The lexical vocabulary: a token is a piece of the input text together
//! with a kind tag.

use vstd::prelude::*;

verus! {

/// The closed set of token kinds. Layout kinds (whitespace and end-of-input,
/// plus the `Empty` sentinel that only marks an uninitialized lookahead slot),
/// single-character punctuation, the three reserved words, and the two
/// literal kinds.
#[derive(Clone, Copy, PartialEq, Eq, Structural, Debug)]
pub enum TokenKind {
    Empty,
    Eof,
    Linefeed,
    Space,
    Carriagereturn,
    Horizontaltab,
    Rparen,
    Lparen,
    Opcurlybracket,
    Clcurlybracket,
    Opsqbracket,
    Clsqbracket,
    Colon,
    Comma,
    Decimalpoint,
    True,
    False,
    Null,
    Number,
    String,
}

/// One lexical unit: the raw text consumed and its kind.
pub struct Token {
    pub text: String,
    pub kind: TokenKind,
}

} // verus!
