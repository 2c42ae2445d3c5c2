//! A JSON validity checker: a streaming lexical scanner turns the input text
//! into tokens, and a recursive-descent recognizer accepts or rejects the
//! token stream. The checker builds no document value; it only reports
//! whether the text conforms, or the first error found.

pub mod error;
pub mod lexer;
pub mod parser;
pub mod props;
pub mod token;
