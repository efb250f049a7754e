use vstd::prelude::*;
use crate::token::{TokenKind, TokenType};

verus! {

/// Why an evaluation failed. Every failure ends the evaluation at once.
#[derive(Clone, Copy, Debug, PartialEq, Eq, Structural)]
pub enum EvalError {
    /// The lexer met a byte that is not a digit, a space, `+` or `-`;
    /// `position` is its byte offset in the text.
    InvalidCharacter { character: char, position: usize },
    /// The current token does not fit the grammar: it should have been of
    /// kind `expected`. An expected `EOF` means that a complete expression
    /// is followed by more input.
    SyntaxError { expected: TokenKind, found: TokenType },
    /// A literal, or the running result, left the range of `i32`.
    IntegerOverflow,
}

} // verus!
