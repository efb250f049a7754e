//! An evaluator for left-associative chains of integer additions and
//! subtractions, written as a pull-based lexer feeding a recursive-descent
//! parser.

pub mod token;
pub mod error;
pub mod grammar;
pub mod interpreter;
pub mod laws;
