//! The ways in which a program text can fail: while it is split into tokens,
//! while the tokens are matched against the grammar, and while the tree is
//! evaluated.

use vstd::prelude::*;
use crate::token::TokenType;

verus! {

/// The text cannot be split into tokens.
#[derive(Clone, Copy, Debug, PartialEq, Eq, Structural)]
pub enum LexError {
    /// A character that starts no token.
    UnrecognizedChar(char),
    /// A `:` that is not followed by `=`.
    LoneColon,
    /// A run of digits whose value does not fit in an `i32`.
    IntegerOverflow,
}

/// The next token is not of the kind that the grammar asks for.
#[derive(Clone, Copy, Debug, PartialEq, Eq, Structural)]
pub struct SyntaxError {
    pub expected: TokenType,
    pub found: TokenType,
}

/// The tree cannot be evaluated.
#[derive(Clone, Copy, Debug, PartialEq, Eq, Structural)]
pub enum EvalError {
    /// The right operand of a division is zero.
    DivisionByZero,
    /// A variable is read before any assignment to it.
    UndefinedVariable,
    /// The result of an operation does not fit in an `i32`.
    Overflow,
    /// A number node whose token carries no integer.
    NotNumeric,
    /// An operator node whose token is no operator of that arity.
    InvalidOperator,
    /// A variable or an assignment target whose token carries no name.
    InvalidName,
}

/// Any failure of an interpretation, by the stage that it comes from.
#[derive(Clone, Copy, Debug, PartialEq, Eq, Structural)]
pub enum Error {
    Lex(LexError),
    Syntax(SyntaxError),
    Eval(EvalError),
}

} // verus!
