//! A small interpreter for a Pascal-like language: integer arithmetic with
//! parentheses and unary signs, variables, assignments, and `BEGIN ... END`
//! blocks closed by a period.
//!
//! A text goes through three stages. The [`lexer`] splits it into tokens, the
//! [`parser`] builds a tree from the tokens by recursive descent, and the
//! [`interpreter`] walks the tree and keeps the variables in a [`store`].
//! [`interpreter::run_program`] runs all three.
//!
//! What each stage computes is stated apart from how it computes it:
//! [`lexical`] says what the tokens of a text are, [`grammar`] what the tree
//! of a token stream is, and [`semantics`] what a tree evaluates to. The
//! grammar is stated a second time in [`derivation`], as a relation between
//! tokens and trees, and [`soundness`] and [`completeness`] prove that the
//! two agree. [`wellformed`] proves that parsed trees are in order, and
//! [`laws`] holds what follows for whole programs.

pub mod ast;
pub mod chars;
pub mod completeness;
pub mod derivation;
pub mod error;
pub mod grammar;
pub mod interpreter;
pub mod laws;
pub mod lexer;
pub mod lexical;
pub mod parser;
pub mod semantics;
pub mod soundness;
pub mod store;
pub mod token;
pub mod wellformed;
