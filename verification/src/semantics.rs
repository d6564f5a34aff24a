//! What a tree means: the value it evaluates to and what it does to the
//! variables.

use vstd::prelude::*;
use crate::ast::Node;
use crate::error::{Error, EvalError};
use crate::grammar;
use crate::lexical::{lexemes, Lexeme};
use crate::token::{TokenType, TokenView, ValueView};

verus! {

/// The variables: each name that was assigned to, with the value assigned last.
pub type Store = Map<Seq<char>, i32>;

/// Where an evaluation ends: the variables as it leaves them, and its value
/// or the error that stopped it. After an error the variables are as they
/// were when it occurred.
pub struct Outcome {
    pub store: Store,
    pub result: Result<i32, EvalError>,
}

/// The value that statements evaluate to. They are run for their effect.
pub open spec fn unit_value() -> i32 {
    0
}

/// The integer `v` as a value, or `Overflow` if an `i32` cannot hold it.
pub open spec fn in_range(v: int) -> Result<i32, EvalError> {
    if i32::MIN <= v <= i32::MAX {
        Ok(v as i32)
    } else {
        Err(EvalError::Overflow)
    }
}

/// The quotient of `x` by `d`, rounded towards zero; `d` is not zero.
pub open spec fn quotient(x: int, d: int) -> int {
    let magnitude = (if x < 0 { -x } else { x }) / (if d < 0 { -d } else { d });
    if (x < 0) == (d < 0) {
        magnitude
    } else {
        -magnitude
    }
}

/// What the operator of kind `op` makes of the operands `l` and `r`.
pub open spec fn apply_binary(op: TokenType, l: i32, r: i32) -> Result<i32, EvalError> {
    match op {
        TokenType::PLUS => in_range(l + r),
        TokenType::MINUS => in_range(l - r),
        TokenType::MUL => in_range(l * r),
        TokenType::DIV => if r == 0 {
            Err(EvalError::DivisionByZero)
        } else {
            in_range(quotient(l as int, r as int))
        },
        _ => Err(EvalError::InvalidOperator),
    }
}

/// What the operator of kind `op` makes of the operand `v`.
pub open spec fn apply_unary(op: TokenType, v: i32) -> Result<i32, EvalError> {
    match op {
        TokenType::PLUS => Ok(v),
        TokenType::MINUS => in_range(-v),
        _ => Err(EvalError::InvalidOperator),
    }
}

/// The integer that a token carries, or `NotNumeric`.
pub open spec fn number_of(token: TokenView) -> Result<i32, EvalError> {
    match token.value {
        Some(ValueView::INT(n)) => Ok(n),
        _ => Err(EvalError::NotNumeric),
    }
}

/// The name that a token carries, or `InvalidName`.
pub open spec fn name_of(token: TokenView) -> Result<Seq<char>, EvalError> {
    match token.value {
        Some(ValueView::STRING(name)) => Ok(name),
        _ => Err(EvalError::InvalidName),
    }
}

/// The name of the variable that `target` is, or `InvalidName` if it is no
/// variable.
pub open spec fn target_name(target: Node) -> Result<Seq<char>, EvalError> {
    match target {
        Node::Var { token } => name_of(token),
        _ => Err(EvalError::InvalidName),
    }
}

/// The value of the variable `name`, or `UndefinedVariable` if nothing was
/// assigned to it.
pub open spec fn lookup(store: Store, name: Seq<char>) -> Result<i32, EvalError> {
    if store.contains_key(name) {
        Ok(store[name])
    } else {
        Err(EvalError::UndefinedVariable)
    }
}

/// Evaluates `node` with the variables `store`.
///
/// A number is its literal; a variable is the value assigned to it last. An
/// operator evaluates its operands from left to right and stops at the first
/// that fails. An assignment evaluates its right side and then binds the
/// name; a block runs its statements in order and stops at the first that
/// fails. Assignments, blocks and the empty statement evaluate to
/// [`unit_value`].
pub open spec fn eval(node: Node, store: Store) -> Outcome
    decreases node,
{
    match node {
        Node::Num { token } => Outcome { store, result: number_of(token) },
        Node::Var { token } => match name_of(token) {
            Ok(name) => Outcome { store, result: lookup(store, name) },
            Err(e) => Outcome { store, result: Err(e) },
        },
        Node::UnaryOp { op, expr } => {
            let operand = eval(*expr, store);
            match operand.result {
                Ok(v) => Outcome { store: operand.store, result: apply_unary(op.genre, v) },
                Err(_) => operand,
            }
        },
        Node::BinOp { left, op, right } => {
            let l = eval(*left, store);
            match l.result {
                Ok(a) => {
                    let r = eval(*right, l.store);
                    match r.result {
                        Ok(b) => Outcome { store: r.store, result: apply_binary(op.genre, a, b) },
                        Err(_) => r,
                    }
                },
                Err(_) => l,
            }
        },
        Node::Assign { left, op, right } => match target_name(*left) {
            Ok(name) => {
                let r = eval(*right, store);
                match r.result {
                    Ok(v) => Outcome { store: r.store.insert(name, v), result: Ok(unit_value()) },
                    Err(_) => r,
                }
            },
            Err(e) => Outcome { store, result: Err(e) },
        },
        Node::Compound { children } => eval_all(children, store),
        Node::NoOp => Outcome { store, result: Ok(unit_value()) },
    }
}

/// Runs the statements `children` in order with the variables `store`, up to
/// the first that fails.
pub open spec fn eval_all(children: Seq<Node>, store: Store) -> Outcome
    decreases children,
{
    if children.len() == 0 {
        Outcome { store, result: Ok(unit_value()) }
    } else {
        let first = eval(children[0], store);
        match first.result {
            Ok(_) => eval_all(children.drop_first(), first.store),
            Err(_) => first,
        }
    }
}

/// The result of an evaluation as the result of an interpretation.
pub open spec fn lift(result: Result<i32, EvalError>) -> Result<i32, Error> {
    match result {
        Ok(v) => Ok(v),
        Err(e) => Err(Error::Eval(e)),
    }
}

/// What interpreting a token stream gives, with the variables `store`: the
/// stream is parsed as a program, and the tree is evaluated. A stream that
/// does not parse leaves the variables alone.
pub open spec fn run(s: Seq<Lexeme>, store: Store) -> (Store, Result<i32, Error>) {
    match grammar::parse(s) {
        Ok(node) => {
            let outcome = eval(node, store);
            (outcome.store, lift(outcome.result))
        },
        Err(f) => (store, Err(f.error)),
    }
}

/// What interpreting a program text gives, starting without variables.
pub open spec fn interpretation(text: Seq<char>) -> (Store, Result<i32, Error>) {
    run(lexemes(text, 0), Map::empty())
}

} // verus!
