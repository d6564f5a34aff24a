//! The interpreter: walks the tree that the parser builds, and keeps the
//! variables.

use vstd::prelude::*;
use crate::ast::{nodes, Assign, BinOp, Compound, NoOp, Node, Num, UnaryOp, Var, AST};
use crate::error::{Error, EvalError};
use crate::grammar;
use crate::lexer::Lexer;
use crate::lexical::{lexemes, Lexeme};
use crate::parser::Parser;
use crate::semantics::{
    apply_binary, apply_unary, eval, eval_all, interpretation, lift, name_of, number_of, run,
    unit_value, Outcome, Store,
};
use crate::store::SymbolTable;
use crate::token::{Token, TokenType, Value};
use crate::wellformed::{is_runtime_error, lemma_interpretation_outcomes};

verus! {

/// Applies the binary operator of kind `op`.
pub fn binary(op: TokenType, l: i32, r: i32) -> (result: Result<i32, EvalError>)
    ensures
        result == apply_binary(op, l, r),
{
    let checked = match op {
        TokenType::PLUS => l.checked_add(r),
        TokenType::MINUS => l.checked_sub(r),
        TokenType::MUL => l.checked_mul(r),
        TokenType::DIV => {
            if r == 0 {
                return Err(EvalError::DivisionByZero);
            }
            l.checked_div(r)
        },
        _ => {
            return Err(EvalError::InvalidOperator);
        },
    };
    match checked {
        Some(v) => Ok(v),
        None => Err(EvalError::Overflow),
    }
}

/// Applies the unary operator of kind `op`.
pub fn unary(op: TokenType, v: i32) -> (result: Result<i32, EvalError>)
    ensures
        result == apply_unary(op, v),
{
    match op {
        TokenType::PLUS => Ok(v),
        TokenType::MINUS => match 0i32.checked_sub(v) {
            Some(negated) => Ok(negated),
            None => Err(EvalError::Overflow),
        },
        _ => Err(EvalError::InvalidOperator),
    }
}

/// The integer that a payload is, if it is one.
pub fn parse_value(value: &Value) -> (n: Result<i32, EvalError>)
    ensures
        n == match *value {
            Value::INT(x) => Ok::<i32, EvalError>(x),
            _ => Err(EvalError::NotNumeric),
        },
{
    match value {
        Value::INT(x) => Ok(*x),
        _ => Err(EvalError::NotNumeric),
    }
}

/// The name that `token` carries.
pub fn token_name(token: &Token) -> (name: Result<String, EvalError>)
    ensures
        match name_of(token@) {
            Ok(text) => name matches Ok(s) && s@ == text,
            Err(e) => name == Err::<String, EvalError>(e),
        },
{
    match &token.value {
        Some(Value::STRING(s)) => Ok(s.clone()),
        _ => Err(EvalError::InvalidName),
    }
}

/// A parser and the variables of the program that it reads.
pub struct Interpreter {
    parser: Parser,
    store: SymbolTable,
}

impl Interpreter {
    /// Whether the interpreter is in order: its parser and its store are.
    pub closed spec fn wf(&self) -> bool {
        self.parser.wf() && self.store.wf()
    }

    /// The tokens that its parser has not yet consumed.
    pub closed spec fn stream(&self) -> Seq<Lexeme> {
        self.parser.stream()
    }

    /// The variables.
    pub closed spec fn store(&self) -> Store {
        self.store@
    }

    /// An interpreter for what `parser` reads, without variables.
    pub fn new(parser: Parser) -> (interpreter: Interpreter)
        requires
            parser.wf(),
        ensures
            interpreter.wf(),
            interpreter.stream() == parser.stream(),
            interpreter.store() == Map::<Seq<char>, i32>::empty(),
    {
        Interpreter { parser, store: SymbolTable::new() }
    }

    /// An interpreter for what `parser` reads, with the variables of
    /// `store`: those that an earlier program left, for one.
    pub fn with_store(parser: Parser, store: SymbolTable) -> (interpreter: Interpreter)
        requires
            parser.wf(),
            store.wf(),
        ensures
            interpreter.wf(),
            interpreter.stream() == parser.stream(),
            interpreter.store() == store@,
    {
        Interpreter { parser, store }
    }

    /// Hands the variables out and drops the parser.
    pub fn into_store(self) -> (store: SymbolTable)
        requires
            self.wf(),
        ensures
            store.wf(),
            store@ == self.store(),
    {
        self.store
    }

    /// The value of a literal.
    pub fn visit_num(&self, node: &Num) -> (r: Result<i32, EvalError>)
        ensures
            r == number_of(node.token@),
    {
        match &node.token.value {
            Some(value) => parse_value(value),
            None => Err(EvalError::NotNumeric),
        }
    }

    /// The value of a variable.
    pub fn visit_var(&self, node: &Var) -> (r: Result<i32, EvalError>)
        ensures
            r == eval(Node::Var { token: node.token@ }, self.store()).result,
    {
        match &node.token.value {
            Some(Value::STRING(name)) => match self.store.get(name.as_str()) {
                Some(v) => Ok(v),
                None => Err(EvalError::UndefinedVariable),
            },
            _ => Err(EvalError::InvalidName),
        }
    }

    /// The empty statement does nothing.
    pub fn visit_noop(&self, node: &NoOp) -> (r: Result<i32, EvalError>)
        ensures
            r == Ok::<i32, EvalError>(unit_value()),
    {
        Ok(0)
    }

    /// Whether `r` and the interpreter after a visit are where `outcome`
    /// says the evaluation ends. The parser is not touched.
    pub open spec fn ends_as(
        before: &Interpreter,
        after: &Interpreter,
        r: Result<i32, EvalError>,
        outcome: Outcome,
    ) -> bool {
        &&& after.wf()
        &&& after.stream() == before.stream()
        &&& after.store() == outcome.store
        &&& r == outcome.result
    }

    /// Evaluates `node`.
    pub fn visit(&mut self, node: &AST) -> (r: Result<i32, EvalError>)
        requires
            old(self).wf(),
        ensures
            Self::ends_as(old(self), final(self), r, eval(node@, old(self).store())),
        decreases node, 1nat,
    {
        match node {
            AST::BINOP(bin_op) => self.visit_binop(bin_op),
            AST::NUM(num) => self.visit_num(num),
            AST::UNARYOP(unary_op) => self.visit_unaryop(unary_op),
            AST::COMPOUND(compound) => self.visit_compound(compound),
            AST::ASSIGN(assign) => self.visit_assign(assign),
            AST::VAR(var) => self.visit_var(var),
            AST::NOOP(no_op) => self.visit_noop(no_op),
        }
    }

    /// Evaluates the operands from left to right and applies the operator.
    pub fn visit_binop(&mut self, node: &BinOp) -> (r: Result<i32, EvalError>)
        requires
            old(self).wf(),
        ensures
            Self::ends_as(
                old(self),
                final(self),
                r,
                eval(AST::BINOP(*node)@, old(self).store()),
            ),
        decreases node, 0nat,
    {
        let left = match self.visit(&node.left) {
            Ok(v) => v,
            Err(e) => { return Err(e); },
        };
        let right = match self.visit(&node.right) {
            Ok(v) => v,
            Err(e) => { return Err(e); },
        };
        binary(node.op.genre, left, right)
    }

    /// Evaluates the operand and applies the operator.
    pub fn visit_unaryop(&mut self, node: &UnaryOp) -> (r: Result<i32, EvalError>)
        requires
            old(self).wf(),
        ensures
            Self::ends_as(
                old(self),
                final(self),
                r,
                eval(AST::UNARYOP(*node)@, old(self).store()),
            ),
        decreases node, 0nat,
    {
        match self.visit(&node.expr) {
            Ok(v) => unary(node.op.genre, v),
            Err(e) => Err(e),
        }
    }

    /// Runs the statements of a block in order, up to the first that fails.
    pub fn visit_compound(&mut self, node: &Compound) -> (r: Result<i32, EvalError>)
        requires
            old(self).wf(),
        ensures
            Self::ends_as(
                old(self),
                final(self),
                r,
                eval(AST::COMPOUND(*node)@, old(self).store()),
            ),
        decreases node, 0nat,
    {
        let ghost all = nodes(node.children@);
        let mut i: usize = 0;
        proof {
            assert(all.skip(0) =~= all);
        }
        while i < node.children.len()
            invariant
                self.wf(),
                self.stream() == old(self).stream(),
                0 <= i <= node.children.len(),
                all == nodes(node.children@),
                eval_all(all, old(self).store()) == eval_all(all.skip(i as int), self.store()),
            decreases node.children.len() - i,
        {
            proof {
                assert(all.skip(i as int)[0] == node.children[i as int]@);
                assert(all.skip(i as int).drop_first() =~= all.skip(i + 1));
            }
            match self.visit(&node.children[i]) {
                Ok(_) => {},
                Err(e) => { return Err(e); },
            }
            i = i + 1;
        }
        Ok(0)
    }

    /// Evaluates the right side and binds the variable on the left to it.
    pub fn visit_assign(&mut self, node: &Assign) -> (r: Result<i32, EvalError>)
        requires
            old(self).wf(),
        ensures
            Self::ends_as(
                old(self),
                final(self),
                r,
                eval(AST::ASSIGN(*node)@, old(self).store()),
            ),
        decreases node, 0nat,
    {
        proof {
            reveal_with_fuel(AST::node, 2);
        }
        let name = match &*node.left {
            AST::VAR(var) => match token_name(&var.token) {
                Ok(name) => name,
                Err(e) => { return Err(e); },
            },
            _ => { return Err(EvalError::InvalidName); },
        };
        match self.visit(&node.right) {
            Ok(v) => {
                self.store.set(name, v);
                Ok(0)
            },
            Err(e) => Err(e),
        }
    }

    /// Parses an expression at the front of what the parser reads, and
    /// evaluates it. What stands behind the expression stays unread.
    pub fn expr(&mut self) -> (r: Result<i32, Error>)
        requires
            old(self).wf(),
        ensures
            final(self).wf(),
            match grammar::expr(old(self).stream()) {
                Ok((node, rest)) => {
                    &&& final(self).stream() == rest
                    &&& final(self).store() == eval(node, old(self).store()).store
                    &&& r == lift(eval(node, old(self).store()).result)
                },
                Err(f) => {
                    &&& final(self).stream() == f.left
                    &&& final(self).store() == old(self).store()
                    &&& r == Err::<i32, Error>(f.error)
                },
            },
    {
        let tree = match self.parser.expr() {
            Ok(tree) => tree,
            Err(e) => { return Err(e); },
        };
        match self.visit(&tree) {
            Ok(v) => Ok(v),
            Err(e) => Err(Error::Eval(e)),
        }
    }

    /// Parses a term at the front of what the parser reads, and evaluates
    /// it. What stands behind the term stays unread.
    pub fn term(&mut self) -> (r: Result<i32, Error>)
        requires
            old(self).wf(),
        ensures
            final(self).wf(),
            match grammar::term(old(self).stream()) {
                Ok((node, rest)) => {
                    &&& final(self).stream() == rest
                    &&& final(self).store() == eval(node, old(self).store()).store
                    &&& r == lift(eval(node, old(self).store()).result)
                },
                Err(f) => {
                    &&& final(self).stream() == f.left
                    &&& final(self).store() == old(self).store()
                    &&& r == Err::<i32, Error>(f.error)
                },
            },
    {
        let tree = match self.parser.term() {
            Ok(tree) => tree,
            Err(e) => { return Err(e); },
        };
        match self.visit(&tree) {
            Ok(v) => Ok(v),
            Err(e) => Err(Error::Eval(e)),
        }
    }

    /// Parses a factor at the front of what the parser reads, and evaluates
    /// it. What stands behind the factor stays unread.
    pub fn factor(&mut self) -> (r: Result<i32, Error>)
        requires
            old(self).wf(),
        ensures
            final(self).wf(),
            match grammar::factor(old(self).stream()) {
                Ok((node, rest)) => {
                    &&& final(self).stream() == rest
                    &&& final(self).store() == eval(node, old(self).store()).store
                    &&& r == lift(eval(node, old(self).store()).result)
                },
                Err(f) => {
                    &&& final(self).stream() == f.left
                    &&& final(self).store() == old(self).store()
                    &&& r == Err::<i32, Error>(f.error)
                },
            },
    {
        let tree = match self.parser.factor() {
            Ok(tree) => tree,
            Err(e) => { return Err(e); },
        };
        match self.visit(&tree) {
            Ok(v) => Ok(v),
            Err(e) => Err(Error::Eval(e)),
        }
    }

    /// Parses what the parser reads as a program and evaluates it. The
    /// parser is left at the end of the program, or in front of the token
    /// that does not fit.
    pub fn interpret(&mut self) -> (r: Result<i32, Error>)
        requires
            old(self).wf(),
        ensures
            final(self).wf(),
            final(self).store() == run(old(self).stream(), old(self).store()).0,
            r == run(old(self).stream(), old(self).store()).1,
            match grammar::parse(old(self).stream()) {
                Ok(_) => {
                    &&& final(self).stream().len() == 1
                    &&& grammar::front_kind(final(self).stream()) == Ok::<_, Error>(
                        TokenType::EOF,
                    )
                },
                Err(f) => final(self).stream() == f.left,
            },
    {
        let tree = match self.parser.parse() {
            Ok(tree) => tree,
            Err(e) => { return Err(e); },
        };
        match self.visit(&tree) {
            Ok(v) => Ok(v),
            Err(e) => Err(Error::Eval(e)),
        }
    }

    /// The value of the variable `name`, if it has one.
    pub fn lookup(&self, name: &str) -> (value: Option<i32>)
        ensures
            value == (if self.store().contains_key(name@) {
                Some(self.store()[name@])
            } else {
                None
            }),
    {
        self.store.get(name)
    }

    /// The variables, for reading.
    pub fn symbols(&self) -> (table: &SymbolTable)
        requires
            self.wf(),
        ensures
            table.wf(),
            table@ == self.store(),
    {
        &self.store
    }
}

/// Interprets the program `text`, starting with the variables of `store`:
/// the variables as the program leaves them, and its value or the error that
/// stopped it.
pub fn run_program_with(text: &str, store: SymbolTable) -> (out: (
    SymbolTable,
    Result<i32, Error>,
))
    requires
        store.wf(),
    ensures
        out.0.wf(),
        out.0@ == run(lexemes(text@, 0), store@).0,
        out.1 == run(lexemes(text@, 0), store@).1,
{
    let lexer = Lexer::new(text);
    let parser = Parser::new(lexer);
    let mut interpreter = Interpreter::with_store(parser, store);
    let result = interpreter.interpret();
    (interpreter.into_store(), result)
}

/// Interprets the program `text`, starting without variables: the variables
/// as the program leaves them, and its value or the error that stopped it.
///
/// A program that runs to its end evaluates to the unit value. One that does
/// not was stopped while it was split into tokens or parsed, and then no
/// variable is bound, or by a division by zero, an undefined variable or an
/// overflow.
pub fn run_program(text: &str) -> (out: (SymbolTable, Result<i32, Error>))
    ensures
        out.0.wf(),
        out.0@ == interpretation(text@).0,
        out.1 == interpretation(text@).1,
        match out.1 {
            Ok(v) => v == unit_value(),
            Err(Error::Eval(e)) => is_runtime_error(e),
            Err(_) => out.0@ == Map::<Seq<char>, i32>::empty(),
        },
{
    proof {
        lemma_interpretation_outcomes(text@);
    }
    run_program_with(text, SymbolTable::new())
}

} // verus!
