//! What the tree of a token stream is: the grammar, stated as functions on
//! token streams.
//!
//! ```text
//! program    := compound DOT
//! compound   := BEGIN stmt_list END
//! stmt_list  := statement (SEMI statement)*
//! statement  := compound | assignment | empty
//! assignment := variable ASSIGN expr
//! variable   := ID
//! expr       := term ((PLUS | MINUS) term)*
//! term       := factor ((MUL | DIV) factor)*
//! factor     := INTEGER | LPAREN expr RPAREN | (PLUS | MINUS) factor | variable
//! ```
//!
//! Each rule is a function from the stream that is still to be read to the
//! node that the rule recognises at its front and the stream behind it, or to
//! the error that stops it and the stream in front of which it does. The
//! functions are meant for streams in the sense of
//! [`crate::lexical::is_stream`]; on other sequences they are defined, and
//! mean nothing.

use vstd::prelude::*;
use crate::ast::Node;
use crate::error::{Error, SyntaxError};
use crate::lexical::Lexeme;
use crate::token::TokenType;

verus! {

/// Why and where a rule stops: the error, and the stream in front of which
/// it was found. What stands before that was read.
pub struct Failure {
    pub error: Error,
    pub left: Seq<Lexeme>,
}

/// What a rule yields: a value and the stream behind it, or a failure.
pub type Parsed<T> = Result<(T, Seq<Lexeme>), Failure>;

/// The failure of a rule that finds the error `error` in front of `s`.
pub open spec fn stop<T>(error: Error, s: Seq<Lexeme>) -> Result<T, Failure> {
    Err(Failure { error, left: s })
}

/// What a rule yields where the sequence that it is given turns out to be
/// no stream. On a stream no rule gets there.
pub open spec fn off_stream<T>(s: Seq<Lexeme>) -> Result<T, Failure> {
    stop(mismatch(TokenType::EOF, TokenType::EOF), s)
}

/// The error for a token of kind `found` where `expected` is asked for.
pub open spec fn mismatch(expected: TokenType, found: TokenType) -> Error {
    Error::Syntax(SyntaxError { expected, found })
}

/// The kind of the token at the front of the stream. An error at the front
/// of the stream is the error of whoever looks at it.
pub open spec fn front_kind(s: Seq<Lexeme>) -> Result<TokenType, Error> {
    match s[0] {
        Ok(t) => Ok(t.genre),
        Err(e) => Err(Error::Lex(e)),
    }
}

/// The stream behind its first token. The last element of a stream stays.
pub open spec fn behind(s: Seq<Lexeme>) -> Seq<Lexeme> {
    if s.len() > 1 {
        s.drop_first()
    } else {
        s
    }
}

/// Takes a token of kind `kind` from the front of the stream: the stream
/// behind it, or a syntax error if the token is of another kind.
pub open spec fn eat(s: Seq<Lexeme>, kind: TokenType) -> Result<Seq<Lexeme>, Failure> {
    match front_kind(s) {
        Err(e) => stop(e, s),
        Ok(found) => if found == kind {
            Ok(behind(s))
        } else {
            stop(mismatch(kind, found), s)
        },
    }
}

/// `variable := ID`
pub open spec fn variable(s: Seq<Lexeme>) -> Parsed<Node> {
    match eat(s, TokenType::ID) {
        Err(f) => Err(f),
        Ok(rest) => Ok((Node::Var { token: s[0]->Ok_0 }, rest)),
    }
}

/// `factor := INTEGER | LPAREN expr RPAREN | (PLUS | MINUS) factor | variable`
pub open spec fn factor(s: Seq<Lexeme>) -> Parsed<Node>
    decreases s.len(), 0nat,
{
    match front_kind(s) {
        Err(e) => stop(e, s),
        Ok(kind) => {
            let token = s[0]->Ok_0;
            if kind == TokenType::INTEGER {
                Ok((Node::Num { token }, behind(s)))
            } else if kind == TokenType::LPAREN {
                if s.len() > 1 {
                    match expr(s.drop_first()) {
                        Err(f) => Err(f),
                        Ok((node, rest)) => match eat(rest, TokenType::RPAREN) {
                            Err(f) => Err(f),
                            Ok(rest) => Ok((node, rest)),
                        },
                    }
                } else {
                    off_stream(s)
                }
            } else if kind == TokenType::PLUS || kind == TokenType::MINUS {
                if s.len() > 1 {
                    match factor(s.drop_first()) {
                        Err(f) => Err(f),
                        Ok((operand, rest)) => Ok(
                            (Node::UnaryOp { op: token, expr: Box::new(operand) }, rest),
                        ),
                    }
                } else {
                    off_stream(s)
                }
            } else {
                variable(s)
            }
        },
    }
}

/// `((MUL | DIV) factor)*` behind a factor or a product `left`: the operators
/// associate to the left.
pub open spec fn term_rest(left: Node, s: Seq<Lexeme>) -> Parsed<Node>
    decreases s.len(), 1nat,
{
    match front_kind(s) {
        Err(e) => stop(e, s),
        Ok(kind) => if (kind == TokenType::MUL || kind == TokenType::DIV) && s.len() > 1 {
            match factor(s.drop_first()) {
                Err(f) => Err(f),
                Ok((right, rest)) => if rest.len() < s.len() {
                    term_rest(
                        Node::BinOp {
                            left: Box::new(left),
                            op: s[0]->Ok_0,
                            right: Box::new(right),
                        },
                        rest,
                    )
                } else {
                    off_stream(s)
                },
            }
        } else {
            Ok((left, s))
        },
    }
}

/// `term := factor ((MUL | DIV) factor)*`
pub open spec fn term(s: Seq<Lexeme>) -> Parsed<Node>
    decreases s.len(), 2nat,
{
    match factor(s) {
        Err(f) => Err(f),
        Ok((left, rest)) => if rest.len() <= s.len() {
            term_rest(left, rest)
        } else {
            off_stream(s)
        },
    }
}

/// `((PLUS | MINUS) term)*` behind a term or a sum `left`: the operators
/// associate to the left.
pub open spec fn expr_rest(left: Node, s: Seq<Lexeme>) -> Parsed<Node>
    decreases s.len(), 3nat,
{
    match front_kind(s) {
        Err(e) => stop(e, s),
        Ok(kind) => if (kind == TokenType::PLUS || kind == TokenType::MINUS) && s.len() > 1 {
            match term(s.drop_first()) {
                Err(f) => Err(f),
                Ok((right, rest)) => if rest.len() < s.len() {
                    expr_rest(
                        Node::BinOp {
                            left: Box::new(left),
                            op: s[0]->Ok_0,
                            right: Box::new(right),
                        },
                        rest,
                    )
                } else {
                    off_stream(s)
                },
            }
        } else {
            Ok((left, s))
        },
    }
}

/// `expr := term ((PLUS | MINUS) term)*`
pub open spec fn expr(s: Seq<Lexeme>) -> Parsed<Node>
    decreases s.len(), 4nat,
{
    match term(s) {
        Err(f) => Err(f),
        Ok((left, rest)) => if rest.len() <= s.len() {
            expr_rest(left, rest)
        } else {
            off_stream(s)
        },
    }
}

/// `assignment := variable ASSIGN expr`
pub open spec fn assignment_statement(s: Seq<Lexeme>) -> Parsed<Node> {
    match variable(s) {
        Err(f) => Err(f),
        Ok((left, s1)) => match eat(s1, TokenType::ASSIGN) {
            Err(f) => Err(f),
            Ok(s2) => match expr(s2) {
                Err(f) => Err(f),
                Ok((right, s3)) => Ok(
                    (
                        Node::Assign {
                            left: Box::new(left),
                            op: s1[0]->Ok_0,
                            right: Box::new(right),
                        },
                        s3,
                    ),
                ),
            },
        },
    }
}

/// `compound := BEGIN stmt_list END`
pub open spec fn compound_statement(s: Seq<Lexeme>) -> Parsed<Node>
    decreases s.len(), 0nat,
{
    match eat(s, TokenType::BEGIN) {
        Err(f) => Err(f),
        Ok(s1) => if s1.len() < s.len() {
            match statement_list(s1) {
                Err(f) => Err(f),
                Ok((children, s2)) => match eat(s2, TokenType::END) {
                    Err(f) => Err(f),
                    Ok(s3) => Ok((Node::Compound { children }, s3)),
                },
            }
        } else {
            off_stream(s)
        },
    }
}

/// `statement := compound | assignment | empty`: `BEGIN` starts a block, `ID`
/// an assignment, and in front of any other token stands the empty statement.
pub open spec fn statement(s: Seq<Lexeme>) -> Parsed<Node>
    decreases s.len(), 1nat,
{
    match front_kind(s) {
        Err(e) => stop(e, s),
        Ok(kind) => if kind == TokenType::BEGIN {
            compound_statement(s)
        } else if kind == TokenType::ID {
            assignment_statement(s)
        } else {
            Ok((Node::NoOp, s))
        },
    }
}

/// `(SEMI statement)*` behind the statements `done`. An `ID` where a `SEMI`
/// or the end of the list should be is a syntax error.
pub open spec fn statement_list_rest(done: Seq<Node>, s: Seq<Lexeme>) -> Parsed<Seq<Node>>
    decreases s.len(), 2nat,
{
    match front_kind(s) {
        Err(e) => stop(e, s),
        Ok(kind) => if kind == TokenType::SEMI && s.len() > 1 {
            match statement(s.drop_first()) {
                Err(f) => Err(f),
                Ok((next, rest)) => if rest.len() < s.len() {
                    statement_list_rest(done.push(next), rest)
                } else {
                    off_stream(s)
                },
            }
        } else if kind == TokenType::ID {
            stop(mismatch(TokenType::SEMI, TokenType::ID), s)
        } else {
            Ok((done, s))
        },
    }
}

/// `stmt_list := statement (SEMI statement)*`
pub open spec fn statement_list(s: Seq<Lexeme>) -> Parsed<Seq<Node>>
    decreases s.len(), 3nat,
{
    match statement(s) {
        Err(f) => Err(f),
        Ok((first, rest)) => if rest.len() <= s.len() {
            statement_list_rest(seq![first], rest)
        } else {
            off_stream(s)
        },
    }
}

/// `program := compound DOT`
pub open spec fn program(s: Seq<Lexeme>) -> Parsed<Node> {
    match compound_statement(s) {
        Err(f) => Err(f),
        Ok((node, s1)) => match eat(s1, TokenType::DOT) {
            Err(f) => Err(f),
            Ok(s2) => Ok((node, s2)),
        },
    }
}

/// The tree of a whole stream: that of a program with nothing but `EOF`
/// behind it.
pub open spec fn parse(s: Seq<Lexeme>) -> Result<Node, Failure> {
    match program(s) {
        Err(f) => Err(f),
        Ok((node, rest)) => match eat(rest, TokenType::EOF) {
            Err(f) => Err(f),
            Ok(_) => Ok(node),
        },
    }
}

} // verus!
