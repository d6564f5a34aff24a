//! The grammar as a relation: which sequences of tokens spell which tree.
//!
//! Where [`crate::grammar`] says how a stream is read from left to right,
//! the relations here say what a finished reading is, rule by rule, without
//! an order of reading: a sum is a sum on the left, an operator and a term on
//! the right, wherever the operator stands.

use vstd::prelude::*;
use crate::ast::Node;
use crate::token::{TokenType, TokenView};

verus! {

/// `kind` is an operator of sums.
pub open spec fn is_additive(kind: TokenType) -> bool {
    kind == TokenType::PLUS || kind == TokenType::MINUS
}

/// `kind` is an operator of products.
pub open spec fn is_multiplicative(kind: TokenType) -> bool {
    kind == TokenType::MUL || kind == TokenType::DIV
}

/// `factor := INTEGER | variable | (PLUS | MINUS) factor | LPAREN expr RPAREN`
pub open spec fn spells_factor(toks: Seq<TokenView>, n: Node) -> bool
    decreases toks.len(), 0nat,
{
    ||| toks.len() == 1 && toks[0].genre == TokenType::INTEGER && n == (Node::Num {
        token: toks[0],
    })
    ||| toks.len() == 1 && toks[0].genre == TokenType::ID && n == (Node::Var { token: toks[0] })
    ||| {
        &&& toks.len() >= 2
        &&& is_additive(toks[0].genre)
        &&& n matches Node::UnaryOp { op, expr }
        &&& op == toks[0]
        &&& spells_factor(toks.drop_first(), *expr)
    }
    ||| {
        &&& toks.len() >= 3
        &&& toks[0].genre == TokenType::LPAREN
        &&& toks.last().genre == TokenType::RPAREN
        &&& spells_expr(toks.subrange(1, toks.len() - 1), n)
    }
}

/// `term := factor | term (MUL | DIV) factor`
pub open spec fn spells_term(toks: Seq<TokenView>, n: Node) -> bool
    decreases toks.len(), 1nat,
{
    ||| spells_factor(toks, n)
    ||| exists|k: int|
        #![trigger toks.take(k)]
        {
            &&& 0 < k < toks.len() - 1
            &&& is_multiplicative(toks[k].genre)
            &&& n matches Node::BinOp { left, op, right }
            &&& op == toks[k]
            &&& spells_term(toks.take(k), *left)
            &&& spells_factor(toks.skip(k + 1), *right)
        }
}

/// `expr := term | expr (PLUS | MINUS) term`
pub open spec fn spells_expr(toks: Seq<TokenView>, n: Node) -> bool
    decreases toks.len(), 2nat,
{
    ||| spells_term(toks, n)
    ||| exists|k: int|
        #![trigger toks.take(k)]
        {
            &&& 0 < k < toks.len() - 1
            &&& is_additive(toks[k].genre)
            &&& n matches Node::BinOp { left, op, right }
            &&& op == toks[k]
            &&& spells_expr(toks.take(k), *left)
            &&& spells_term(toks.skip(k + 1), *right)
        }
}

/// `assignment := ID ASSIGN expr`
pub open spec fn spells_assignment(toks: Seq<TokenView>, n: Node) -> bool {
    &&& toks.len() >= 3
    &&& toks[0].genre == TokenType::ID
    &&& toks[1].genre == TokenType::ASSIGN
    &&& n matches Node::Assign { left, op, right }
    &&& *left == (Node::Var { token: toks[0] })
    &&& op == toks[1]
    &&& spells_expr(toks.skip(2), *right)
}

/// `statement := compound | assignment | empty`
pub open spec fn spells_statement(toks: Seq<TokenView>, n: Node) -> bool
    decreases toks.len(), 1nat,
{
    ||| toks.len() == 0 && n == Node::NoOp
    ||| spells_assignment(toks, n)
    ||| spells_compound(toks, n)
}

/// `compound := BEGIN stmt_list END`
pub open spec fn spells_compound(toks: Seq<TokenView>, n: Node) -> bool
    decreases toks.len(), 0nat,
{
    &&& toks.len() >= 2
    &&& toks[0].genre == TokenType::BEGIN
    &&& toks.last().genre == TokenType::END
    &&& n matches Node::Compound { children }
    &&& spells_statement_list(toks.subrange(1, toks.len() - 1), children)
}

/// `stmt_list := statement | stmt_list SEMI statement`
pub open spec fn spells_statement_list(toks: Seq<TokenView>, children: Seq<Node>) -> bool
    decreases toks.len(), 2nat,
{
    ||| children.len() == 1 && spells_statement(toks, children[0])
    ||| exists|k: int|
        #![trigger toks.take(k)]
        {
            &&& 0 <= k < toks.len()
            &&& children.len() >= 2
            &&& toks[k].genre == TokenType::SEMI
            &&& spells_statement_list(toks.take(k), children.drop_last())
            &&& spells_statement(toks.skip(k + 1), children.last())
        }
}

/// `program := compound DOT`
pub open spec fn spells_program(toks: Seq<TokenView>, n: Node) -> bool {
    &&& toks.len() >= 1
    &&& toks.last().genre == TokenType::DOT
    &&& spells_compound(toks.drop_last(), n)
}

/// An expression is spelt by at least one token.
pub proof fn lemma_expression_has_tokens(toks: Seq<TokenView>, n: Node)
    requires
        spells_factor(toks, n) || spells_term(toks, n) || spells_expr(toks, n),
    ensures
        toks.len() >= 1,
{
}

} // verus!
