//! The grammar agrees with reading: whatever tree a sequence of tokens
//! spells in the sense of [`crate::derivation`], the rules of
//! [`crate::grammar`] yield that tree when they read those tokens, provided
//! that the token behind them cannot go on with the phrase.

use vstd::prelude::*;
use crate::ast::Node;
use crate::derivation::{
    is_additive, is_multiplicative, lemma_expression_has_tokens, spells_assignment,
    spells_compound, spells_expr, spells_factor, spells_program, spells_statement,
    spells_statement_list, spells_term,
};
use crate::error::LexError;
use crate::grammar;
use crate::grammar::Failure;
use crate::lexical::{eof_token, Lexeme};
use crate::token::{TokenType, TokenView};

verus! {

/// The tokens `toks` as lexemes.
pub open spec fn wrap(toks: Seq<TokenView>) -> Seq<Lexeme> {
    Seq::new(toks.len(), |i: int| Ok(toks[i]))
}

/// Whether `rest` starts with a token that does not go on with a product.
pub open spec fn ends_term(rest: Seq<Lexeme>) -> bool {
    &&& rest.len() >= 1
    &&& grammar::front_kind(rest) matches Ok(k)
    &&& !is_multiplicative(k)
}

/// Whether `rest` starts with a token that does not go on with a sum.
pub open spec fn ends_expr(rest: Seq<Lexeme>) -> bool {
    &&& ends_term(rest)
    &&& grammar::front_kind(rest) matches Ok(k)
    &&& !is_additive(k)
}

/// Whether `rest` starts with a token that neither goes on with an
/// expression nor starts a statement.
pub open spec fn ends_statement(rest: Seq<Lexeme>) -> bool {
    &&& ends_expr(rest)
    &&& grammar::front_kind(rest) matches Ok(k)
    &&& k != TokenType::BEGIN
    &&& k != TokenType::ID
}

/// Whether `rest` starts with a token that ends a list of statements.
pub open spec fn ends_statement_list(rest: Seq<Lexeme>) -> bool {
    &&& ends_statement(rest)
    &&& grammar::front_kind(rest) matches Ok(k)
    &&& k != TokenType::SEMI
}

/// A factor is read as what its tokens spell, whatever stands behind it.
pub proof fn lemma_factor_read(toks: Seq<TokenView>, n: Node, rest: Seq<Lexeme>)
    requires
        spells_factor(toks, n),
        rest.len() >= 1,
    ensures
        grammar::factor(wrap(toks) + rest) == Ok::<_, Failure>((n, rest)),
    decreases toks.len(), 0nat,
{
    let s = wrap(toks) + rest;
    assert(s[0] == Ok::<TokenView, LexError>(toks[0]));
    assert(s.drop_first() =~= wrap(toks.drop_first()) + rest);
    if toks.len() == 1 && toks[0].genre == TokenType::INTEGER && n == (Node::Num {
        token: toks[0],
    }) {
        assert(wrap(toks.drop_first()) + rest =~= rest);
    } else if toks.len() == 1 && toks[0].genre == TokenType::ID && n == (Node::Var {
        token: toks[0],
    }) {
        assert(wrap(toks.drop_first()) + rest =~= rest);
    } else if toks.len() >= 2 && is_additive(toks[0].genre) && n is UnaryOp && n->UnaryOp_op
        == toks[0] && spells_factor(toks.drop_first(), *n->UnaryOp_expr) {
        lemma_factor_read(toks.drop_first(), *n->UnaryOp_expr, rest);
    } else {
        let inner = toks.subrange(1, toks.len() - 1);
        let closing = seq![Ok::<TokenView, LexError>(toks.last())] + rest;
        assert(s.drop_first() =~= wrap(inner) + closing);
        lemma_expr_read(inner, n, closing);
        assert(closing.drop_first() =~= rest);
    }
}

/// A term is read up to its last factor, with what its tokens spell as the
/// product so far.
pub proof fn lemma_term_read(toks: Seq<TokenView>, n: Node, rest: Seq<Lexeme>)
    requires
        spells_term(toks, n),
        rest.len() >= 1,
    ensures
        grammar::term(wrap(toks) + rest) == grammar::term_rest(n, rest),
    decreases toks.len(), 1nat,
{
    let s = wrap(toks) + rest;
    if spells_factor(toks, n) {
        lemma_factor_read(toks, n, rest);
    } else {
        let k = choose|k: int|
            #![trigger toks.take(k)]
            {
                &&& 0 < k < toks.len() - 1
                &&& is_multiplicative(toks[k].genre)
                &&& n matches Node::BinOp { left, op, right }
                &&& op == toks[k]
                &&& spells_term(toks.take(k), *left)
                &&& spells_factor(toks.skip(k + 1), *right)
            };
        let left = *n->BinOp_left;
        let right = *n->BinOp_right;
        let tail = wrap(toks.skip(k)) + rest;
        assert(s =~= wrap(toks.take(k)) + tail);
        lemma_term_read(toks.take(k), left, tail);
        assert(tail[0] == Ok::<TokenView, LexError>(toks[k]));
        assert(tail.drop_first() =~= wrap(toks.skip(k + 1)) + rest);
        lemma_factor_read(toks.skip(k + 1), right, rest);
    }
}

/// An expression is read up to its last term, with what its tokens spell as
/// the sum so far, if what stands behind it does not go on with that term.
pub proof fn lemma_expr_read(toks: Seq<TokenView>, n: Node, rest: Seq<Lexeme>)
    requires
        spells_expr(toks, n),
        ends_term(rest),
    ensures
        grammar::expr(wrap(toks) + rest) == grammar::expr_rest(n, rest),
    decreases toks.len(), 2nat,
{
    let s = wrap(toks) + rest;
    if spells_term(toks, n) {
        lemma_term_read(toks, n, rest);
        lemma_expression_has_tokens(toks, n);
    } else {
        let k = choose|k: int|
            #![trigger toks.take(k)]
            {
                &&& 0 < k < toks.len() - 1
                &&& is_additive(toks[k].genre)
                &&& n matches Node::BinOp { left, op, right }
                &&& op == toks[k]
                &&& spells_expr(toks.take(k), *left)
                &&& spells_term(toks.skip(k + 1), *right)
            };
        let left = *n->BinOp_left;
        let right = *n->BinOp_right;
        let tail = wrap(toks.skip(k)) + rest;
        assert(s =~= wrap(toks.take(k)) + tail);
        assert(tail[0] == Ok::<TokenView, LexError>(toks[k]));
        lemma_expr_read(toks.take(k), left, tail);
        assert(tail.drop_first() =~= wrap(toks.skip(k + 1)) + rest);
        lemma_term_read(toks.skip(k + 1), right, rest);
        lemma_expression_has_tokens(toks.skip(k + 1), right);
    }
}

/// An expression is read as what its tokens spell, if what stands behind it
/// does not go on with it.
pub proof fn lemma_whole_expr_read(toks: Seq<TokenView>, n: Node, rest: Seq<Lexeme>)
    requires
        spells_expr(toks, n),
        ends_expr(rest),
    ensures
        grammar::expr(wrap(toks) + rest) == Ok::<_, Failure>((n, rest)),
{
    lemma_expr_read(toks, n, rest);
}

/// An assignment is read as what its tokens spell, if what stands behind it
/// does not go on with its right side.
pub proof fn lemma_assignment_read(toks: Seq<TokenView>, n: Node, rest: Seq<Lexeme>)
    requires
        spells_assignment(toks, n),
        ends_expr(rest),
    ensures
        grammar::assignment_statement(wrap(toks) + rest) == Ok::<_, Failure>((n, rest)),
{
    let s = wrap(toks) + rest;
    let s1 = s.drop_first();
    let s2 = s1.drop_first();
    assert(s[0] == Ok::<TokenView, LexError>(toks[0]));
    assert(s1[0] == Ok::<TokenView, LexError>(toks[1]));
    assert(s2 =~= wrap(toks.skip(2)) + rest);
    lemma_whole_expr_read(toks.skip(2), *n->Assign_right, rest);
    assert(grammar::variable(s) == Ok::<_, Failure>((*n->Assign_left, s1)));
    assert(grammar::eat(s1, TokenType::ASSIGN) == Ok::<_, Failure>(s2));
}

/// A block is read as what its tokens spell, whatever stands behind it.
pub proof fn lemma_compound_read(toks: Seq<TokenView>, n: Node, rest: Seq<Lexeme>)
    requires
        spells_compound(toks, n),
        rest.len() >= 1,
    ensures
        grammar::compound_statement(wrap(toks) + rest) == Ok::<_, Failure>((n, rest)),
    decreases toks.len(), 0nat,
{
    let s = wrap(toks) + rest;
    let inner = toks.subrange(1, toks.len() - 1);
    let closing = seq![Ok::<TokenView, LexError>(toks.last())] + rest;
    let children = n->Compound_children;
    assert(s[0] == Ok::<TokenView, LexError>(toks[0]));
    assert(s.drop_first() =~= wrap(inner) + closing);
    assert(closing[0] == Ok::<TokenView, LexError>(toks.last()));
    lemma_statement_list_read(inner, children, closing);
    assert(closing.drop_first() =~= rest);
    assert(grammar::statement_list_rest(children, closing) == Ok::<_, Failure>(
        (children, closing),
    ));
}

/// A statement is read as what its tokens spell, if what stands behind it
/// neither goes on with it nor starts another.
pub proof fn lemma_statement_read(toks: Seq<TokenView>, n: Node, rest: Seq<Lexeme>)
    requires
        spells_statement(toks, n),
        ends_statement(rest),
    ensures
        grammar::statement(wrap(toks) + rest) == Ok::<_, Failure>((n, rest)),
    decreases toks.len(), 1nat,
{
    let s = wrap(toks) + rest;
    if toks.len() == 0 && n == Node::NoOp {
        assert(s =~= rest);
    } else if spells_assignment(toks, n) {
        assert(s[0] == Ok::<TokenView, LexError>(toks[0]));
        lemma_assignment_read(toks, n, rest);
    } else {
        assert(s[0] == Ok::<TokenView, LexError>(toks[0]));
        lemma_compound_read(toks, n, rest);
    }
}

/// A list of statements is read up to its last statement, with what its
/// tokens spell as the statements so far, if what stands behind it neither
/// goes on with that statement nor starts another.
pub proof fn lemma_statement_list_read(
    toks: Seq<TokenView>,
    children: Seq<Node>,
    rest: Seq<Lexeme>,
)
    requires
        spells_statement_list(toks, children),
        ends_statement(rest),
    ensures
        grammar::statement_list(wrap(toks) + rest) == grammar::statement_list_rest(
            children,
            rest,
        ),
    decreases toks.len(), 2nat,
{
    let s = wrap(toks) + rest;
    if children.len() == 1 && spells_statement(toks, children[0]) {
        lemma_statement_read(toks, children[0], rest);
        assert(seq![children[0]] =~= children);
    } else {
        let k = choose|k: int|
            #![trigger toks.take(k)]
            {
                &&& 0 <= k < toks.len()
                &&& children.len() >= 2
                &&& toks[k].genre == TokenType::SEMI
                &&& spells_statement_list(toks.take(k), children.drop_last())
                &&& spells_statement(toks.skip(k + 1), children.last())
            };
        let tail = wrap(toks.skip(k)) + rest;
        assert(s =~= wrap(toks.take(k)) + tail);
        assert(tail[0] == Ok::<TokenView, LexError>(toks[k]));
        lemma_statement_list_read(toks.take(k), children.drop_last(), tail);
        assert(tail.drop_first() =~= wrap(toks.skip(k + 1)) + rest);
        lemma_statement_read(toks.skip(k + 1), children.last(), rest);
        assert(children.drop_last().push(children.last()) =~= children);
    }
}

/// A list of statements is read as what its tokens spell, if what stands
/// behind it ends the list.
pub proof fn lemma_whole_statement_list_read(
    toks: Seq<TokenView>,
    children: Seq<Node>,
    rest: Seq<Lexeme>,
)
    requires
        spells_statement_list(toks, children),
        ends_statement_list(rest),
    ensures
        grammar::statement_list(wrap(toks) + rest) == Ok::<_, Failure>((children, rest)),
{
    lemma_statement_list_read(toks, children, rest);
}

/// A program is read as what its tokens spell: tokens that spell a tree as
/// a program, with `EOF` behind them, parse to that tree.
pub proof fn lemma_program_read(toks: Seq<TokenView>, n: Node)
    requires
        spells_program(toks, n),
    ensures
        grammar::parse(wrap(toks) + seq![Ok(eof_token())]) == Ok::<Node, Failure>(n),
{
    let end = seq![Ok::<TokenView, LexError>(eof_token())];
    let s = wrap(toks) + end;
    let dot = seq![Ok::<TokenView, LexError>(toks.last())] + end;
    assert(s =~= wrap(toks.drop_last()) + dot);
    lemma_compound_read(toks.drop_last(), n, dot);
    assert(dot.drop_first() =~= end);
}

/// No sequence of tokens spells two programs: the grammar is not ambiguous.
pub proof fn lemma_program_is_unique(toks: Seq<TokenView>, first: Node, second: Node)
    requires
        spells_program(toks, first),
        spells_program(toks, second),
    ensures
        first == second,
{
    lemma_program_read(toks, first);
    lemma_program_read(toks, second);
}

} // verus!
