//! The trees that the grammar yields are in order, and what that means for
//! their evaluation.

use vstd::prelude::*;
use crate::ast::Node;
use crate::error::{Error, EvalError};
use crate::grammar;
use crate::lexical::{
    is_final, is_stream, lemma_lexemes_is_stream, lemma_lexemes_payloads, lexemes, payload_fits,
    payloads_fit, Lexeme,
};
use crate::semantics::{eval, eval_all, interpretation, lift, run, unit_value, Store};
use crate::token::TokenType;

verus! {

/// Whether `n` is an expression in order: numbers carry integers, variables
/// carry names, and every operator is one of its arity.
pub open spec fn is_expression(n: Node) -> bool
    decreases n,
{
    match n {
        Node::Num { token } => token.genre == TokenType::INTEGER && payload_fits(token),
        Node::Var { token } => token.genre == TokenType::ID && payload_fits(token),
        Node::UnaryOp { op, expr } => {
            &&& op.genre == TokenType::PLUS || op.genre == TokenType::MINUS
            &&& is_expression(*expr)
        },
        Node::BinOp { left, op, right } => {
            &&& op.genre == TokenType::PLUS || op.genre == TokenType::MINUS || op.genre
                == TokenType::MUL || op.genre == TokenType::DIV
            &&& is_expression(*left)
            &&& is_expression(*right)
        },
        _ => false,
    }
}

/// Whether `n` is a statement in order: an assignment of an expression to a
/// variable, a block of statements in order, or the empty statement.
pub open spec fn is_statement(n: Node) -> bool
    decreases n,
{
    match n {
        Node::Assign { left, op, right } => {
            &&& *left matches Node::Var { token }
            &&& token.genre == TokenType::ID && payload_fits(token)
            &&& op.genre == TokenType::ASSIGN
            &&& is_expression(*right)
        },
        Node::Compound { children } => are_statements(children),
        Node::NoOp => true,
        _ => false,
    }
}

/// Whether every node of `children` is a statement in order.
pub open spec fn are_statements(children: Seq<Node>) -> bool
    decreases children,
{
    forall|i: int| 0 <= i < children.len() ==> is_statement(#[trigger] children[i])
}

/// Whether `s` is a stream of tokens that carry what their kinds call for:
/// what a lexer hands out.
pub open spec fn well_lexed(s: Seq<Lexeme>) -> bool {
    is_stream(s) && payloads_fit(s)
}

/// Whether `e` is an error that a tree in order can run into. The others
/// tell of a tree that no parser built.
pub open spec fn is_runtime_error(e: EvalError) -> bool {
    e == EvalError::DivisionByZero || e == EvalError::UndefinedVariable || e
        == EvalError::Overflow
}

/// Whether `e` is an error that reading a stream can end in: an error of the
/// lexer, or a token of another kind than the one asked for.
pub open spec fn is_reading_error(e: Error) -> bool {
    match e {
        Error::Lex(_) => true,
        Error::Syntax(mismatch) => mismatch.expected != mismatch.found,
        Error::Eval(_) => false,
    }
}

/// Behind a token that does not end it, a stream goes on as a stream.
pub proof fn lemma_behind(s: Seq<Lexeme>)
    requires
        well_lexed(s),
    ensures
        well_lexed(grammar::behind(s)),
        !is_final(s[0]) ==> s.len() > 1 && grammar::behind(s) == s.drop_first(),
        grammar::behind(s).len() <= s.len(),
{
    if s.len() > 1 {
        let rest = s.drop_first();
        assert forall|i: int| 0 <= i < rest.len() implies (is_final(#[trigger] rest[i]) <==> i
            == rest.len() - 1) by {
            assert(rest[i] == s[i + 1]);
        }
        assert forall|i: int| 0 <= i < rest.len() implies ((#[trigger] rest[i]) matches Ok(t)
            ==> payload_fits(t)) by {
            assert(rest[i] == s[i + 1]);
        }
    }
}

/// The text of a program is split into a stream of tokens that carry what
/// their kinds call for.
pub proof fn lemma_text_is_well_lexed(text: Seq<char>)
    ensures
        well_lexed(lexemes(text, 0)),
{
    lemma_lexemes_is_stream(text, 0);
    lemma_lexemes_payloads(text, 0);
}

/// Eating a token leaves a stream, and a shorter one unless the token ends it.
pub proof fn lemma_eat(s: Seq<Lexeme>, kind: TokenType)
    requires
        well_lexed(s),
    ensures
        grammar::eat(s, kind) matches Err(f) ==> is_reading_error(f.error),
        grammar::eat(s, kind) matches Ok(rest) ==> {
            &&& well_lexed(rest)
            &&& rest.len() <= s.len()
            &&& kind != TokenType::EOF ==> rest.len() < s.len() && rest == s.drop_first()
            &&& s[0] matches Ok(t) && t.genre == kind && payload_fits(t)
        },
{
    lemma_behind(s);
}

/// `variable` yields a variable in order and a shorter stream.
pub proof fn lemma_variable(s: Seq<Lexeme>)
    requires
        well_lexed(s),
    ensures
        grammar::variable(s) matches Err(f) ==> is_reading_error(f.error),
        grammar::variable(s) matches Ok((n, rest)) ==> {
            &&& n matches Node::Var { token } && token.genre == TokenType::ID && payload_fits(token)
            &&& is_expression(n)
            &&& well_lexed(rest)
            &&& rest.len() < s.len()
        },
{
    lemma_eat(s, TokenType::ID);
}

/// `factor` yields an expression in order and a shorter stream.
pub proof fn lemma_factor(s: Seq<Lexeme>)
    requires
        well_lexed(s),
    ensures
        grammar::factor(s) matches Err(f) ==> is_reading_error(f.error),
        grammar::factor(s) matches Ok((n, rest)) ==> is_expression(n) && well_lexed(rest)
            && rest.len() < s.len(),
    decreases s.len(), 0nat,
{
    lemma_behind(s);
    if let Ok(kind) = grammar::front_kind(s) {
        if kind == TokenType::INTEGER {
        } else if kind == TokenType::LPAREN {
            lemma_expr(s.drop_first());
            if let Ok((node, rest)) = grammar::expr(s.drop_first()) {
                lemma_eat(rest, TokenType::RPAREN);
            }
        } else if kind == TokenType::PLUS || kind == TokenType::MINUS {
            lemma_factor(s.drop_first());
        } else {
            lemma_variable(s);
        }
    }
}

/// `term_rest` behind an expression in order yields one, and no longer stream.
pub proof fn lemma_term_rest(left: Node, s: Seq<Lexeme>)
    requires
        well_lexed(s),
        is_expression(left),
    ensures
        grammar::term_rest(left, s) matches Err(f) ==> is_reading_error(f.error),
        grammar::term_rest(left, s) matches Ok((n, rest)) ==> is_expression(n) && well_lexed(rest)
            && rest.len() <= s.len(),
    decreases s.len(), 1nat,
{
    lemma_behind(s);
    if let Ok(kind) = grammar::front_kind(s) {
        if kind == TokenType::MUL || kind == TokenType::DIV {
            lemma_factor(s.drop_first());
            if let Ok((right, rest)) = grammar::factor(s.drop_first()) {
                lemma_term_rest(
                    Node::BinOp { left: Box::new(left), op: s[0]->Ok_0, right: Box::new(right) },
                    rest,
                );
            }
        }
    }
}

/// `term` yields an expression in order and a shorter stream.
pub proof fn lemma_term(s: Seq<Lexeme>)
    requires
        well_lexed(s),
    ensures
        grammar::term(s) matches Err(f) ==> is_reading_error(f.error),
        grammar::term(s) matches Ok((n, rest)) ==> is_expression(n) && well_lexed(rest)
            && rest.len() < s.len(),
    decreases s.len(), 2nat,
{
    lemma_factor(s);
    if let Ok((left, rest)) = grammar::factor(s) {
        lemma_term_rest(left, rest);
    }
}

/// `expr_rest` behind an expression in order yields one, and no longer stream.
pub proof fn lemma_expr_rest(left: Node, s: Seq<Lexeme>)
    requires
        well_lexed(s),
        is_expression(left),
    ensures
        grammar::expr_rest(left, s) matches Err(f) ==> is_reading_error(f.error),
        grammar::expr_rest(left, s) matches Ok((n, rest)) ==> is_expression(n) && well_lexed(rest)
            && rest.len() <= s.len(),
    decreases s.len(), 3nat,
{
    lemma_behind(s);
    if let Ok(kind) = grammar::front_kind(s) {
        if kind == TokenType::PLUS || kind == TokenType::MINUS {
            lemma_term(s.drop_first());
            if let Ok((right, rest)) = grammar::term(s.drop_first()) {
                lemma_expr_rest(
                    Node::BinOp { left: Box::new(left), op: s[0]->Ok_0, right: Box::new(right) },
                    rest,
                );
            }
        }
    }
}

/// `expr` yields an expression in order and a shorter stream.
pub proof fn lemma_expr(s: Seq<Lexeme>)
    requires
        well_lexed(s),
    ensures
        grammar::expr(s) matches Err(f) ==> is_reading_error(f.error),
        grammar::expr(s) matches Ok((n, rest)) ==> is_expression(n) && well_lexed(rest)
            && rest.len() < s.len(),
    decreases s.len(), 4nat,
{
    lemma_term(s);
    if let Ok((left, rest)) = grammar::term(s) {
        lemma_expr_rest(left, rest);
    }
}

/// `assignment_statement` yields a statement in order and a shorter stream.
pub proof fn lemma_assignment_statement(s: Seq<Lexeme>)
    requires
        well_lexed(s),
    ensures
        grammar::assignment_statement(s) matches Err(f) ==> is_reading_error(f.error),
        grammar::assignment_statement(s) matches Ok((n, rest)) ==> is_statement(n) && well_lexed(
            rest,
        ) && rest.len() < s.len(),
{
    lemma_variable(s);
    if let Ok((left, s1)) = grammar::variable(s) {
        lemma_eat(s1, TokenType::ASSIGN);
        if let Ok(s2) = grammar::eat(s1, TokenType::ASSIGN) {
            lemma_expr(s2);
        }
    }
}

/// `compound_statement` yields a statement in order and a shorter stream.
pub proof fn lemma_compound_statement(s: Seq<Lexeme>)
    requires
        well_lexed(s),
    ensures
        grammar::compound_statement(s) matches Err(f) ==> is_reading_error(f.error),
        grammar::compound_statement(s) matches Ok((n, rest)) ==> is_statement(n) && well_lexed(
            rest,
        ) && rest.len() < s.len(),
    decreases s.len(), 0nat,
{
    lemma_eat(s, TokenType::BEGIN);
    if let Ok(s1) = grammar::eat(s, TokenType::BEGIN) {
        lemma_statement_list(s1);
        if let Ok((children, s2)) = grammar::statement_list(s1) {
            lemma_eat(s2, TokenType::END);
        }
    }
}

/// `statement` yields a statement in order, and no longer stream.
pub proof fn lemma_statement(s: Seq<Lexeme>)
    requires
        well_lexed(s),
    ensures
        grammar::statement(s) matches Err(f) ==> is_reading_error(f.error),
        grammar::statement(s) matches Ok((n, rest)) ==> is_statement(n) && well_lexed(rest)
            && rest.len() <= s.len(),
    decreases s.len(), 1nat,
{
    if let Ok(kind) = grammar::front_kind(s) {
        if kind == TokenType::BEGIN {
            lemma_compound_statement(s);
        } else if kind == TokenType::ID {
            lemma_assignment_statement(s);
        }
    }
}

/// `statement_list_rest` behind statements in order yields statements in
/// order, and no longer stream.
pub proof fn lemma_statement_list_rest(done: Seq<Node>, s: Seq<Lexeme>)
    requires
        well_lexed(s),
        are_statements(done),
    ensures
        grammar::statement_list_rest(done, s) matches Err(f) ==> is_reading_error(f.error),
        grammar::statement_list_rest(done, s) matches Ok((children, rest)) ==> are_statements(
            children,
        ) && well_lexed(rest) && rest.len() <= s.len(),
    decreases s.len(), 2nat,
{
    lemma_behind(s);
    if let Ok(kind) = grammar::front_kind(s) {
        if kind == TokenType::SEMI {
            lemma_statement(s.drop_first());
            if let Ok((next, rest)) = grammar::statement(s.drop_first()) {
                lemma_statement_list_rest(done.push(next), rest);
            }
        }
    }
}

/// `statement_list` yields statements in order, and no longer stream.
pub proof fn lemma_statement_list(s: Seq<Lexeme>)
    requires
        well_lexed(s),
    ensures
        grammar::statement_list(s) matches Err(f) ==> is_reading_error(f.error),
        grammar::statement_list(s) matches Ok((children, rest)) ==> are_statements(children)
            && well_lexed(rest) && rest.len() <= s.len(),
    decreases s.len(), 3nat,
{
    lemma_statement(s);
    if let Ok((first, rest)) = grammar::statement(s) {
        lemma_statement_list_rest(seq![first], rest);
    }
}

/// Whatever parses, parses to a statement in order.
pub proof fn lemma_parse(s: Seq<Lexeme>)
    requires
        well_lexed(s),
    ensures
        grammar::parse(s) matches Err(f) ==> is_reading_error(f.error),
        grammar::parse(s) matches Ok(n) ==> is_statement(n),
{
    lemma_compound_statement(s);
    if let Ok((node, s1)) = grammar::compound_statement(s) {
        lemma_eat(s1, TokenType::DOT);
        if let Ok(s2) = grammar::eat(s1, TokenType::DOT) {
            lemma_eat(s2, TokenType::EOF);
        }
    }
}

/// An expression in order changes no variable, and fails only by a division
/// by zero, an undefined variable or an overflow.
pub proof fn lemma_expression_evaluates(n: Node, store: Store)
    requires
        is_expression(n),
    ensures
        eval(n, store).store == store,
        eval(n, store).result matches Err(e) ==> is_runtime_error(e),
    decreases n,
{
    match n {
        Node::UnaryOp { op, expr } => {
            lemma_expression_evaluates(*expr, store);
        },
        Node::BinOp { left, op, right } => {
            lemma_expression_evaluates(*left, store);
            lemma_expression_evaluates(*right, store);
        },
        _ => {},
    }
}

/// A statement in order evaluates to the unit value, and fails only by a
/// division by zero, an undefined variable or an overflow.
pub proof fn lemma_statement_runs(n: Node, store: Store)
    requires
        is_statement(n),
    ensures
        eval(n, store).result matches Err(e) ==> is_runtime_error(e),
        eval(n, store).result matches Ok(v) ==> v == unit_value(),
    decreases n,
{
    match n {
        Node::Assign { left, op, right } => {
            lemma_expression_evaluates(*right, store);
        },
        Node::Compound { children } => {
            lemma_statements_run(children, store);
        },
        _ => {},
    }
}

/// Statements in order, run one after the other, evaluate to the unit value,
/// and fail only by a division by zero, an undefined variable or an overflow.
pub proof fn lemma_statements_run(children: Seq<Node>, store: Store)
    requires
        are_statements(children),
    ensures
        eval_all(children, store).result matches Err(e) ==> is_runtime_error(e),
        eval_all(children, store).result matches Ok(v) ==> v == unit_value(),
    decreases children,
{
    if children.len() > 0 {
        lemma_statement_runs(children[0], store);
        let rest = children.drop_first();
        assert forall|i: int| 0 <= i < rest.len() implies is_statement(#[trigger] rest[i]) by {
            assert(rest[i] == children[i + 1]);
        }
        lemma_statements_run(rest, eval(children[0], store).store);
    }
}

/// Whatever the text: a program that is interpreted evaluates to the unit
/// value, or fails while it is split into tokens or parsed, which leaves no
/// variable, or fails by a division by zero, an undefined variable or an
/// overflow. The evaluation of a tree that was parsed never finds the tree
/// out of order.
pub proof fn lemma_interpretation_outcomes(text: Seq<char>)
    ensures
        match interpretation(text).1 {
            Ok(v) => v == unit_value(),
            Err(Error::Eval(e)) => is_runtime_error(e),
            Err(_) => interpretation(text).0 == Map::<Seq<char>, i32>::empty(),
        },
{
    lemma_text_is_well_lexed(text);
    let s = lexemes(text, 0);
    lemma_parse(s);
    let none = Map::<Seq<char>, i32>::empty();
    assert(interpretation(text) == run(s, none));
    match grammar::parse(s) {
        Ok(n) => {
            lemma_statement_runs(n, none);
            assert(interpretation(text).1 == lift(eval(n, none).result));
        },
        Err(f) => {
            assert(interpretation(text) == (none, Err::<i32, Error>(f.error)));
        },
    }
}

} // verus!
