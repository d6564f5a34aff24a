//! Reading agrees with the grammar: whatever tree a rule of
//! [`crate::grammar`] yields, the tokens that it took spell that tree in the
//! sense of [`crate::derivation`].

use vstd::prelude::*;
use crate::ast::Node;
use crate::derivation::{
    is_additive, is_multiplicative, lemma_expression_has_tokens, spells_assignment,
    spells_compound, spells_expr, spells_factor, spells_program, spells_statement,
    spells_statement_list, spells_term,
};
use crate::grammar;
use crate::lexical::{is_final, lexemes, Lexeme};
use crate::token::{TokenType, TokenView};
use crate::wellformed::{
    lemma_behind, lemma_compound_statement, lemma_eat, lemma_expr, lemma_factor,
    lemma_statement, lemma_statement_list, lemma_term, lemma_text_is_well_lexed,
    lemma_variable, well_lexed,
};

verus! {

/// The tokens of a sequence of lexemes that holds no error.
pub open spec fn tokens_of(s: Seq<Lexeme>) -> Seq<TokenView> {
    Seq::new(s.len(), |i: int| s[i]->Ok_0)
}

/// Whether `rest` is what is left of `s` behind some of its tokens.
pub open spec fn follows(s: Seq<Lexeme>, rest: Seq<Lexeme>) -> bool {
    rest.len() <= s.len() && rest == s.skip(s.len() - rest.len())
}

/// The tokens of `s` in front of `rest`: what was read between the two.
pub open spec fn read(s: Seq<Lexeme>, rest: Seq<Lexeme>) -> Seq<TokenView> {
    tokens_of(s.take(s.len() - rest.len()))
}

/// Between a stream and itself nothing was read.
pub proof fn lemma_read_nothing(s: Seq<Lexeme>)
    ensures
        follows(s, s),
        read(s, s) == Seq::<TokenView>::empty(),
{
    assert(s.skip(0) =~= s);
    assert(read(s, s) =~= Seq::<TokenView>::empty());
}

/// Between a stream and what is behind its first token, that token was read.
pub proof fn lemma_read_one(s: Seq<Lexeme>)
    requires
        s.len() > 1,
    ensures
        follows(s, s.drop_first()),
        read(s, s.drop_first()) == seq![s[0]->Ok_0],
{
    assert(s.drop_first() =~= s.skip(1));
    assert(read(s, s.drop_first()) =~= seq![s[0]->Ok_0]);
}

/// What was read up to `mid` and then up to `rest` was read up to `rest`.
pub proof fn lemma_read_on(s: Seq<Lexeme>, mid: Seq<Lexeme>, rest: Seq<Lexeme>)
    requires
        follows(s, mid),
        follows(mid, rest),
    ensures
        follows(s, rest),
        read(s, rest) == read(s, mid) + read(mid, rest),
{
    assert(rest =~= s.skip(s.len() - rest.len()));
    assert(read(s, rest) =~= read(s, mid) + read(mid, rest));
}

/// Eating a token reads that token.
pub proof fn lemma_eat_reads(s: Seq<Lexeme>, kind: TokenType)
    requires
        well_lexed(s),
        kind != TokenType::EOF,
    ensures
        grammar::eat(s, kind) matches Ok(rest) ==> {
            &&& follows(s, rest)
            &&& read(s, rest) == seq![s[0]->Ok_0]
            &&& (s[0]->Ok_0).genre == kind
            &&& well_lexed(rest)
        },
{
    lemma_eat(s, kind);
    if grammar::eat(s, kind) is Ok {
        lemma_read_one(s);
    }
}

/// The token that `variable` takes spells the variable.
pub proof fn lemma_variable_spelt(s: Seq<Lexeme>)
    requires
        well_lexed(s),
    ensures
        grammar::variable(s) matches Ok((n, rest)) ==> {
            &&& follows(s, rest)
            &&& read(s, rest) == seq![s[0]->Ok_0]
            &&& (s[0]->Ok_0).genre == TokenType::ID
            &&& n == (Node::Var { token: s[0]->Ok_0 })
            &&& spells_factor(read(s, rest), n)
        },
{
    lemma_eat_reads(s, TokenType::ID);
}

/// The tokens that `factor` takes spell the factor.
pub proof fn lemma_factor_spelt(s: Seq<Lexeme>)
    requires
        well_lexed(s),
    ensures
        grammar::factor(s) matches Ok((n, rest)) ==> follows(s, rest) && spells_factor(
            read(s, rest),
            n,
        ),
    decreases s.len(), 0nat,
{
    lemma_behind(s);
    if let Ok((n, rest)) = grammar::factor(s) {
        let kind = grammar::front_kind(s)->Ok_0;
        let s1 = s.drop_first();
        if kind == TokenType::INTEGER {
            lemma_read_one(s);
        } else if kind == TokenType::LPAREN {
            lemma_read_one(s);
            lemma_expr(s1);
            lemma_expr_spelt(s1);
            let r1 = grammar::expr(s1)->Ok_0.1;
            lemma_eat_reads(r1, TokenType::RPAREN);
            lemma_read_on(s, s1, r1);
            lemma_read_on(s, r1, rest);
            let toks = read(s, rest);
            assert(toks.subrange(1, toks.len() - 1) =~= read(s1, r1));
        } else if kind == TokenType::PLUS || kind == TokenType::MINUS {
            lemma_read_one(s);
            lemma_factor_spelt(s1);
            lemma_read_on(s, s1, rest);
            assert(read(s, rest).drop_first() =~= read(s1, rest));
        } else {
            lemma_variable_spelt(s);
        }
    }
}

/// Behind the tokens `before` of the product `left`, what `term_rest` takes
/// spells, together with them, the product that it yields.
pub proof fn lemma_term_rest_spelt(before: Seq<TokenView>, left: Node, s: Seq<Lexeme>)
    requires
        well_lexed(s),
        spells_term(before, left),
    ensures
        grammar::term_rest(left, s) matches Ok((n, rest)) ==> follows(s, rest) && spells_term(
            before + read(s, rest),
            n,
        ),
    decreases s.len(), 1nat,
{
    lemma_behind(s);
    if let Ok((n, rest)) = grammar::term_rest(left, s) {
        let kind = grammar::front_kind(s)->Ok_0;
        if is_multiplicative(kind) {
            let s1 = s.drop_first();
            let op = s[0]->Ok_0;
            lemma_read_one(s);
            lemma_factor(s1);
            lemma_factor_spelt(s1);
            let (right, r1) = grammar::factor(s1)->Ok_0;
            lemma_read_on(s, s1, r1);
            let product = Node::BinOp { left: Box::new(left), op, right: Box::new(right) };
            let toks = before + read(s, r1);
            let k = before.len() as int;
            assert(toks.take(k) =~= before);
            assert(toks.skip(k + 1) =~= read(s1, r1));
            assert(toks[k] == op);
            lemma_expression_has_tokens(before, left);
            lemma_expression_has_tokens(read(s1, r1), right);
            assert(spells_term(toks, product));
            lemma_term_rest_spelt(toks, product, r1);
            lemma_read_on(s, r1, rest);
            assert(before + read(s, rest) =~= toks + read(r1, rest));
        } else {
            lemma_read_nothing(s);
            assert(before + read(s, rest) =~= before);
        }
    }
}

/// The tokens that `term` takes spell the term.
pub proof fn lemma_term_spelt(s: Seq<Lexeme>)
    requires
        well_lexed(s),
    ensures
        grammar::term(s) matches Ok((n, rest)) ==> follows(s, rest) && spells_term(
            read(s, rest),
            n,
        ),
    decreases s.len(), 2nat,
{
    if let Ok((n, rest)) = grammar::term(s) {
        lemma_factor(s);
        lemma_factor_spelt(s);
        let (left, r1) = grammar::factor(s)->Ok_0;
        lemma_term_rest_spelt(read(s, r1), left, r1);
        lemma_read_on(s, r1, rest);
    }
}

/// Behind the tokens `before` of the sum `left`, what `expr_rest` takes
/// spells, together with them, the sum that it yields.
pub proof fn lemma_expr_rest_spelt(before: Seq<TokenView>, left: Node, s: Seq<Lexeme>)
    requires
        well_lexed(s),
        spells_expr(before, left),
    ensures
        grammar::expr_rest(left, s) matches Ok((n, rest)) ==> follows(s, rest) && spells_expr(
            before + read(s, rest),
            n,
        ),
    decreases s.len(), 3nat,
{
    lemma_behind(s);
    if let Ok((n, rest)) = grammar::expr_rest(left, s) {
        let kind = grammar::front_kind(s)->Ok_0;
        if is_additive(kind) {
            let s1 = s.drop_first();
            let op = s[0]->Ok_0;
            lemma_read_one(s);
            lemma_term(s1);
            lemma_term_spelt(s1);
            let (right, r1) = grammar::term(s1)->Ok_0;
            lemma_read_on(s, s1, r1);
            let sum = Node::BinOp { left: Box::new(left), op, right: Box::new(right) };
            let toks = before + read(s, r1);
            let k = before.len() as int;
            assert(toks.take(k) =~= before);
            assert(toks.skip(k + 1) =~= read(s1, r1));
            assert(toks[k] == op);
            lemma_expression_has_tokens(before, left);
            lemma_expression_has_tokens(read(s1, r1), right);
            assert(spells_expr(toks, sum));
            lemma_expr_rest_spelt(toks, sum, r1);
            lemma_read_on(s, r1, rest);
            assert(before + read(s, rest) =~= toks + read(r1, rest));
        } else {
            lemma_read_nothing(s);
            assert(before + read(s, rest) =~= before);
        }
    }
}

/// The tokens that `expr` takes spell the expression.
pub proof fn lemma_expr_spelt(s: Seq<Lexeme>)
    requires
        well_lexed(s),
    ensures
        grammar::expr(s) matches Ok((n, rest)) ==> follows(s, rest) && spells_expr(
            read(s, rest),
            n,
        ),
    decreases s.len(), 4nat,
{
    if let Ok((n, rest)) = grammar::expr(s) {
        lemma_term(s);
        lemma_term_spelt(s);
        let (left, r1) = grammar::term(s)->Ok_0;
        lemma_expr_rest_spelt(read(s, r1), left, r1);
        lemma_read_on(s, r1, rest);
    }
}

/// The tokens that `assignment_statement` takes spell the assignment.
pub proof fn lemma_assignment_spelt(s: Seq<Lexeme>)
    requires
        well_lexed(s),
    ensures
        grammar::assignment_statement(s) matches Ok((n, rest)) ==> follows(s, rest)
            && spells_assignment(read(s, rest), n),
{
    if let Ok((n, rest)) = grammar::assignment_statement(s) {
        lemma_variable(s);
        lemma_variable_spelt(s);
        let (left, s1) = grammar::variable(s)->Ok_0;
        lemma_eat_reads(s1, TokenType::ASSIGN);
        let s2 = grammar::eat(s1, TokenType::ASSIGN)->Ok_0;
        lemma_expr_spelt(s2);
        lemma_read_on(s, s1, s2);
        lemma_read_on(s, s2, rest);
        let right = grammar::expr(s2)->Ok_0.0;
        lemma_expression_has_tokens(read(s2, rest), right);
        let toks = read(s, rest);
        assert(toks =~= seq![s[0]->Ok_0, s1[0]->Ok_0] + read(s2, rest));
        assert(toks.skip(2) =~= read(s2, rest));
        assert(toks[0] == s[0]->Ok_0);
        assert(toks[1] == s1[0]->Ok_0);
    }
}

/// The tokens that `compound_statement` takes spell the block.
pub proof fn lemma_compound_spelt(s: Seq<Lexeme>)
    requires
        well_lexed(s),
    ensures
        grammar::compound_statement(s) matches Ok((n, rest)) ==> follows(s, rest)
            && spells_compound(read(s, rest), n),
    decreases s.len(), 0nat,
{
    if let Ok((n, rest)) = grammar::compound_statement(s) {
        lemma_eat_reads(s, TokenType::BEGIN);
        let s1 = grammar::eat(s, TokenType::BEGIN)->Ok_0;
        lemma_statement_list(s1);
        lemma_statement_list_spelt(s1);
        let (children, s2) = grammar::statement_list(s1)->Ok_0;
        lemma_eat_reads(s2, TokenType::END);
        lemma_read_on(s, s1, s2);
        lemma_read_on(s, s2, rest);
        let toks = read(s, rest);
        assert(toks.subrange(1, toks.len() - 1) =~= read(s1, s2));
    }
}

/// The tokens that `statement` takes spell the statement.
pub proof fn lemma_statement_spelt(s: Seq<Lexeme>)
    requires
        well_lexed(s),
    ensures
        grammar::statement(s) matches Ok((n, rest)) ==> follows(s, rest) && spells_statement(
            read(s, rest),
            n,
        ),
    decreases s.len(), 1nat,
{
    if let Ok((n, rest)) = grammar::statement(s) {
        let kind = grammar::front_kind(s)->Ok_0;
        if kind == TokenType::BEGIN {
            lemma_compound_spelt(s);
        } else if kind == TokenType::ID {
            lemma_assignment_spelt(s);
        } else {
            lemma_read_nothing(s);
        }
    }
}

/// Behind the tokens `before` of the statements `done`, what
/// `statement_list_rest` takes spells, together with them, the list that it
/// yields.
pub proof fn lemma_statement_list_rest_spelt(
    before: Seq<TokenView>,
    done: Seq<Node>,
    s: Seq<Lexeme>,
)
    requires
        well_lexed(s),
        spells_statement_list(before, done),
    ensures
        grammar::statement_list_rest(done, s) matches Ok((children, rest)) ==> follows(s, rest)
            && spells_statement_list(before + read(s, rest), children),
    decreases s.len(), 2nat,
{
    lemma_behind(s);
    if let Ok((children, rest)) = grammar::statement_list_rest(done, s) {
        let kind = grammar::front_kind(s)->Ok_0;
        if kind == TokenType::SEMI {
            let s1 = s.drop_first();
            lemma_read_one(s);
            lemma_statement(s1);
            lemma_statement_spelt(s1);
            let (next, r1) = grammar::statement(s1)->Ok_0;
            lemma_read_on(s, s1, r1);
            let toks = before + read(s, r1);
            let longer = done.push(next);
            let k = before.len() as int;
            assert(toks.take(k) =~= before);
            assert(toks.skip(k + 1) =~= read(s1, r1));
            assert(toks[k] == s[0]->Ok_0);
            assert(longer.drop_last() =~= done);
            assert(spells_statement_list(toks, longer));
            lemma_statement_list_rest_spelt(toks, longer, r1);
            lemma_read_on(s, r1, rest);
            assert(before + read(s, rest) =~= toks + read(r1, rest));
        } else {
            lemma_read_nothing(s);
            assert(before + read(s, rest) =~= before);
        }
    }
}

/// The tokens that `statement_list` takes spell the list.
pub proof fn lemma_statement_list_spelt(s: Seq<Lexeme>)
    requires
        well_lexed(s),
    ensures
        grammar::statement_list(s) matches Ok((children, rest)) ==> follows(s, rest)
            && spells_statement_list(read(s, rest), children),
    decreases s.len(), 3nat,
{
    if let Ok((children, rest)) = grammar::statement_list(s) {
        lemma_statement(s);
        lemma_statement_spelt(s);
        let (first, r1) = grammar::statement(s)->Ok_0;
        lemma_statement_list_rest_spelt(read(s, r1), seq![first], r1);
        lemma_read_on(s, r1, rest);
    }
}

/// Whatever parses is spelt by its tokens: if a stream parses to a tree,
/// then the tokens of the stream, but for the `EOF` at its end, spell that
/// tree as a program.
pub proof fn lemma_parse_spelt(s: Seq<Lexeme>)
    requires
        well_lexed(s),
    ensures
        grammar::parse(s) matches Ok(n) ==> spells_program(tokens_of(s.drop_last()), n),
{
    if let Ok(n) = grammar::parse(s) {
        lemma_compound_statement(s);
        lemma_compound_spelt(s);
        let (node, s1) = grammar::compound_statement(s)->Ok_0;
        lemma_eat_reads(s1, TokenType::DOT);
        let s2 = grammar::eat(s1, TokenType::DOT)->Ok_0;
        lemma_read_on(s, s1, s2);
        assert(is_final(s2[0]));
        assert(s2.len() == 1);
        assert(s.take(s.len() - 1) =~= s.drop_last());
        let toks = read(s, s2);
        assert(toks.drop_last() =~= read(s, s1));
    }
}

/// Whatever the text: if it parses to a tree, its tokens spell that tree as
/// a program.
pub proof fn lemma_text_parse_spelt(text: Seq<char>)
    ensures
        grammar::parse(lexemes(text, 0)) matches Ok(n) ==> spells_program(
            tokens_of(lexemes(text, 0).drop_last()),
            n,
        ),
{
    lemma_text_is_well_lexed(text);
    lemma_parse_spelt(lexemes(text, 0));
}

} // verus!
