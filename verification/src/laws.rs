//! Laws of the interpreter: what holds of every program, proved from the
//! grammar and the semantics.

use vstd::prelude::*;
use crate::ast::Node;
use crate::chars::{is_blank, is_digit, is_letter, is_word_char, CharClass};
use crate::completeness::{ends_expr, lemma_program_read, lemma_whole_expr_read, wrap};
use crate::derivation::{
    is_additive, is_multiplicative, lemma_expression_has_tokens, spells_assignment,
    spells_compound, spells_expr, spells_factor, spells_program, spells_statement,
    spells_statement_list, spells_term,
};
use crate::error::{Error, EvalError, LexError};
use crate::grammar;
use crate::grammar::Failure;
use crate::lexical::{
    assign_token, decimal, eof_token, integer_token, lemma_scan_assign, lemma_scan_integer,
    lemma_scan_skips_blanks, lemma_scan_symbol, lemma_scan_word, lexemes, scan, symbol_token,
    word_kind, word_token, Lexeme,
};
use crate::semantics::{eval, eval_all, interpretation, unit_value, Outcome, Store};
use crate::soundness::{lemma_text_parse_spelt, tokens_of};
use crate::token::{TokenType, TokenView, ValueView};

verus! {

/// The token of the identifier `name`.
pub open spec fn id_token(name: Seq<char>) -> TokenView {
    TokenView { genre: TokenType::ID, value: Some(ValueView::STRING(name)) }
}

/// The tokens of a program of the form `BEGIN v := right; END.`, where
/// `right` are the tokens of the right side.
pub open spec fn assignment_program(v: Seq<char>, right: Seq<TokenView>) -> Seq<TokenView> {
    seq![word_token(seq!['B', 'E', 'G', 'I', 'N']), id_token(v), assign_token()] + right + seq![
        symbol_token(TokenType::SEMI, ';'),
        word_token(seq!['E', 'N', 'D']),
        symbol_token(TokenType::DOT, '.'),
    ]
}

/// The assignment of the expression `e` to the variable `v`.
pub open spec fn assignment(v: Seq<char>, e: Node) -> Node {
    Node::Assign {
        left: Box::new(Node::Var { token: id_token(v) }),
        op: assign_token(),
        right: Box::new(e),
    }
}

/// The tree of a program of the form `BEGIN v := right; END.`: a block of
/// the assignment and the empty statement behind the semicolon.
pub open spec fn assignment_tree(v: Seq<char>, e: Node) -> Node {
    Node::Compound { children: seq![assignment(v, e), Node::NoOp] }
}

/// A program of the form `BEGIN v := right; END.` parses to a block of one
/// assignment and one empty statement, whatever expression `right` spells.
pub proof fn lemma_assignment_program_parses(v: Seq<char>, right: Seq<TokenView>, e: Node)
    requires
        spells_expr(right, e),
    ensures
        spells_program(assignment_program(v, right), assignment_tree(v, e)),
        grammar::parse(wrap(assignment_program(v, right)) + seq![Ok(eof_token())]) == Ok::<
            Node,
            Failure,
        >(assignment_tree(v, e)),
{
    let toks = assignment_program(v, right);
    let body = toks.drop_last();
    let inner = body.subrange(1, body.len() - 1);
    let k = inner.len() - 1;
    let first = inner.take(k);
    let children = seq![assignment(v, e), Node::NoOp];
    lemma_expression_has_tokens(right, e);
    assert(first =~= seq![id_token(v), assign_token()] + right);
    assert(first.skip(2) =~= right);
    assert(spells_assignment(first, assignment(v, e)));
    assert(spells_statement(first, assignment(v, e)));
    assert(children.drop_last() =~= seq![assignment(v, e)]);
    assert(spells_statement_list(first, children.drop_last()));
    assert(inner.skip(k + 1) =~= Seq::<TokenView>::empty());
    assert(spells_statement(inner.skip(k + 1), children.last()));
    assert(inner[k] == symbol_token(TokenType::SEMI, ';'));
    assert(spells_statement_list(inner, children));
    assert(spells_compound(body, assignment_tree(v, e)));
    assert(spells_program(toks, assignment_tree(v, e)));
    lemma_program_read(toks, assignment_tree(v, e));
}

/// The block of `v := e` and an empty statement binds `v` to the value of
/// `e`, if `e` has one, and fails as `e` does, if it has none.
pub proof fn lemma_assignment_tree_binds(v: Seq<char>, e: Node, store: Store)
    ensures
        eval(assignment_tree(v, e), store) == match eval(e, store).result {
            Ok(x) => Outcome {
                store: eval(e, store).store.insert(v, x),
                result: Ok(unit_value()),
            },
            Err(_) => eval(e, store),
        },
{
    let children = seq![assignment(v, e), Node::NoOp];
    let rest = children.drop_first();
    assert(children[0] == assignment(v, e));
    assert(rest[0] == Node::NoOp);
    assert(rest.drop_first().len() == 0);
    reveal_with_fuel(eval_all, 3);
    match eval(e, store).result {
        Ok(x) => {
            let after = eval(e, store).store.insert(v, x);
            assert(eval(assignment(v, e), store) == Outcome {
                store: after,
                result: Ok(unit_value()),
            });
            assert(eval_all(rest, after) == Outcome { store: after, result: Ok(unit_value()) });
            assert(eval_all(children, store) == eval_all(rest, after));
        },
        Err(_) => {
            assert(eval(assignment(v, e), store) == eval(e, store));
            assert(eval_all(children, store) == eval(e, store));
        },
    }
}

/// For every name `v` and every expression: a program text whose tokens are
/// `BEGIN v := right ; END .`, where `right` spells the expression `e`, binds
/// `v` to exactly the value of `e`, if `e` has one without variables.
pub proof fn lemma_assignment_program(
    text: Seq<char>,
    v: Seq<char>,
    right: Seq<TokenView>,
    e: Node,
    x: i32,
)
    requires
        lexemes(text, 0) == wrap(assignment_program(v, right)) + seq![Ok(eof_token())],
        spells_expr(right, e),
        eval(e, Map::empty()) == (Outcome { store: Map::empty(), result: Ok(x) }),
    ensures
        interpretation(text) == (
            Map::<Seq<char>, i32>::empty().insert(v, x),
            Ok::<i32, Error>(unit_value()),
        ),
{
    lemma_assignment_program_parses(v, right, e);
    lemma_assignment_tree_binds(v, e, Map::empty());
}

/// Interpreting is a function of the text: two readings of the same text
/// give the same tokens, the same tree or the same error, the same value and
/// the same variables.
pub proof fn lemma_same_text_same_outcome(first: Seq<char>, second: Seq<char>)
    requires
        first =~= second,
    ensures
        lexemes(first, 0) == lexemes(second, 0),
        grammar::parse(lexemes(first, 0)) == grammar::parse(lexemes(second, 0)),
        interpretation(first) == interpretation(second),
{
}

/// A division whose operands evaluate and whose right operand is zero fails
/// with `DivisionByZero`, whatever the left operand is. It never has a value.
pub proof fn lemma_division_by_zero(left: Node, op: TokenView, right: Node, store: Store)
    requires
        op.genre == TokenType::DIV,
        eval(left, store).result is Ok,
        eval(right, eval(left, store).store).result == Ok::<i32, EvalError>(0),
    ensures
        eval(Node::BinOp { left: Box::new(left), op, right: Box::new(right) }, store).result
            == Err::<i32, EvalError>(EvalError::DivisionByZero),
{
}

/// Reading a variable that nothing was assigned to fails with
/// `UndefinedVariable`, and no value stands in for it.
pub proof fn lemma_undefined_variable(name: Seq<char>, store: Store)
    requires
        !store.contains_key(name),
    ensures
        eval(Node::Var { token: id_token(name) }, store).result == Err::<i32, EvalError>(
            EvalError::UndefinedVariable,
        ),
{
}

/// An error on the right side of an assignment is the error of the
/// assignment, and nothing is bound.
pub proof fn lemma_failed_assignment_binds_nothing(
    name: Seq<char>,
    op: TokenView,
    right: Node,
    store: Store,
)
    requires
        eval(right, store).result is Err,
    ensures
        eval(
            Node::Assign {
                left: Box::new(Node::Var { token: id_token(name) }),
                op,
                right: Box::new(right),
            },
            store,
        ) == eval(right, store),
{
}

/// A variable reads what was assigned to it last: behind an assignment to
/// `name` that succeeds, `name` evaluates to the value of the right side.
pub proof fn lemma_read_after_write(name: Seq<char>, op: TokenView, right: Node, store: Store)
    requires
        eval(right, store).result is Ok,
    ensures
        ({
            let target = Node::Var { token: id_token(name) };
            let after = eval(
                Node::Assign { left: Box::new(target), op, right: Box::new(right) },
                store,
            );
            &&& after.result is Ok
            &&& eval(target, after.store).result == eval(right, store).result
        }),
{
}

/// Reading is the grammar: a text that splits into the tokens `toks` and
/// nothing else parses to a tree if and only if `toks` spell that tree as a
/// program.
pub proof fn lemma_parse_is_the_grammar(text: Seq<char>, toks: Seq<TokenView>, n: Node)
    requires
        lexemes(text, 0) == wrap(toks) + seq![Ok(eof_token())],
    ensures
        grammar::parse(lexemes(text, 0)) == Ok::<Node, Failure>(n) <==> spells_program(toks, n),
{
    let s = lexemes(text, 0);
    if spells_program(toks, n) {
        lemma_program_read(toks, n);
    }
    if grammar::parse(s) == Ok::<Node, Failure>(n) {
        lemma_text_parse_spelt(text);
        assert(tokens_of(s.drop_last()) =~= toks);
    }
}

/// Whether `v` is written like a variable: a letter that is no whitespace
/// (no ASCII letter is), then letters and digits, and not a keyword.
pub open spec fn is_identifier(v: Seq<char>) -> bool {
    &&& v.len() >= 1
    &&& is_letter(v[0])
    &&& !is_blank(v[0])
    &&& forall|i: int| 0 <= i < v.len() ==> is_word_char(#[trigger] v[i])
    &&& word_kind(v) == TokenType::ID
}

/// Whether `digits` is written like an integer literal: at least one digit,
/// nothing but digits, and a number that an `i32` holds.
pub open spec fn is_literal(digits: Seq<char>) -> bool {
    &&& digits.len() >= 1
    &&& forall|i: int| 0 <= i < digits.len() ==> is_digit(#[trigger] digits[i])
    &&& decimal(digits) <= i32::MAX
}

/// The sign in front of a literal, as it is written: `-` or nothing.
pub open spec fn sign_text(negative: bool) -> Seq<char> {
    if negative {
        seq!['-']
    } else {
        Seq::empty()
    }
}

/// The program text `BEGIN v := digits; END.`, with `-` in front of the
/// digits if `negative`.
pub open spec fn assignment_text(v: Seq<char>, negative: bool, digits: Seq<char>) -> Seq<char> {
    seq!['B', 'E', 'G', 'I', 'N', ' '] + v + seq![' ', ':', '=', ' '] + sign_text(negative)
        + digits + seq![';', ' ', 'E', 'N', 'D', '.']
}

/// The tokens of the literal `n`, with `-` in front of it if `negative`.
pub open spec fn literal_tokens(negative: bool, n: i32) -> Seq<TokenView> {
    if negative {
        seq![symbol_token(TokenType::MINUS, '-'), integer_token(n)]
    } else {
        seq![integer_token(n)]
    }
}

/// The expression of the literal `n`, negated if `negative`.
pub open spec fn literal_node(negative: bool, n: i32) -> Node {
    if negative {
        Node::UnaryOp {
            op: symbol_token(TokenType::MINUS, '-'),
            expr: Box::new(Node::Num { token: integer_token(n) }),
        }
    } else {
        Node::Num { token: integer_token(n) }
    }
}

/// The integer that the digits `digits` denote, negated if `negative`.
pub open spec fn literal_number(negative: bool, digits: Seq<char>) -> int {
    if negative {
        -decimal(digits)
    } else {
        decimal(digits) as int
    }
}

/// The tokens of a literal with its sign spell the literal's expression.
pub proof fn lemma_literal_spelt(negative: bool, n: i32)
    ensures
        spells_expr(literal_tokens(negative, n), literal_node(negative, n)),
{
    let number = Node::Num { token: integer_token(n) };
    assert(spells_factor(seq![integer_token(n)], number));
    if negative {
        assert(literal_tokens(negative, n).drop_first() =~= seq![integer_token(n)]);
        assert(spells_factor(literal_tokens(negative, n), literal_node(negative, n)));
    }
    assert(spells_term(literal_tokens(negative, n), literal_node(negative, n)));
}

/// The tokens of the text `BEGIN v := digits; END.`, with or without `-` in
/// front of the digits, are those of the keywords and symbols as they stand,
/// the identifier `v` and the number that `digits` denote.
pub proof fn lemma_assignment_text_tokens(v: Seq<char>, negative: bool, digits: Seq<char>)
    requires
        is_identifier(v),
        is_literal(digits),
    ensures
        lexemes(assignment_text(v, negative, digits), 0) == wrap(
            assignment_program(v, literal_tokens(negative, decimal(digits) as i32)),
        ) + seq![Ok(eof_token())],
{
    let t = assignment_text(v, negative, digits);
    let sign: int = if negative { 1 } else { 0 };
    let a: int = 6 + v.len() as int;
    let b: int = a + 4 + sign;
    let c: int = b + digits.len() as int;
    let n = decimal(digits) as i32;
    assert(t.len() == c + 6);
    assert(t[0] == 'B' && t[1] == 'E' && t[2] == 'G' && t[3] == 'I' && t[4] == 'N' && t[5] == ' ');
    assert forall|i: int| 0 <= i < v.len() implies #[trigger] t[6 + i] == v[i] by {}
    assert(t[a] == ' ' && t[a + 1] == ':' && t[a + 2] == '=' && t[a + 3] == ' ');
    assert(negative ==> t[a + 4] == '-');
    assert forall|i: int| 0 <= i < digits.len() implies #[trigger] t[b + i] == digits[i] by {}
    assert(t[c] == ';' && t[c + 1] == ' ' && t[c + 2] == 'E' && t[c + 3] == 'N' && t[c + 4] == 'D'
        && t[c + 5] == '.');
    assert(t[6] == v[0]);
    assert(t[b] == digits[0]);

    // BEGIN
    assert(t.subrange(0, 5) =~= seq!['B', 'E', 'G', 'I', 'N']);
    lemma_scan_word(t, 0, 5);
    // v
    assert forall|i: int| 6 <= i < a implies CharClass::Alphanumeric.has(#[trigger] t[i]) by {
        assert(t[6 + (i - 6)] == v[i - 6]);
    }
    assert(t.subrange(6, a) =~= v);
    lemma_scan_word(t, 6, a);
    lemma_scan_skips_blanks(t, 5, 6);
    // :=
    lemma_scan_assign(t, a + 1);
    lemma_scan_skips_blanks(t, a, a + 1);
    // the sign and the digits
    assert forall|i: int| b <= i < c implies CharClass::Digit.has(#[trigger] t[i]) by {
        assert(t[b + (i - b)] == digits[i - b]);
    }
    assert(t.subrange(b, c) =~= digits);
    lemma_scan_integer(t, b, c);
    lemma_scan_skips_blanks(t, a + 3, a + 4);
    if negative {
        lemma_scan_symbol(t, a + 4);
    }
    // ;
    lemma_scan_symbol(t, c);
    // END
    assert(t.subrange(c + 2, c + 5) =~= seq!['E', 'N', 'D']);
    lemma_scan_word(t, c + 2, c + 5);
    lemma_scan_skips_blanks(t, c + 1, c + 2);
    // .
    lemma_scan_symbol(t, c + 5);

    let l7 = lexemes(t, c + 6);
    assert(l7 == seq![Ok::<TokenView, LexError>(eof_token())]);
    let l6 = lexemes(t, c + 5);
    assert(l6 == seq![scan(t, c + 5).lexeme] + l7);
    let l5 = lexemes(t, c + 1);
    assert(l5 == seq![scan(t, c + 1).lexeme] + l6);
    let l4 = lexemes(t, c);
    assert(l4 == seq![scan(t, c).lexeme] + l5);
    let digits_on = lexemes(t, b);
    assert(digits_on == seq![scan(t, b).lexeme] + l4);
    let l3 = lexemes(t, a + 3);
    if negative {
        assert(l3 == seq![scan(t, a + 3).lexeme] + digits_on);
    } else {
        assert(l3 == seq![scan(t, a + 3).lexeme] + l4);
    }
    let l2 = lexemes(t, a);
    assert(l2 == seq![scan(t, a).lexeme] + l3);
    let l1 = lexemes(t, 5);
    assert(l1 == seq![scan(t, 5).lexeme] + l2);
    let l0 = lexemes(t, 0);
    assert(l0 == seq![scan(t, 0).lexeme] + l1);
    assert(l0 =~= wrap(assignment_program(v, literal_tokens(negative, n))) + seq![
        Ok(eof_token()),
    ]);
}

/// For every identifier `v` and every integer literal `digits`, with or
/// without `-` in front of it: the program `BEGIN v := digits; END.` is
/// interpreted without error, and leaves `v` bound to exactly the integer
/// that is written, and nothing else bound.
pub proof fn lemma_assignment_text(v: Seq<char>, negative: bool, digits: Seq<char>)
    requires
        is_identifier(v),
        is_literal(digits),
    ensures
        interpretation(assignment_text(v, negative, digits)) == (
            Map::<Seq<char>, i32>::empty().insert(v, literal_number(negative, digits) as i32),
            Ok::<i32, Error>(unit_value()),
        ),
        i32::MIN < literal_number(negative, digits) <= i32::MAX,
{
    let n = decimal(digits) as i32;
    let none = Map::<Seq<char>, i32>::empty();
    lemma_assignment_text_tokens(v, negative, digits);
    lemma_literal_spelt(negative, n);
    assert(eval(Node::Num { token: integer_token(n) }, none) == Outcome {
        store: none,
        result: Ok(n),
    });
    lemma_assignment_program(
        assignment_text(v, negative, digits),
        v,
        literal_tokens(negative, n),
        literal_node(negative, n),
        literal_number(negative, digits) as i32,
    );
}

/// The node of a number or a variable, by its token.
pub open spec fn operand_node(token: TokenView) -> Node {
    if token.genre == TokenType::INTEGER {
        Node::Num { token }
    } else {
        Node::Var { token }
    }
}

/// The node of an operator between two nodes.
pub open spec fn binary_node(left: Node, op: TokenView, right: Node) -> Node {
    Node::BinOp { left: Box::new(left), op, right: Box::new(right) }
}

/// Whether `token` is a number or a variable.
pub open spec fn is_operand(token: TokenView) -> bool {
    token.genre == TokenType::INTEGER || token.genre == TokenType::ID
}

/// Products bind tighter than sums: in `a + b * c` the product is the right
/// operand of the sum, whatever the operands and whichever operators of the
/// two levels.
pub proof fn lemma_product_binds_tighter(
    a: TokenView,
    plus: TokenView,
    b: TokenView,
    times: TokenView,
    c: TokenView,
    rest: Seq<Lexeme>,
)
    requires
        is_operand(a) && is_operand(b) && is_operand(c),
        is_additive(plus.genre),
        is_multiplicative(times.genre),
        ends_expr(rest),
    ensures
        grammar::expr(wrap(seq![a, plus, b, times, c]) + rest) == Ok::<_, Failure>(
            (
                binary_node(
                    operand_node(a),
                    plus,
                    binary_node(operand_node(b), times, operand_node(c)),
                ),
                rest,
            ),
        ),
{
    let toks = seq![a, plus, b, times, c];
    let product = binary_node(operand_node(b), times, operand_node(c));
    let right = toks.skip(2);
    assert(right.take(1) =~= seq![b]);
    assert(right.skip(2) =~= seq![c]);
    assert(spells_factor(seq![b], operand_node(b)));
    assert(spells_term(right.take(1), operand_node(b)));
    assert(spells_factor(right.skip(2), operand_node(c)));
    assert(spells_term(right, product));
    assert(toks.take(1) =~= seq![a]);
    assert(spells_factor(seq![a], operand_node(a)));
    assert(spells_term(seq![a], operand_node(a)));
    assert(spells_expr(toks.take(1), operand_node(a)));
    assert(spells_expr(toks, binary_node(operand_node(a), plus, product)));
    lemma_whole_expr_read(toks, binary_node(operand_node(a), plus, product), rest);
}

/// Operators of one level associate to the left: in `a - b - c` the first
/// difference is the left operand of the second, and likewise for products.
pub proof fn lemma_operators_associate_left(
    a: TokenView,
    first: TokenView,
    b: TokenView,
    second: TokenView,
    c: TokenView,
    rest: Seq<Lexeme>,
)
    requires
        is_operand(a) && is_operand(b) && is_operand(c),
        (is_additive(first.genre) && is_additive(second.genre)) || (is_multiplicative(
            first.genre,
        ) && is_multiplicative(second.genre)),
        ends_expr(rest),
    ensures
        grammar::expr(wrap(seq![a, first, b, second, c]) + rest) == Ok::<_, Failure>(
            (
                binary_node(
                    binary_node(operand_node(a), first, operand_node(b)),
                    second,
                    operand_node(c),
                ),
                rest,
            ),
        ),
{
    let toks = seq![a, first, b, second, c];
    let left = toks.take(3);
    let inner = binary_node(operand_node(a), first, operand_node(b));
    let whole = binary_node(inner, second, operand_node(c));
    assert(left.take(1) =~= seq![a]);
    assert(left.skip(2) =~= seq![b]);
    assert(toks.skip(4) =~= seq![c]);
    assert(spells_factor(seq![a], operand_node(a)));
    assert(spells_factor(seq![b], operand_node(b)));
    assert(spells_factor(seq![c], operand_node(c)));
    assert(spells_term(seq![a], operand_node(a)));
    assert(spells_term(seq![b], operand_node(b)));
    assert(spells_term(seq![c], operand_node(c)));
    if is_additive(first.genre) {
        assert(spells_expr(left.take(1), operand_node(a)));
        assert(spells_expr(left, inner));
        assert(spells_expr(toks.take(3), inner));
        assert(spells_expr(toks, whole));
    } else {
        assert(spells_term(left.take(1), operand_node(a)));
        assert(spells_term(left, inner));
        assert(spells_term(toks.take(3), inner));
        assert(spells_term(toks, whole));
    }
    lemma_whole_expr_read(toks, whole, rest);
}

} // verus!
