//! The parser: recursive descent over the tokens of a lexer, with one token
//! of lookahead.

use vstd::prelude::*;
use crate::ast::{
    lemma_nodes_push, nodes, Assign, BinOp, Compound, NoOp, Node, Num, UnaryOp, Var, AST,
};
use crate::error::{Error, LexError, SyntaxError};
use crate::grammar;
use crate::lexer::{lexeme_of, Lexer};
use crate::lexical::{is_final, is_stream, Lexeme};
use crate::token::{Token, TokenType};

verus! {

/// Whether what a rule returned, and the stream it left, are what the
/// grammar yields: the tree and the stream behind it, or the error and the
/// stream in front of which it was found.
pub open spec fn agrees(
    r: Result<AST, Error>,
    left: Seq<Lexeme>,
    model: grammar::Parsed<Node>,
) -> bool {
    match model {
        Ok((node, rest)) => r matches Ok(tree) && tree@ == node && left == rest,
        Err(f) => r == Err::<AST, Error>(f.error) && left == f.left,
    }
}

/// A lexer and the token that was read from it last and not yet consumed.
pub struct Parser {
    lexer: Lexer,
    current_token: Result<Token, LexError>,
}

impl Parser {
    /// Whether the parser is in order: the lookahead is the token in front
    /// of those that the lexer still holds. Every parser that `new` returns
    /// is, and every method keeps it so.
    pub closed spec fn wf(&self) -> bool {
        &&& is_stream(self.lexer.pending())
        &&& (self.current_token matches Ok(t) && t.genre == TokenType::EOF)
            ==> self.lexer.pending() == seq![lexeme_of(self.current_token)]
    }

    /// The tokens that are not yet consumed: the lookahead, then what the
    /// lexer still holds.
    pub closed spec fn stream(&self) -> Seq<Lexeme> {
        if is_final(lexeme_of(self.current_token)) {
            seq![lexeme_of(self.current_token)]
        } else {
            seq![lexeme_of(self.current_token)] + self.lexer.pending()
        }
    }

    /// What a parser in order holds is a stream.
    pub proof fn lemma_wf_stream(&self)
        requires
            self.wf(),
        ensures
            is_stream(self.stream()),
    {
        self.lemma_stream();
    }

    /// What the parser holds is a stream that starts with the lookahead.
    proof fn lemma_stream(&self)
        requires
            self.wf(),
        ensures
            is_stream(self.stream()),
            self.stream()[0] == lexeme_of(self.current_token),
    {
        let s = self.stream();
        if !is_final(lexeme_of(self.current_token)) {
            let rest = self.lexer.pending();
            assert forall|i: int| 0 <= i < s.len() implies (is_final(#[trigger] s[i]) <==> i
                == s.len() - 1) by {
                if i > 0 {
                    assert(s[i] == rest[i - 1]);
                }
            }
        }
    }

    /// A parser on the tokens of `lexer`, with the first of them read.
    pub fn new(lexer: Lexer) -> (parser: Parser)
        ensures
            parser.wf(),
            parser.stream() == lexer.pending(),
            is_stream(parser.stream()),
    {
        let mut lexer = lexer;
        let ghost before = lexer.pending();
        let first = lexer.get_next_token();
        proof {
            if !is_final(lexeme_of(first)) {
                assert(seq![lexeme_of(first)] + before.drop_first() =~= before);
            }
        }
        let parser = Parser { lexer, current_token: first };
        proof {
            parser.lemma_stream();
        }
        parser
    }

    /// The kind of the lookahead, or the error that stands in its place.
    pub fn current_kind(&self) -> (r: Result<TokenType, Error>)
        requires
            self.wf(),
        ensures
            r == grammar::front_kind(self.stream()),
            is_stream(self.stream()),
    {
        proof {
            self.lemma_stream();
        }
        match &self.current_token {
            Ok(t) => Ok(t.genre),
            Err(e) => Err(Error::Lex(*e)),
        }
    }

    /// A copy of the lookahead, or the error that stands in its place.
    pub fn current_token(&self) -> (r: Result<Token, Error>)
        requires
            self.wf(),
        ensures
            match r {
                Ok(t) => self.stream()[0] == Ok::<_, LexError>(t@),
                Err(e) => self.stream()[0] matches Err(cause) && e == Error::Lex(cause),
            },
            is_stream(self.stream()),
    {
        proof {
            self.lemma_stream();
        }
        match &self.current_token {
            Ok(t) => Ok(t.clone()),
            Err(e) => Err(Error::Lex(*e)),
        }
    }

    /// Consumes the lookahead if it is of kind `token_type`, and reads the
    /// next token in its place. Otherwise nothing changes and the mismatch
    /// is reported.
    pub fn eat(&mut self, token_type: TokenType) -> (r: Result<(), Error>)
        requires
            old(self).wf(),
        ensures
            final(self).wf(),
            match grammar::eat(old(self).stream(), token_type) {
                Ok(rest) => r is Ok && final(self).stream() == rest,
                Err(f) => {
                    &&& r == Err::<(), Error>(f.error)
                    &&& final(self).stream() == old(self).stream()
                },
            },
            is_stream(final(self).stream()),
            is_stream(old(self).stream()),
    {
        proof {
            self.lemma_stream();
        }
        match self.current_kind() {
            Err(e) => Err(e),
            Ok(found) => {
                if found == token_type {
                    let ghost before = self.lexer.pending();
                    let next = self.lexer.get_next_token();
                    proof {
                        if !is_final(lexeme_of(next)) {
                            assert(seq![lexeme_of(next)] + before.drop_first() =~= before);
                        }
                        assert(old(self).stream().len() > 1 ==> old(self).stream().drop_first()
                            =~= before);
                    }
                    self.current_token = next;
                    proof {
                        self.lemma_stream();
                    }
                    Ok(())
                } else {
                    Err(Error::Syntax(SyntaxError { expected: token_type, found }))
                }
            },
        }
    }

    /// `variable := ID`
    pub fn variable(&mut self) -> (r: Result<AST, Error>)
        requires
            old(self).wf(),
        ensures
            final(self).wf(),
            agrees(r, final(self).stream(), grammar::variable(old(self).stream())),
            r is Ok ==> final(self).stream().len() < old(self).stream().len(),
    {
        let token = match self.current_token() {
            Ok(t) => t,
            Err(e) => { return Err(e); },
        };
        match self.eat(TokenType::ID) {
            Ok(()) => Ok(AST::VAR(Var::new(token))),
            Err(e) => Err(e),
        }
    }

    /// The empty statement. It takes no token.
    pub fn empty(&self) -> (r: Result<AST, Error>)
        ensures
            r matches Ok(tree) && tree@ == Node::NoOp,
    {
        Ok(AST::NOOP(NoOp::new()))
    }

    /// `factor := INTEGER | LPAREN expr RPAREN | (PLUS | MINUS) factor | variable`
    pub fn factor(&mut self) -> (r: Result<AST, Error>)
        requires
            old(self).wf(),
        ensures
            final(self).wf(),
            agrees(r, final(self).stream(), grammar::factor(old(self).stream())),
            r is Ok ==> final(self).stream().len() < old(self).stream().len(),
        decreases old(self).stream().len(), 0nat,
    {
        let token = match self.current_token() {
            Ok(t) => t,
            Err(e) => { return Err(e); },
        };
        let kind = token.genre;
        if kind == TokenType::INTEGER {
            match self.eat(TokenType::INTEGER) {
                Ok(()) => Ok(AST::NUM(Num::new(token))),
                Err(e) => Err(e),
            }
        } else if kind == TokenType::LPAREN {
            match self.eat(TokenType::LPAREN) {
                Ok(()) => {},
                Err(e) => { return Err(e); },
            }
            let node = match self.expr() {
                Ok(node) => node,
                Err(e) => { return Err(e); },
            };
            match self.eat(TokenType::RPAREN) {
                Ok(()) => Ok(node),
                Err(e) => Err(e),
            }
        } else if kind == TokenType::PLUS || kind == TokenType::MINUS {
            match self.eat(kind) {
                Ok(()) => {},
                Err(e) => { return Err(e); },
            }
            match self.factor() {
                Ok(operand) => Ok(AST::UNARYOP(UnaryOp::new(token, operand))),
                Err(e) => Err(e),
            }
        } else {
            self.variable()
        }
    }

    /// `term := factor ((MUL | DIV) factor)*`
    pub fn term(&mut self) -> (r: Result<AST, Error>)
        requires
            old(self).wf(),
        ensures
            final(self).wf(),
            agrees(r, final(self).stream(), grammar::term(old(self).stream())),
            r is Ok ==> final(self).stream().len() < old(self).stream().len(),
        decreases old(self).stream().len(), 2nat,
    {
        let mut node = match self.factor() {
            Ok(node) => node,
            Err(e) => { return Err(e); },
        };
        loop
            invariant
                self.wf(),
                self.stream().len() < old(self).stream().len(),
                grammar::term(old(self).stream()) == grammar::term_rest(node@, self.stream()),
            decreases self.stream().len(),
        {
            let token = match self.current_token() {
                Ok(t) => t,
                Err(e) => { return Err(e); },
            };
            let kind = token.genre;
            if kind == TokenType::MUL || kind == TokenType::DIV {
                match self.eat(kind) {
                    Ok(()) => {},
                    Err(e) => { return Err(e); },
                }
                let right = match self.factor() {
                    Ok(right) => right,
                    Err(e) => { return Err(e); },
                };
                node = AST::BINOP(BinOp::new(node, token, right));
            } else {
                return Ok(node);
            }
        }
    }

    /// `expr := term ((PLUS | MINUS) term)*`
    pub fn expr(&mut self) -> (r: Result<AST, Error>)
        requires
            old(self).wf(),
        ensures
            final(self).wf(),
            agrees(r, final(self).stream(), grammar::expr(old(self).stream())),
            r is Ok ==> final(self).stream().len() < old(self).stream().len(),
        decreases old(self).stream().len(), 4nat,
    {
        let mut node = match self.term() {
            Ok(node) => node,
            Err(e) => { return Err(e); },
        };
        loop
            invariant
                self.wf(),
                self.stream().len() < old(self).stream().len(),
                grammar::expr(old(self).stream()) == grammar::expr_rest(node@, self.stream()),
            decreases self.stream().len(),
        {
            let token = match self.current_token() {
                Ok(t) => t,
                Err(e) => { return Err(e); },
            };
            let kind = token.genre;
            if kind == TokenType::PLUS || kind == TokenType::MINUS {
                match self.eat(kind) {
                    Ok(()) => {},
                    Err(e) => { return Err(e); },
                }
                let right = match self.term() {
                    Ok(right) => right,
                    Err(e) => { return Err(e); },
                };
                node = AST::BINOP(BinOp::new(node, token, right));
            } else {
                return Ok(node);
            }
        }
    }

    /// `assignment := variable ASSIGN expr`
    pub fn assignment_statement(&mut self) -> (r: Result<AST, Error>)
        requires
            old(self).wf(),
        ensures
            final(self).wf(),
            agrees(r, final(self).stream(), grammar::assignment_statement(old(self).stream())),
            r is Ok ==> final(self).stream().len() < old(self).stream().len(),
    {
        let left = match self.variable() {
            Ok(left) => left,
            Err(e) => { return Err(e); },
        };
        let token = match self.current_token() {
            Ok(t) => t,
            Err(e) => { return Err(e); },
        };
        match self.eat(TokenType::ASSIGN) {
            Ok(()) => {},
            Err(e) => { return Err(e); },
        }
        match self.expr() {
            Ok(right) => Ok(AST::ASSIGN(Assign::new(left, token, right))),
            Err(e) => Err(e),
        }
    }

    /// `compound := BEGIN stmt_list END`
    pub fn compound_statement(&mut self) -> (r: Result<AST, Error>)
        requires
            old(self).wf(),
        ensures
            final(self).wf(),
            agrees(r, final(self).stream(), grammar::compound_statement(old(self).stream())),
            r is Ok ==> final(self).stream().len() < old(self).stream().len(),
        decreases old(self).stream().len(), 0nat,
    {
        match self.eat(TokenType::BEGIN) {
            Ok(()) => {},
            Err(e) => { return Err(e); },
        }
        let mut nodes = match self.statement_list() {
            Ok(nodes) => nodes,
            Err(e) => { return Err(e); },
        };
        match self.eat(TokenType::END) {
            Ok(()) => {},
            Err(e) => { return Err(e); },
        }
        let mut root = Compound::new();
        root.children.append(&mut nodes);
        Ok(AST::COMPOUND(root))
    }

    /// `statement := compound | assignment | empty`
    pub fn statement(&mut self) -> (r: Result<AST, Error>)
        requires
            old(self).wf(),
        ensures
            final(self).wf(),
            agrees(r, final(self).stream(), grammar::statement(old(self).stream())),
            r is Ok ==> final(self).stream().len() <= old(self).stream().len(),
        decreases old(self).stream().len(), 1nat,
    {
        let kind = match self.current_kind() {
            Ok(kind) => kind,
            Err(e) => { return Err(e); },
        };
        if kind == TokenType::BEGIN {
            self.compound_statement()
        } else if kind == TokenType::ID {
            self.assignment_statement()
        } else {
            self.empty()
        }
    }

    /// `stmt_list := statement (SEMI statement)*`. An `ID` behind the last
    /// statement is a syntax error: a `SEMI` is missing in front of it.
    pub fn statement_list(&mut self) -> (r: Result<Vec<AST>, Error>)
        requires
            old(self).wf(),
        ensures
            final(self).wf(),
            match grammar::statement_list(old(self).stream()) {
                Ok((children, rest)) => {
                    &&& r matches Ok(trees) && nodes(trees@) == children
                    &&& final(self).stream() == rest
                },
                Err(f) => r == Err::<Vec<AST>, Error>(f.error) && final(self).stream() == f.left,
            },
            r is Ok ==> final(self).stream().len() <= old(self).stream().len(),
        decreases old(self).stream().len(), 3nat,
    {
        let first = match self.statement() {
            Ok(first) => first,
            Err(e) => { return Err(e); },
        };
        let mut results: Vec<AST> = Vec::new();
        proof {
            lemma_nodes_push(results@, first);
            assert(nodes(results@).push(first@) =~= seq![first@]);
        }
        results.push(first);
        loop
            invariant
                self.wf(),
                self.stream().len() <= old(self).stream().len(),
                grammar::statement_list(old(self).stream()) == grammar::statement_list_rest(
                    nodes(results@),
                    self.stream(),
                ),
            decreases self.stream().len(),
        {
            let kind = match self.current_kind() {
                Ok(kind) => kind,
                Err(e) => { return Err(e); },
            };
            if kind == TokenType::SEMI {
                match self.eat(TokenType::SEMI) {
                    Ok(()) => {},
                    Err(e) => { return Err(e); },
                }
                let next = match self.statement() {
                    Ok(next) => next,
                    Err(e) => { return Err(e); },
                };
                proof {
                    lemma_nodes_push(results@, next);
                }
                results.push(next);
            } else if kind == TokenType::ID {
                return Err(Error::Syntax(SyntaxError { expected: TokenType::SEMI, found: kind }));
            } else {
                return Ok(results);
            }
        }
    }

    /// `program := compound DOT`
    pub fn program(&mut self) -> (r: Result<AST, Error>)
        requires
            old(self).wf(),
        ensures
            final(self).wf(),
            agrees(r, final(self).stream(), grammar::program(old(self).stream())),
    {
        let node = match self.compound_statement() {
            Ok(node) => node,
            Err(e) => { return Err(e); },
        };
        match self.eat(TokenType::DOT) {
            Ok(()) => Ok(node),
            Err(e) => Err(e),
        }
    }

    /// Parses the whole stream: a program, and behind it nothing but `EOF`,
    /// at which the parser then stands.
    pub fn parse(&mut self) -> (r: Result<AST, Error>)
        requires
            old(self).wf(),
        ensures
            final(self).wf(),
            match grammar::parse(old(self).stream()) {
                Ok(node) => {
                    &&& r matches Ok(tree) && tree@ == node
                    &&& final(self).stream().len() == 1
                    &&& grammar::front_kind(final(self).stream()) == Ok::<_, Error>(
                        TokenType::EOF,
                    )
                },
                Err(f) => r == Err::<AST, Error>(f.error) && final(self).stream() == f.left,
            },
    {
        let node = match self.program() {
            Ok(node) => node,
            Err(e) => { return Err(e); },
        };
        match self.eat(TokenType::EOF) {
            Ok(()) => Ok(node),
            Err(e) => Err(e),
        }
    }
}

} // verus!
