use pascal_interpreter::ast::{Assign, BinOp, Compound, NoOp, Num, UnaryOp, Var, AST};
use pascal_interpreter::error::{Error, LexError, SyntaxError};
use pascal_interpreter::lexer::Lexer;
use pascal_interpreter::parser::Parser;
use pascal_interpreter::token::{Token, TokenType, Value};

fn parser_for(text: &str) -> Parser {
    Parser::new(Lexer::new(text))
}

fn num(n: i32) -> AST {
    AST::NUM(Num::new(Token { genre: TokenType::INTEGER, value: Some(Value::INT(n)) }))
}

fn var(name: &str) -> AST {
    AST::VAR(Var::new(Token {
        genre: TokenType::ID,
        value: Some(Value::STRING(String::from(name))),
    }))
}

fn sign(genre: TokenType, c: char) -> Token {
    Token { genre, value: Some(Value::CHAR(c)) }
}

fn bin(left: AST, genre: TokenType, c: char, right: AST) -> AST {
    AST::BINOP(BinOp::new(left, sign(genre, c), right))
}

fn neg(operand: AST) -> AST {
    AST::UNARYOP(UnaryOp::new(sign(TokenType::MINUS, '-'), operand))
}

fn assign(name: &str, right: AST) -> AST {
    let op = Token { genre: TokenType::ASSIGN, value: Some(Value::STRING(String::from(":="))) };
    AST::ASSIGN(Assign::new(var(name), op, right))
}

fn block(children: Vec<AST>) -> AST {
    let mut node = Compound::new();
    node.children = children;
    AST::COMPOUND(node)
}

fn noop() -> AST {
    AST::NOOP(NoOp::new())
}

fn syntax(expected: TokenType, found: TokenType) -> Error {
    Error::Syntax(SyntaxError { expected, found })
}

#[test]
fn constructors_keep_their_arguments() {
    let node = BinOp::new(num(1), sign(TokenType::PLUS, '+'), num(2));
    assert_eq!(*node.left, num(1));
    assert_eq!(node.op, sign(TokenType::PLUS, '+'));
    assert_eq!(*node.right, num(2));
    let node = UnaryOp::new(sign(TokenType::MINUS, '-'), num(3));
    assert_eq!(node.op, sign(TokenType::MINUS, '-'));
    assert_eq!(*node.expr, num(3));
    assert_eq!(Compound::new().children.len(), 0);
    let node = Var::new(sign(TokenType::PLUS, '+'));
    assert_eq!(node.token, sign(TokenType::PLUS, '+'));
    assert_eq!(NoOp::new(), NoOp {});
}

#[test]
fn product_is_the_right_operand_of_the_sum() {
    assert_eq!(
        parser_for("2 + 3 * 4").expr(),
        Ok(bin(num(2), TokenType::PLUS, '+', bin(num(3), TokenType::MUL, '*', num(4))))
    );
}

#[test]
fn parenthesized_sum_is_the_left_operand_of_the_product() {
    assert_eq!(
        parser_for("(2 + 3) * 4").expr(),
        Ok(bin(bin(num(2), TokenType::PLUS, '+', num(3)), TokenType::MUL, '*', num(4)))
    );
}

#[test]
fn operators_of_one_level_nest_to_the_left() {
    assert_eq!(
        parser_for("10 - 2 - 3").expr(),
        Ok(bin(bin(num(10), TokenType::MINUS, '-', num(2)), TokenType::MINUS, '-', num(3)))
    );
    assert_eq!(
        parser_for("20 / 2 / 2").term(),
        Ok(bin(bin(num(20), TokenType::DIV, '/', num(2)), TokenType::DIV, '/', num(2)))
    );
}

#[test]
fn unary_operators_nest_to_the_right() {
    assert_eq!(parser_for("- -5").factor(), Ok(neg(neg(num(5)))));
    assert_eq!(
        parser_for("-(3+2)").expr(),
        Ok(neg(bin(num(3), TokenType::PLUS, '+', num(2))))
    );
    assert_eq!(
        parser_for("-a * b").expr(),
        Ok(bin(neg(var("a")), TokenType::MUL, '*', var("b")))
    );
}

#[test]
fn term_stops_in_front_of_a_sum() {
    let mut parser = parser_for("2 * 3 + 4");
    assert_eq!(parser.term(), Ok(bin(num(2), TokenType::MUL, '*', num(3))));
    assert_eq!(parser.current_kind(), Ok(TokenType::PLUS));
    assert_eq!(parser.current_token(), Ok(sign(TokenType::PLUS, '+')));
}

#[test]
fn eat_checks_and_advances() {
    let mut parser = parser_for("( 7");
    assert_eq!(parser.current_kind(), Ok(TokenType::LPAREN));
    assert_eq!(parser.eat(TokenType::RPAREN), Err(syntax(TokenType::RPAREN, TokenType::LPAREN)));
    assert_eq!(parser.current_kind(), Ok(TokenType::LPAREN));
    assert_eq!(parser.eat(TokenType::LPAREN), Ok(()));
    assert_eq!(parser.current_kind(), Ok(TokenType::INTEGER));
    assert_eq!(parser.eat(TokenType::INTEGER), Ok(()));
    assert_eq!(parser.current_kind(), Ok(TokenType::EOF));
    assert_eq!(parser.eat(TokenType::EOF), Ok(()));
    assert_eq!(parser.current_kind(), Ok(TokenType::EOF));
}

#[test]
fn eat_reports_the_lex_error_in_front() {
    let mut parser = parser_for("1 ?");
    assert_eq!(parser.eat(TokenType::INTEGER), Ok(()));
    assert_eq!(parser.current_kind(), Err(Error::Lex(LexError::UnrecognizedChar('?'))));
    assert_eq!(parser.current_token(), Err(Error::Lex(LexError::UnrecognizedChar('?'))));
    assert_eq!(parser.eat(TokenType::PLUS), Err(Error::Lex(LexError::UnrecognizedChar('?'))));
    assert_eq!(parser_for("?").factor(), Err(Error::Lex(LexError::UnrecognizedChar('?'))));
    assert_eq!(parser_for("99999999999").expr(), Err(Error::Lex(LexError::IntegerOverflow)));
}

#[test]
fn missing_operand_is_a_syntax_error() {
    assert_eq!(parser_for("2 +").expr(), Err(syntax(TokenType::ID, TokenType::EOF)));
    assert_eq!(parser_for("* 2").expr(), Err(syntax(TokenType::ID, TokenType::MUL)));
    assert_eq!(parser_for("").expr(), Err(syntax(TokenType::ID, TokenType::EOF)));
    assert_eq!(parser_for("(1 + 2").expr(), Err(syntax(TokenType::RPAREN, TokenType::EOF)));
    assert_eq!(parser_for("()").factor(), Err(syntax(TokenType::ID, TokenType::RPAREN)));
}

#[test]
fn assignment_program_is_a_block_of_two_statements() {
    assert_eq!(
        parser_for("BEGIN v := 42; END.").parse(),
        Ok(block(vec![assign("v", num(42)), noop()]))
    );
}

#[test]
fn empty_block_holds_one_empty_statement() {
    assert_eq!(parser_for("BEGIN END.").parse(), Ok(block(vec![noop()])));
    assert_eq!(parser_for("BEGIN ; ; END.").parse(), Ok(block(vec![noop(), noop(), noop()])));
}

#[test]
fn blocks_nest() {
    assert_eq!(
        parser_for("BEGIN BEGIN a := 1 END; b := a END.").parse(),
        Ok(block(vec![block(vec![assign("a", num(1))]), assign("b", var("a"))]))
    );
}

#[test]
fn statement_chooses_by_the_token_in_front() {
    assert_eq!(parser_for("x := 1").statement(), Ok(assign("x", num(1))));
    assert_eq!(parser_for("BEGIN END").statement(), Ok(block(vec![noop()])));
    assert_eq!(parser_for("END").statement(), Ok(noop()));
    assert_eq!(parser_for("").statement(), Ok(noop()));
    assert_eq!(parser_for("5").statement(), Ok(noop()));
    assert_eq!(parser_for("x := 1").assignment_statement(), Ok(assign("x", num(1))));
    assert_eq!(parser_for("x").variable(), Ok(var("x")));
    assert_eq!(parser_for("7").variable(), Err(syntax(TokenType::ID, TokenType::INTEGER)));
    assert_eq!(parser_for("x").empty(), Ok(noop()));
}

#[test]
fn statement_list_reads_statements_between_semicolons() {
    assert_eq!(
        parser_for("a := 1; b := 2 END").statement_list(),
        Ok(vec![assign("a", num(1)), assign("b", num(2))])
    );
    assert_eq!(
        parser_for("a := 1 b := 2").statement_list(),
        Err(syntax(TokenType::SEMI, TokenType::ID))
    );
    assert_eq!(
        parser_for("BEGIN a := 1 END .").compound_statement(),
        Ok(block(vec![assign("a", num(1))]))
    );
    assert_eq!(
        parser_for("BEGIN a := 1 END .").program(),
        Ok(block(vec![assign("a", num(1))]))
    );
}

#[test]
fn grammar_violations_are_syntax_errors() {
    assert_eq!(
        parser_for("BEGIN a := 1 b := 2 END.").parse(),
        Err(syntax(TokenType::SEMI, TokenType::ID))
    );
    assert_eq!(
        parser_for("BEGIN a := 1; END").parse(),
        Err(syntax(TokenType::DOT, TokenType::EOF))
    );
    assert_eq!(parser_for("a := 1.").parse(), Err(syntax(TokenType::BEGIN, TokenType::ID)));
    assert_eq!(parser_for("").parse(), Err(syntax(TokenType::BEGIN, TokenType::EOF)));
    assert_eq!(
        parser_for("BEGIN a := 1;").parse(),
        Err(syntax(TokenType::END, TokenType::EOF))
    );
    assert_eq!(
        parser_for("BEGIN a 1 END.").parse(),
        Err(syntax(TokenType::ASSIGN, TokenType::INTEGER))
    );
    assert_eq!(
        parser_for("BEGIN a := (1 END.").parse(),
        Err(syntax(TokenType::RPAREN, TokenType::END))
    );
    assert_eq!(
        parser_for("BEGIN a := 1 END. b").parse(),
        Err(syntax(TokenType::EOF, TokenType::ID))
    );
    assert_eq!(
        parser_for("BEGIN 5 END.").parse(),
        Err(syntax(TokenType::END, TokenType::INTEGER))
    );
}

#[test]
fn parser_stops_in_front_of_the_token_that_does_not_fit() {
    let mut parser = parser_for("BEGIN a := 1 b := 2 END.");
    assert_eq!(parser.parse(), Err(syntax(TokenType::SEMI, TokenType::ID)));
    assert_eq!(parser.current_token(), Ok(Token {
        genre: TokenType::ID,
        value: Some(Value::STRING(String::from("b"))),
    }));
    let mut parser = parser_for("(1 + 2 ; 3");
    assert_eq!(parser.factor(), Err(syntax(TokenType::RPAREN, TokenType::SEMI)));
    assert_eq!(parser.current_kind(), Ok(TokenType::SEMI));
    let mut parser = parser_for("BEGIN a := 1 END.");
    assert!(parser.parse().is_ok());
    assert_eq!(parser.current_kind(), Ok(TokenType::EOF));
}

#[test]
fn syntax_error_in_front_of_a_lex_error_comes_first() {
    assert_eq!(
        parser_for("BEGIN 5 ? END.").parse(),
        Err(syntax(TokenType::END, TokenType::INTEGER))
    );
    assert_eq!(
        parser_for("BEGIN a := 5 ? END.").parse(),
        Err(Error::Lex(LexError::UnrecognizedChar('?')))
    );
}
