use pascal_interpreter::ast::{Assign, BinOp, Compound, NoOp, Num, UnaryOp, Var, AST};
use pascal_interpreter::error::{Error, EvalError, LexError, SyntaxError};
use pascal_interpreter::interpreter::{run_program, Interpreter};
use pascal_interpreter::lexer::Lexer;
use pascal_interpreter::parser::Parser;
use pascal_interpreter::token::{Token, TokenType, Value};

fn interpreter_for(text: &str) -> Interpreter {
    Interpreter::new(Parser::new(Lexer::new(text)))
}

fn evaluate(text: &str) -> Result<i32, Error> {
    interpreter_for(text).expr()
}

#[test]
fn multiplication_binds_tighter_than_addition() {
    assert_eq!(evaluate("2 + 3 * 4"), Ok(14));
    assert_ne!(evaluate("2 + 3 * 4"), Ok(20));
}

#[test]
fn parentheses_override_precedence() {
    assert_eq!(evaluate("(2 + 3) * 4"), Ok(20));
}

#[test]
fn subtraction_associates_to_the_left() {
    assert_eq!(evaluate("10 - 2 - 3"), Ok(5));
}

#[test]
fn division_associates_to_the_left() {
    assert_eq!(evaluate("20 / 2 / 2"), Ok(5));
}

#[test]
fn unary_minus_chains() {
    assert_eq!(evaluate("- -5"), Ok(5));
    assert_eq!(evaluate("-(3+2)"), Ok(-5));
    assert_eq!(evaluate("+-+3"), Ok(-3));
}

#[test]
fn division_by_zero_is_an_eval_error() {
    assert_eq!(evaluate("4 / 0"), Err(Error::Eval(EvalError::DivisionByZero)));
}

#[test]
fn division_rounds_towards_zero() {
    assert_eq!(evaluate("7 / 2"), Ok(3));
    assert_eq!(evaluate("-7 / 2"), Ok(-3));
    assert_eq!(evaluate("7 / -2"), Ok(-3));
    assert_eq!(evaluate("-7 / -2"), Ok(3));
}

#[test]
fn overflow_is_an_eval_error() {
    assert_eq!(evaluate("2147483647 + 1"), Err(Error::Eval(EvalError::Overflow)));
    assert_eq!(evaluate("-2147483647 - 2"), Err(Error::Eval(EvalError::Overflow)));
    assert_eq!(evaluate("65536 * 65536"), Err(Error::Eval(EvalError::Overflow)));
    assert_eq!(evaluate("(-2147483647 - 1) / -1"), Err(Error::Eval(EvalError::Overflow)));
    assert_eq!(evaluate("-(-2147483647 - 1)"), Err(Error::Eval(EvalError::Overflow)));
    assert_eq!(evaluate("2147483647 + 0"), Ok(2147483647));
    assert_eq!(evaluate("-2147483647 - 1"), Ok(-2147483648));
}

#[test]
fn assignment_of_a_literal_binds_the_variable() {
    let mut interpreter = interpreter_for("BEGIN v := 42; END.");
    assert_eq!(interpreter.interpret(), Ok(0));
    assert_eq!(interpreter.lookup("v"), Some(42));
    assert_eq!(interpreter.lookup("w"), None);
}

#[test]
fn undefined_variable_is_an_eval_error() {
    let mut interpreter = interpreter_for("BEGIN x := y END.");
    assert_eq!(interpreter.interpret(), Err(Error::Eval(EvalError::UndefinedVariable)));
    assert_eq!(interpreter.lookup("x"), None);
}

#[test]
fn statements_run_in_order() {
    let mut interpreter = interpreter_for("BEGIN a := 1; b := a + 1; a := b + 1 END.");
    assert_eq!(interpreter.interpret(), Ok(0));
    assert_eq!(interpreter.lookup("a"), Some(3));
    assert_eq!(interpreter.lookup("b"), Some(2));
}

#[test]
fn missing_semicolon_is_a_syntax_error() {
    let mut interpreter = interpreter_for("BEGIN a := 1 b := 2 END.");
    assert_eq!(
        interpreter.interpret(),
        Err(Error::Syntax(SyntaxError { expected: TokenType::SEMI, found: TokenType::ID }))
    );
    assert_eq!(interpreter.lookup("a"), None);
}

#[test]
fn missing_dot_is_a_syntax_error() {
    let mut interpreter = interpreter_for("BEGIN a := 1; END");
    assert_eq!(
        interpreter.interpret(),
        Err(Error::Syntax(SyntaxError { expected: TokenType::DOT, found: TokenType::EOF }))
    );
}

#[test]
fn lone_colon_is_a_lex_error() {
    let mut interpreter = interpreter_for("BEGIN a : 1 END.");
    assert_eq!(interpreter.interpret(), Err(Error::Lex(LexError::LoneColon)));
}

#[test]
fn unrecognized_character_is_a_lex_error() {
    let mut interpreter = interpreter_for("BEGIN a := 1 $ 2 END.");
    assert_eq!(interpreter.interpret(), Err(Error::Lex(LexError::UnrecognizedChar('$'))));
}

#[test]
fn same_text_gives_the_same_outcome() {
    let text = "BEGIN BEGIN n := 2; a := n * 3 END; x := -a / 4; END.";
    let first = Parser::new(Lexer::new(text)).parse();
    let second = Parser::new(Lexer::new(text)).parse();
    assert!(first.is_ok());
    assert_eq!(first, second);
    let mut one = interpreter_for(text);
    let mut two = interpreter_for(text);
    assert_eq!(one.interpret(), two.interpret());
    assert_eq!(one.lookup("n"), Some(2));
    assert_eq!(one.lookup("a"), Some(6));
    assert_eq!(one.lookup("x"), Some(-1));
    assert_eq!(one.lookup("x"), two.lookup("x"));
}

#[test]
fn token_kinds_have_names() {
    assert_eq!(TokenType::INTEGER.name(), "INTEGER");
    assert_eq!(TokenType::EOF.name(), "EOF");
    assert_eq!(TokenType::DIV.name(), "DIV");
    assert_eq!(TokenType::MUL.name(), "MUL");
    assert_eq!(TokenType::PLUS.name(), "PLUS");
    assert_eq!(TokenType::MINUS.name(), "MINUS");
    assert_eq!(TokenType::LPAREN.name(), "(");
    assert_eq!(TokenType::RPAREN.name(), ")");
    assert_eq!(TokenType::ID.name(), "ID");
    assert_eq!(TokenType::ASSIGN.name(), ":=");
    assert_eq!(TokenType::BEGIN.name(), "BEGIN");
    assert_eq!(TokenType::END.name(), "END");
    assert_eq!(TokenType::SEMI.name(), ";");
    assert_eq!(TokenType::DOT.name(), ".");
}

#[test]
fn expression_leaves_what_is_behind_it() {
    let mut interpreter = interpreter_for("1 + 2 ) 3");
    assert_eq!(interpreter.expr(), Ok(3));
    assert_eq!(interpreter.expr(), Err(Error::Syntax(SyntaxError {
        expected: TokenType::ID,
        found: TokenType::RPAREN,
    })));
}

#[test]
fn expression_reads_variables_bound_before() {
    let mut interpreter = interpreter_for("BEGIN a := 6; b := 7 END. a * b - 2");
    let tree = {
        let mut parser = Parser::new(Lexer::new("BEGIN a := 6; b := 7 END"));
        parser.compound_statement()
    };
    assert_eq!(interpreter.visit(&tree.unwrap()), Ok(0));
    assert_eq!(interpreter.symbols().len(), 2);
    assert_eq!(interpreter.symbols().get("b"), Some(7));
    let product = Parser::new(Lexer::new("a * b - 2")).expr().unwrap();
    assert_eq!(interpreter.visit(&product), Ok(40));
    assert_eq!(interpreter.lookup("a"), Some(6));
}

#[test]
fn operands_are_evaluated_from_left_to_right() {
    assert_eq!(
        evaluate("(1 / 0) + missing"),
        Err(Error::Eval(EvalError::DivisionByZero))
    );
    assert_eq!(
        evaluate("missing + (1 / 0)"),
        Err(Error::Eval(EvalError::UndefinedVariable))
    );
    assert_eq!(
        evaluate("(2147483647 + 1) * (1 / 0)"),
        Err(Error::Eval(EvalError::Overflow))
    );
}

#[test]
fn empty_program_binds_nothing() {
    let mut interpreter = interpreter_for("BEGIN END.");
    assert_eq!(interpreter.interpret(), Ok(0));
    assert_eq!(interpreter.symbols().len(), 0);
}

#[test]
fn nested_blocks_share_the_variables() {
    let text = "BEGIN BEGIN number := 2; a := number; b := 10 * a + 10 * number / 4; \
                c := a - - b END; x := 11; END.";
    let mut interpreter = interpreter_for(text);
    assert_eq!(interpreter.interpret(), Ok(0));
    assert_eq!(interpreter.lookup("number"), Some(2));
    assert_eq!(interpreter.lookup("a"), Some(2));
    assert_eq!(interpreter.lookup("b"), Some(25));
    assert_eq!(interpreter.lookup("c"), Some(27));
    assert_eq!(interpreter.lookup("x"), Some(11));
}

#[test]
fn trees_out_of_order_are_reported() {
    let int = |n: i32| Token { genre: TokenType::INTEGER, value: Some(Value::INT(n)) };
    let semi = || Token { genre: TokenType::SEMI, value: Some(Value::CHAR(';')) };
    let name = |s: &str| Token {
        genre: TokenType::ID,
        value: Some(Value::STRING(String::from(s))),
    };
    let mut interpreter = interpreter_for("");
    let bad_number = Num::new(semi());
    assert_eq!(interpreter.visit_num(&bad_number), Err(EvalError::NotNumeric));
    assert_eq!(interpreter.visit_num(&Num::new(int(5))), Ok(5));
    let bad_binary = BinOp::new(AST::NUM(Num::new(int(1))), semi(), AST::NUM(Num::new(int(2))));
    assert_eq!(interpreter.visit_binop(&bad_binary), Err(EvalError::InvalidOperator));
    let bad_unary = UnaryOp::new(semi(), AST::NUM(Num::new(int(1))));
    assert_eq!(interpreter.visit_unaryop(&bad_unary), Err(EvalError::InvalidOperator));
    let bad_variable = Var::new(int(1));
    assert_eq!(interpreter.visit_var(&bad_variable), Err(EvalError::InvalidName));
    assert_eq!(interpreter.visit_var(&Var::new(name("q"))), Err(EvalError::UndefinedVariable));
    let bad_target = Assign::new(AST::NUM(Num::new(int(1))), semi(), AST::NUM(Num::new(int(2))));
    assert_eq!(interpreter.visit_assign(&bad_target), Err(EvalError::InvalidName));
    let good = Assign::new(AST::VAR(Var::new(name("q"))), semi(), AST::NUM(Num::new(int(2))));
    assert_eq!(interpreter.visit_assign(&good), Ok(0));
    assert_eq!(interpreter.visit_var(&Var::new(name("q"))), Ok(2));
    assert_eq!(interpreter.visit_noop(&NoOp::new()), Ok(0));
    let mut block = Compound::new();
    block.children.push(AST::ASSIGN(Assign::new(
        AST::VAR(Var::new(name("r"))),
        semi(),
        AST::VAR(Var::new(name("q"))),
    )));
    block.children.push(AST::NUM(Num::new(semi())));
    block.children.push(AST::NOOP(NoOp::new()));
    assert_eq!(interpreter.visit_compound(&block), Err(EvalError::NotNumeric));
    assert_eq!(interpreter.lookup("r"), Some(2));
}

#[test]
fn term_and_factor_evaluate_what_they_read() {
    let mut interpreter = interpreter_for("2 * 3 + 4");
    assert_eq!(interpreter.term(), Ok(6));
    assert_eq!(interpreter.factor(), Ok(4));
    let mut interpreter = interpreter_for("-(1 + 2) * 5");
    assert_eq!(interpreter.factor(), Ok(-3));
    assert_eq!(interpreter.term(), Err(Error::Syntax(SyntaxError {
        expected: TokenType::ID,
        found: TokenType::MUL,
    })));
    assert_eq!(
        interpreter_for("8 / (4 - 4)").term(),
        Err(Error::Eval(EvalError::DivisionByZero))
    );
}

#[test]
fn a_program_evaluates_to_the_unit_value() {
    assert_eq!(interpreter_for("BEGIN a := 7 * 6 END.").interpret(), Ok(0));
    assert_eq!(interpreter_for("BEGIN BEGIN END END.").interpret(), Ok(0));
}

#[test]
fn assignment_of_a_literal_binds_exactly_that_integer() {
    for (text, value) in [
        ("BEGIN v := 0; END.", 0),
        ("BEGIN v := -7; END.", -7),
        ("BEGIN v := 2147483647; END.", i32::MAX),
        ("BEGIN v := -2147483647; END.", -i32::MAX),
        ("BEGIN v := 007; END.", 7),
    ] {
        let (table, result) = run_program(text);
        assert_eq!(result, Ok(0), "{}", text);
        assert_eq!(table.len(), 1, "{}", text);
        assert_eq!(table.entry(0), (String::from("v"), value), "{}", text);
    }
    let (table, result) = run_program("BEGIN v := 2147483648; END.");
    assert_eq!(result, Err(Error::Lex(LexError::IntegerOverflow)));
    assert_eq!(table.len(), 0);
    let (table, result) = run_program("BEGIN END := 1; END.");
    assert_eq!(
        result,
        Err(Error::Syntax(SyntaxError { expected: TokenType::DOT, found: TokenType::ASSIGN }))
    );
    assert_eq!(table.len(), 0);
}
