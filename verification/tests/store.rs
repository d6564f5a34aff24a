use pascal_interpreter::error::{Error, EvalError};
use pascal_interpreter::interpreter::{
    binary, parse_value, run_program, run_program_with, token_name, unary, Interpreter,
};
use pascal_interpreter::lexer::Lexer;
use pascal_interpreter::parser::Parser;
use pascal_interpreter::store::SymbolTable;
use pascal_interpreter::token::{Token, TokenType, Value};

#[test]
fn new_table_is_empty() {
    let table = SymbolTable::new();
    assert_eq!(table.len(), 0);
    assert_eq!(table.get("a"), None);
}

#[test]
fn set_binds_and_overwrites() {
    let mut table = SymbolTable::new();
    table.set(String::from("a"), 1);
    table.set(String::from("b"), 2);
    table.set(String::from("a"), 3);
    assert_eq!(table.len(), 2);
    assert_eq!(table.get("a"), Some(3));
    assert_eq!(table.get("b"), Some(2));
    assert_eq!(table.get("c"), None);
    assert_eq!(table.entry(0), (String::from("a"), 3));
    assert_eq!(table.entry(1), (String::from("b"), 2));
}

#[test]
fn names_are_case_sensitive() {
    let mut table = SymbolTable::new();
    table.set(String::from("x"), 1);
    table.set(String::from("X"), 2);
    assert_eq!(table.len(), 2);
    assert_eq!(table.get("x"), Some(1));
    assert_eq!(table.get("X"), Some(2));
}

#[test]
fn run_program_returns_the_variables() {
    let (table, result) = run_program("BEGIN a := 1; b := a + 1; a := b + 1 END.");
    assert_eq!(result, Ok(0));
    assert_eq!(table.len(), 2);
    assert_eq!(table.entry(0), (String::from("a"), 3));
    assert_eq!(table.entry(1), (String::from("b"), 2));
}

#[test]
fn run_program_keeps_what_was_bound_before_an_error() {
    let (table, result) = run_program("BEGIN a := 1; b := a / 0; c := 3 END.");
    assert_eq!(result, Err(Error::Eval(EvalError::DivisionByZero)));
    assert_eq!(table.len(), 1);
    assert_eq!(table.get("a"), Some(1));
    assert_eq!(table.get("b"), None);
    assert_eq!(table.get("c"), None);
}

#[test]
fn run_program_binds_nothing_when_the_text_does_not_parse() {
    let (table, result) = run_program("BEGIN a := 1; b := 2 END");
    assert!(matches!(result, Err(Error::Syntax(_))));
    assert_eq!(table.len(), 0);
}

#[test]
fn run_program_with_starts_from_the_variables_given() {
    let (table, result) = run_program("BEGIN a := 5 END.");
    assert_eq!(result, Ok(0));
    let (table, result) = run_program_with("BEGIN b := a * 2; a := a + 1 END.", table);
    assert_eq!(result, Ok(0));
    assert_eq!(table.len(), 2);
    assert_eq!(table.get("a"), Some(6));
    assert_eq!(table.get("b"), Some(10));
    let (table, result) = run_program_with("BEGIN c := 1; d := e END.", table);
    assert_eq!(result, Err(Error::Eval(EvalError::UndefinedVariable)));
    assert_eq!(table.len(), 3);
    assert_eq!(table.get("c"), Some(1));
    let (table, result) = run_program_with("BEGIN a := ", table);
    assert!(matches!(result, Err(Error::Syntax(_))));
    assert_eq!(table.len(), 3);
    assert_eq!(table.get("a"), Some(6));
}

#[test]
fn interpreter_takes_and_returns_its_variables() {
    let mut table = SymbolTable::new();
    table.set(String::from("x"), 4);
    let parser = Parser::new(Lexer::new("x * x"));
    let mut interpreter = Interpreter::with_store(parser, table);
    assert_eq!(interpreter.expr(), Ok(16));
    let table = interpreter.into_store();
    assert_eq!(table.len(), 1);
    assert_eq!(table.get("x"), Some(4));
}

#[test]
fn binary_operators() {
    assert_eq!(binary(TokenType::PLUS, 2, 3), Ok(5));
    assert_eq!(binary(TokenType::MINUS, 2, 3), Ok(-1));
    assert_eq!(binary(TokenType::MUL, -2, 3), Ok(-6));
    assert_eq!(binary(TokenType::DIV, 7, 2), Ok(3));
    assert_eq!(binary(TokenType::DIV, -7, 2), Ok(-3));
    assert_eq!(binary(TokenType::DIV, 7, 0), Err(EvalError::DivisionByZero));
    assert_eq!(binary(TokenType::DIV, 0, 0), Err(EvalError::DivisionByZero));
    assert_eq!(binary(TokenType::DIV, i32::MIN, -1), Err(EvalError::Overflow));
    assert_eq!(binary(TokenType::PLUS, i32::MAX, 1), Err(EvalError::Overflow));
    assert_eq!(binary(TokenType::MINUS, i32::MIN, 1), Err(EvalError::Overflow));
    assert_eq!(binary(TokenType::MUL, i32::MAX, 2), Err(EvalError::Overflow));
    assert_eq!(binary(TokenType::SEMI, 1, 2), Err(EvalError::InvalidOperator));
    assert_eq!(binary(TokenType::EOF, 1, 0), Err(EvalError::InvalidOperator));
}

#[test]
fn unary_operators() {
    assert_eq!(unary(TokenType::PLUS, 5), Ok(5));
    assert_eq!(unary(TokenType::MINUS, 5), Ok(-5));
    assert_eq!(unary(TokenType::MINUS, i32::MAX), Ok(i32::MIN + 1));
    assert_eq!(unary(TokenType::MINUS, i32::MIN), Err(EvalError::Overflow));
    assert_eq!(unary(TokenType::PLUS, i32::MIN), Ok(i32::MIN));
    assert_eq!(unary(TokenType::MUL, 5), Err(EvalError::InvalidOperator));
}

#[test]
fn payloads_are_read_by_their_type() {
    assert_eq!(parse_value(&Value::INT(7)), Ok(7));
    assert_eq!(parse_value(&Value::INT(-7)), Ok(-7));
    assert_eq!(parse_value(&Value::CHAR('7')), Err(EvalError::NotNumeric));
    assert_eq!(parse_value(&Value::STRING(String::from("7"))), Err(EvalError::NotNumeric));
    let named = Token { genre: TokenType::ID, value: Some(Value::STRING(String::from("n"))) };
    assert_eq!(token_name(&named), Ok(String::from("n")));
    let number = Token { genre: TokenType::ID, value: Some(Value::INT(1)) };
    assert_eq!(token_name(&number), Err(EvalError::InvalidName));
    let bare = Token { genre: TokenType::ID, value: None };
    assert_eq!(token_name(&bare), Err(EvalError::InvalidName));
}
