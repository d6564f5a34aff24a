//! Tokens: the smallest lexical units, each with a kind and an optional payload.

use vstd::prelude::*;

verus! {

/// The kind of a token.
#[derive(Clone, Copy, Debug, PartialEq, Eq, Structural)]
pub enum TokenType {
    INTEGER,
    EOF,
    DIV,
    MUL,
    PLUS,
    MINUS,
    LPAREN,
    RPAREN,
    ID,
    ASSIGN,
    BEGIN,
    END,
    SEMI,
    DOT,
}

/// The kind of a token of the calculator.
pub type CalcTokenType = TokenType;

impl TokenType {
    /// How the kind is written in messages: symbols as they stand in a
    /// program, the other kinds by their names.
    pub open spec fn spelling(self) -> Seq<char> {
        match self {
            TokenType::INTEGER => "INTEGER"@,
            TokenType::EOF => "EOF"@,
            TokenType::DIV => "DIV"@,
            TokenType::MUL => "MUL"@,
            TokenType::PLUS => "PLUS"@,
            TokenType::MINUS => "MINUS"@,
            TokenType::LPAREN => "("@,
            TokenType::RPAREN => ")"@,
            TokenType::ID => "ID"@,
            TokenType::ASSIGN => ":="@,
            TokenType::BEGIN => "BEGIN"@,
            TokenType::END => "END"@,
            TokenType::SEMI => ";"@,
            TokenType::DOT => "."@,
        }
    }

    /// How the kind is written in messages.
    pub fn name(self) -> (text: &'static str)
        ensures
            text@ == self.spelling(),
    {
        match self {
            TokenType::INTEGER => "INTEGER",
            TokenType::EOF => "EOF",
            TokenType::DIV => "DIV",
            TokenType::MUL => "MUL",
            TokenType::PLUS => "PLUS",
            TokenType::MINUS => "MINUS",
            TokenType::LPAREN => "(",
            TokenType::RPAREN => ")",
            TokenType::ID => "ID",
            TokenType::ASSIGN => ":=",
            TokenType::BEGIN => "BEGIN",
            TokenType::END => "END",
            TokenType::SEMI => ";",
            TokenType::DOT => ".",
        }
    }
}

/// The payload of a token.
#[derive(Debug, PartialEq, Eq)]
pub enum Value {
    CHAR(char),
    INT(i32),
    STRING(String),
}

/// The mathematical content of a [`Value`]: text is a sequence of characters.
pub enum ValueView {
    CHAR(char),
    INT(i32),
    STRING(Seq<char>),
}

impl View for Value {
    type V = ValueView;

    open spec fn view(&self) -> ValueView {
        match self {
            Value::CHAR(c) => ValueView::CHAR(*c),
            Value::INT(n) => ValueView::INT(*n),
            Value::STRING(s) => ValueView::STRING(s@),
        }
    }
}

/// A token: a kind and what it carries.
#[derive(Debug, PartialEq, Eq)]
pub struct Token {
    pub genre: TokenType,
    pub value: Option<Value>,
}

/// The mathematical content of a [`Token`].
pub struct TokenView {
    pub genre: TokenType,
    pub value: Option<ValueView>,
}

impl View for Token {
    type V = TokenView;

    open spec fn view(&self) -> TokenView {
        TokenView {
            genre: self.genre,
            value: match self.value {
                Some(v) => Some(v@),
                None => None,
            },
        }
    }
}

impl Clone for Value {
    fn clone(&self) -> (copy: Value)
        ensures
            copy == *self,
    {
        match self {
            Value::CHAR(c) => Value::CHAR(*c),
            Value::INT(n) => Value::INT(*n),
            Value::STRING(s) => Value::STRING(s.clone()),
        }
    }
}

impl Clone for Token {
    fn clone(&self) -> (copy: Token)
        ensures
            copy == *self,
    {
        Token {
            genre: self.genre,
            value: match &self.value {
                Some(v) => Some(v.clone()),
                None => None,
            },
        }
    }
}

} // verus!
