use pascal_interpreter::chars::{
    ascii, blank, decimal_digit_value, is_decimal_digit, letter, word_char, CharClass,
};
use pascal_interpreter::error::LexError;
use pascal_interpreter::lexer::{keyword_or_id, symbol, Lexer};
use pascal_interpreter::token::{CalcTokenType, Token, TokenType, Value};

fn word(genre: TokenType, text: &str) -> Token {
    Token { genre, value: Some(Value::STRING(String::from(text))) }
}

fn sign(genre: TokenType, c: char) -> Token {
    Token { genre, value: Some(Value::CHAR(c)) }
}

fn number(n: i32) -> Token {
    Token { genre: TokenType::INTEGER, value: Some(Value::INT(n)) }
}

fn eof() -> Token {
    Token { genre: TokenType::EOF, value: None }
}

fn tokens(text: &str) -> Vec<Result<Token, LexError>> {
    let mut lexer = Lexer::new(text);
    let mut out = Vec::new();
    loop {
        let next = lexer.get_next_token();
        let done = match &next {
            Ok(t) => t.genre == TokenType::EOF,
            Err(_) => true,
        };
        out.push(next);
        if done {
            return out;
        }
    }
}

#[test]
fn empty_text_is_eof() {
    assert_eq!(tokens(""), vec![Ok(eof())]);
    let mut lexer = Lexer::new("");
    assert_eq!(lexer.current_char(), None);
    assert_eq!(lexer.get_next_token(), Ok(eof()));
    assert_eq!(lexer.get_next_token(), Ok(eof()));
}

#[test]
fn whitespace_only_is_eof() {
    assert_eq!(tokens("  \t \n "), vec![Ok(eof())]);
}

#[test]
fn tokens_of_an_assignment_program() {
    assert_eq!(
        tokens("BEGIN v := 42; END."),
        vec![
            Ok(word(TokenType::BEGIN, "BEGIN")),
            Ok(word(TokenType::ID, "v")),
            Ok(word(TokenType::ASSIGN, ":=")),
            Ok(number(42)),
            Ok(sign(TokenType::SEMI, ';')),
            Ok(word(TokenType::END, "END")),
            Ok(sign(TokenType::DOT, '.')),
            Ok(eof()),
        ]
    );
}

#[test]
fn tokens_need_no_whitespace_between_them() {
    assert_eq!(
        tokens("BEGIN v:=42;END."),
        tokens("  BEGIN   v  :=  42 ;  END  .  ")
    );
}

#[test]
fn every_symbol_has_its_kind() {
    assert_eq!(
        tokens("+-*/().;"),
        vec![
            Ok(sign(TokenType::PLUS, '+')),
            Ok(sign(TokenType::MINUS, '-')),
            Ok(sign(TokenType::MUL, '*')),
            Ok(sign(TokenType::DIV, '/')),
            Ok(sign(TokenType::LPAREN, '(')),
            Ok(sign(TokenType::RPAREN, ')')),
            Ok(sign(TokenType::DOT, '.')),
            Ok(sign(TokenType::SEMI, ';')),
            Ok(eof()),
        ]
    );
    assert_eq!(symbol('+'), Some(TokenType::PLUS));
    assert_eq!(symbol(':'), None);
    assert_eq!(symbol('a'), None);
}

#[test]
fn keywords_are_matched_exactly() {
    assert_eq!(keyword_or_id(&String::from("BEGIN")), TokenType::BEGIN);
    assert_eq!(keyword_or_id(&String::from("END")), TokenType::END);
    assert_eq!(keyword_or_id(&String::from("begin")), TokenType::ID);
    assert_eq!(keyword_or_id(&String::from("End")), TokenType::ID);
    assert_eq!(keyword_or_id(&String::from("BEGINS")), TokenType::ID);
    assert_eq!(keyword_or_id(&String::from("EN")), TokenType::ID);
    assert_eq!(keyword_or_id(&String::from("")), TokenType::ID);
    assert_eq!(
        tokens("begin ENDING"),
        vec![Ok(word(TokenType::ID, "begin")), Ok(word(TokenType::ID, "ENDING")), Ok(eof())]
    );
}

#[test]
fn words_go_on_through_digits_and_letters_of_any_script() {
    assert_eq!(
        tokens("x1y2 \u{e9}t\u{e9}"),
        vec![
            Ok(word(TokenType::ID, "x1y2")),
            Ok(word(TokenType::ID, "\u{e9}t\u{e9}")),
            Ok(eof())
        ]
    );
}

#[test]
fn words_go_on_through_digits_of_any_script() {
    assert_eq!(
        tokens("x\u{663}y 1\u{663}"),
        vec![
            Ok(word(TokenType::ID, "x\u{663}y")),
            Ok(number(1)),
            Err(LexError::UnrecognizedChar('\u{663}')),
        ]
    );
}

#[test]
fn whitespace_of_any_script_separates_tokens() {
    assert_eq!(
        tokens("a\u{2003}b\u{a0}\u{3000}"),
        vec![Ok(word(TokenType::ID, "a")), Ok(word(TokenType::ID, "b")), Ok(eof())]
    );
}

#[test]
fn a_digit_starts_a_number_not_a_word() {
    assert_eq!(tokens("12ab"), vec![Ok(number(12)), Ok(word(TokenType::ID, "ab")), Ok(eof())]);
}

#[test]
fn integer_reads_the_longest_run_of_digits() {
    let mut lexer = Lexer::new("00123+4");
    assert_eq!(lexer.integer(), Ok(123));
    assert_eq!(lexer.current_char(), Some('+'));
    assert_eq!(lexer.integer(), Ok(0));
    assert_eq!(lexer.current_char(), Some('+'));
}

#[test]
fn integer_literals_up_to_the_largest_i32() {
    assert_eq!(tokens("2147483647"), vec![Ok(number(2147483647)), Ok(eof())]);
    assert_eq!(tokens("0"), vec![Ok(number(0)), Ok(eof())]);
    assert_eq!(tokens("2147483648"), vec![Err(LexError::IntegerOverflow)]);
    assert_eq!(tokens("99999999999999999999999"), vec![Err(LexError::IntegerOverflow)]);
    let mut lexer = Lexer::new("4294967296 7");
    assert_eq!(lexer.integer(), Err(LexError::IntegerOverflow));
    assert_eq!(lexer.current_char(), Some(' '));
}

#[test]
fn colon_needs_an_equals_sign() {
    assert_eq!(tokens("a : b"), vec![Ok(word(TokenType::ID, "a")), Err(LexError::LoneColon)]);
    assert_eq!(tokens(":"), vec![Err(LexError::LoneColon)]);
    assert_eq!(tokens(": ="), vec![Err(LexError::LoneColon)]);
    let mut lexer = Lexer::new(":x");
    assert_eq!(lexer.get_next_token(), Err(LexError::LoneColon));
    assert_eq!(lexer.current_char(), Some(':'));
    assert_eq!(lexer.get_next_token(), Err(LexError::LoneColon));
}

#[test]
fn other_characters_are_not_recognized() {
    assert_eq!(tokens("1 ? 2"), vec![Ok(number(1)), Err(LexError::UnrecognizedChar('?'))]);
    assert_eq!(tokens("="), vec![Err(LexError::UnrecognizedChar('='))]);
    assert_eq!(tokens("_a"), vec![Err(LexError::UnrecognizedChar('_'))]);
}

#[test]
fn advance_and_peek_move_by_characters() {
    let mut lexer = Lexer::new("a\u{e9}:=");
    assert_eq!(lexer.current_char(), Some('a'));
    assert_eq!(lexer.peek(), Some('\u{e9}'));
    lexer.advance();
    assert_eq!(lexer.current_char(), Some('\u{e9}'));
    assert_eq!(lexer.peek(), Some(':'));
    lexer.advance();
    lexer.advance();
    assert_eq!(lexer.current_char(), Some('='));
    assert_eq!(lexer.peek(), None);
    lexer.advance();
    assert_eq!(lexer.current_char(), None);
    assert_eq!(lexer.peek(), None);
    lexer.advance();
    assert_eq!(lexer.current_char(), None);
}

#[test]
fn skip_whitespace_stops_at_the_first_other_character() {
    let mut lexer = Lexer::new(" \t\n x  y");
    lexer.skip_whitespace();
    assert_eq!(lexer.current_char(), Some('x'));
    lexer.skip_whitespace();
    assert_eq!(lexer.current_char(), Some('x'));
    let mut blank = Lexer::new("   ");
    blank.skip_whitespace();
    assert_eq!(blank.current_char(), None);
}

#[test]
fn id_reads_the_longest_run_of_letters_and_digits() {
    let mut lexer = Lexer::new("count2+1");
    assert_eq!(lexer._id(), word(TokenType::ID, "count2"));
    assert_eq!(lexer.current_char(), Some('+'));
    assert_eq!(lexer._id(), word(TokenType::ID, ""));
    let mut keyword = Lexer::new("END.");
    assert_eq!(keyword._id(), word(TokenType::END, "END"));
    assert_eq!(keyword.current_char(), Some('.'));
}

#[test]
fn character_classes() {
    assert!(CharClass::Whitespace.contains(' '));
    assert!(CharClass::Whitespace.contains('\u{2003}'));
    assert!(!CharClass::Whitespace.contains('a'));
    assert!(CharClass::Digit.contains('0'));
    assert!(CharClass::Digit.contains('9'));
    assert!(!CharClass::Digit.contains('a'));
    assert!(!CharClass::Digit.contains('\u{663}'));
    assert!(CharClass::Alphanumeric.contains('z'));
    assert!(CharClass::Alphanumeric.contains('7'));
    assert!(!CharClass::Alphanumeric.contains('-'));
    assert!(is_decimal_digit('5'));
    assert!(!is_decimal_digit('/'));
    assert!(!is_decimal_digit(':'));
    assert_eq!(decimal_digit_value('0'), 0);
    assert_eq!(decimal_digit_value('7'), 7);
    assert_eq!(decimal_digit_value('9'), 9);
}

#[test]
fn classes_are_those_of_unicode_on_every_character() {
    let mut code: u32 = 0;
    while code <= 0x10FFFF {
        if let Some(c) = char::from_u32(code) {
            assert_eq!(ascii(c), c.is_ascii(), "{:?}", c);
            assert_eq!(blank(c), c.is_whitespace(), "{:?}", c);
            assert_eq!(letter(c), c.is_alphabetic(), "{:?}", c);
            assert_eq!(word_char(c), c.is_alphanumeric(), "{:?}", c);
            assert_eq!(is_decimal_digit(c), c.is_digit(10), "{:?}", c);
        }
        code += 1;
    }
}

#[test]
fn classes_tell_ascii_characters_apart() {
    assert!(blank(' ') && blank('\t') && blank('\n') && blank('\r'));
    assert!(!blank('a') && !blank('0') && !blank('\0'));
    assert!(letter('a') && letter('z') && letter('A') && letter('Z'));
    assert!(!letter('0') && !letter('_') && !letter('@') && !letter('[') && !letter('`'));
    assert!(word_char('a') && word_char('Z') && word_char('0') && word_char('9'));
    assert!(!word_char('_') && !word_char(' ') && !word_char(':'));
    assert!(ascii('\u{7f}') && !ascii('\u{80}'));
}

#[test]
fn both_names_of_the_kinds_are_one_type() {
    let kind: CalcTokenType = TokenType::PLUS;
    assert_eq!(kind, CalcTokenType::PLUS);
}

#[test]
fn clones_are_equal() {
    let token = word(TokenType::ID, "abc");
    assert_eq!(token.clone(), token);
    assert_eq!(number(3).clone(), number(3));
    assert_eq!(eof().clone(), eof());
    assert_eq!(Value::CHAR('+').clone(), Value::CHAR('+'));
}
