//! The lexer: reads a text one token at a time.

use vstd::prelude::*;
use vstd::string::StringExecFns;
use crate::chars::{decimal_digit_value, is_decimal_digit, letter, CharClass};
use crate::error::LexError;
use crate::lexical::{
    decimal, is_final, is_stream, lemma_decimal_push, lemma_lexemes_is_stream,
    lemma_lexemes_unfold, lemma_run_end_bounds, lemma_scan_advances, lexemes, literal_value,
    payload_fits, run_end, scan, symbol_kind, word_kind, word_token, Lexeme,
};
use crate::token::{Token, TokenType, Value};

verus! {

/// `String::push` appends the character to the end of the string.
pub assume_specification[ String::push ](s: &mut String, c: char)
    ensures
        final(s)@ == old(s)@.push(c),
;

/// The character of `text` at `pos`, if `pos` is inside the text.
pub open spec fn char_at(text: Seq<char>, pos: int) -> Option<char> {
    if 0 <= pos < text.len() {
        Some(text[pos])
    } else {
        None
    }
}

/// What a call that reads a token returned, as a lexeme.
pub open spec fn lexeme_of(r: Result<Token, LexError>) -> Lexeme {
    match r {
        Ok(t) => Ok(t@),
        Err(e) => Err(e),
    }
}

/// The kind of the token that the word `word` makes: that of a reserved
/// keyword, or `ID`.
pub fn keyword_or_id(word: &String) -> (genre: TokenType)
    ensures
        genre == word_kind(word@),
{
    proof {
        reveal_strlit("BEGIN");
        reveal_strlit("END");
        assert("BEGIN"@ =~= seq!['B', 'E', 'G', 'I', 'N']);
        assert("END"@ =~= seq!['E', 'N', 'D']);
    }
    if *word == String::from_str("BEGIN") {
        TokenType::BEGIN
    } else if *word == String::from_str("END") {
        TokenType::END
    } else {
        TokenType::ID
    }
}

/// The kind of the token that the single character `c` makes, if it makes one.
pub fn symbol(c: char) -> (genre: Option<TokenType>)
    ensures
        genre == symbol_kind(c),
{
    if c == '*' {
        Some(TokenType::MUL)
    } else if c == '/' {
        Some(TokenType::DIV)
    } else if c == '+' {
        Some(TokenType::PLUS)
    } else if c == '-' {
        Some(TokenType::MINUS)
    } else if c == '(' {
        Some(TokenType::LPAREN)
    } else if c == ')' {
        Some(TokenType::RPAREN)
    } else if c == '.' {
        Some(TokenType::DOT)
    } else if c == ';' {
        Some(TokenType::SEMI)
    } else {
        None
    }
}

/// A text and a cursor into it.
pub struct Lexer {
    text: Vec<char>,
    pos: usize,
}

impl Lexer {
    #[verifier::type_invariant]
    spec fn cursor_in_text(&self) -> bool {
        self.pos <= self.text.len()
    }

    /// The text that is read. It never changes.
    pub closed spec fn text(&self) -> Seq<char> {
        self.text@
    }

    /// The index of the character under the cursor; the length of the text
    /// once the cursor is past the end.
    pub closed spec fn position(&self) -> int {
        self.pos as int
    }

    /// The character under the cursor, absent once the cursor is past the end.
    pub open spec fn current(&self) -> Option<char> {
        char_at(self.text(), self.position())
    }

    /// The tokens that are still to come.
    pub open spec fn pending(&self) -> Seq<Lexeme> {
        lexemes(self.text(), self.position())
    }

    /// A lexer at the start of `text`.
    pub fn new(text: &str) -> (lexer: Lexer)
        ensures
            lexer.text() == text@,
            lexer.position() == 0,
            is_stream(lexer.pending()),
    {
        let mut chars: Vec<char> = Vec::new();
        for c in it: text.chars()
            invariant
                chars@ == it.seq().take(it.index()),
        {
            chars.push(c);
        }
        proof {
            lemma_lexemes_is_stream(chars@, 0);
        }
        Lexer { text: chars, pos: 0 }
    }

    /// The character under the cursor.
    pub fn current_char(&self) -> (c: Option<char>)
        ensures
            c == self.current(),
    {
        proof {
            use_type_invariant(self);
        }
        if self.pos < self.text.len() {
            Some(self.text[self.pos])
        } else {
            None
        }
    }

    /// Moves the cursor one character on, unless it is past the end already.
    pub fn advance(&mut self)
        ensures
            final(self).text() == old(self).text(),
            old(self).position() <= final(self).position() <= final(self).text().len(),
            final(self).position() == if old(self).current() is Some {
                old(self).position() + 1
            } else {
                old(self).position()
            },
    {
        proof {
            use_type_invariant(&*self);
        }
        if self.pos < self.text.len() {
            self.pos = self.pos + 1;
        }
    }

    /// The character behind the one under the cursor, if there is one. The
    /// cursor stays.
    pub fn peek(&self) -> (c: Option<char>)
        ensures
            c == char_at(self.text(), self.position() + 1),
    {
        proof {
            use_type_invariant(self);
        }
        if self.pos < self.text.len() && self.pos + 1 < self.text.len() {
            Some(self.text[self.pos + 1])
        } else {
            None
        }
    }

    /// Whether the character under the cursor is of `class`.
    fn at(&self, class: CharClass) -> (r: bool)
        ensures
            r == (self.current() matches Some(c) && class.has(c)),
    {
        match self.current_char() {
            Some(c) => class.contains(c),
            None => false,
        }
    }

    /// Moves the cursor to the first character at or after it that is no
    /// whitespace, or past the end.
    pub fn skip_whitespace(&mut self)
        ensures
            final(self).text() == old(self).text(),
            old(self).position() <= final(self).position() <= final(self).text().len(),
            final(self).position() == run_end(
                old(self).text(),
                old(self).position(),
                CharClass::Whitespace,
            ),
    {
        proof {
            use_type_invariant(&*self);
        }
        while self.at(CharClass::Whitespace)
            invariant
                self.text() == old(self).text(),
                old(self).position() <= self.position() <= self.text().len(),
                run_end(self.text(), self.position(), CharClass::Whitespace) == run_end(
                    old(self).text(),
                    old(self).position(),
                    CharClass::Whitespace,
                ),
            decreases self.text().len() - self.position(),
        {
            self.advance();
        }
    }

    /// Reads the longest run of digits that starts under the cursor and
    /// returns the number that it denotes, or `IntegerOverflow` if that does
    /// not fit. Either way the cursor ends behind the run.
    pub fn integer(&mut self) -> (r: Result<i32, LexError>)
        ensures
            final(self).text() == old(self).text(),
            old(self).position() <= final(self).position() <= final(self).text().len(),
            final(self).position() == run_end(
                old(self).text(),
                old(self).position(),
                CharClass::Digit,
            ),
            r == literal_value(
                old(self).text().subrange(old(self).position(), final(self).position()),
            ),
    {
        let mut value: i32 = 0;
        let mut fits = true;
        proof {
            use_type_invariant(&*self);
            assert(self.text().subrange(self.position(), self.position()) =~= Seq::<char>::empty());
        }
        while self.at(CharClass::Digit)
            invariant
                self.text() == old(self).text(),
                old(self).position() <= self.position() <= self.text().len(),
                run_end(self.text(), self.position(), CharClass::Digit) == run_end(
                    old(self).text(),
                    old(self).position(),
                    CharClass::Digit,
                ),
                fits ==> value == decimal(
                    self.text().subrange(old(self).position(), self.position()),
                ),
                !fits ==> decimal(self.text().subrange(old(self).position(), self.position()))
                    > i32::MAX,
                value >= 0,
            decreases self.text().len() - self.position(),
        {
            let c = self.text[self.pos];
            let digit = decimal_digit_value(c);
            proof {
                let sofar = self.text().subrange(old(self).position(), self.position());
                lemma_decimal_push(sofar, c);
                assert(sofar.push(c) =~= self.text().subrange(
                    old(self).position(),
                    self.position() + 1,
                ));
            }
            if fits {
                match value.checked_mul(10) {
                    Some(tens) => match tens.checked_add(digit) {
                        Some(next) => {
                            value = next;
                        },
                        None => {
                            fits = false;
                        },
                    },
                    None => {
                        fits = false;
                    },
                }
            }
            self.advance();
        }
        if fits {
            Ok(value)
        } else {
            Err(LexError::IntegerOverflow)
        }
    }

    /// Reads the longest run of alphanumeric characters that starts under the
    /// cursor and returns it as a token: a reserved keyword, or an identifier.
    pub fn _id(&mut self) -> (token: Token)
        ensures
            final(self).text() == old(self).text(),
            old(self).position() <= final(self).position() <= final(self).text().len(),
            final(self).position() == run_end(
                old(self).text(),
                old(self).position(),
                CharClass::Alphanumeric,
            ),
            token@ == word_token(
                old(self).text().subrange(old(self).position(), final(self).position()),
            ),
    {
        let mut word = String::new();
        proof {
            use_type_invariant(&*self);
            assert(self.text().subrange(self.position(), self.position()) =~= Seq::<char>::empty());
        }
        while self.at(CharClass::Alphanumeric)
            invariant
                self.text() == old(self).text(),
                old(self).position() <= self.position() <= self.text().len(),
                run_end(self.text(), self.position(), CharClass::Alphanumeric) == run_end(
                    old(self).text(),
                    old(self).position(),
                    CharClass::Alphanumeric,
                ),
                word@ == self.text().subrange(old(self).position(), self.position()),
            decreases self.text().len() - self.position(),
        {
            let c = self.text[self.pos];
            proof {
                assert(word@.push(c) =~= self.text().subrange(
                    old(self).position(),
                    self.position() + 1,
                ));
            }
            word.push(c);
            self.advance();
        }
        let genre = keyword_or_id(&word);
        Token { genre, value: Some(Value::STRING(word)) }
    }

    /// Reads the next token and moves the cursor behind it.
    ///
    /// At the end of the text every call returns `EOF`. After `LoneColon` and
    /// `UnrecognizedChar` the cursor stays at the offending character.
    pub fn get_next_token(&mut self) -> (r: Result<Token, LexError>)
        ensures
            final(self).text() == old(self).text(),
            old(self).position() <= final(self).position() <= final(self).text().len(),
            lexeme_of(r) == scan(old(self).text(), old(self).position()).lexeme,
            final(self).position() == scan(old(self).text(), old(self).position()).end,
            lexeme_of(r) == old(self).pending()[0],
            is_final(lexeme_of(r)) ==> old(self).pending() == seq![lexeme_of(r)],
            !is_final(lexeme_of(r)) ==> final(self).pending() == old(self).pending().drop_first(),
            is_stream(final(self).pending()),
            r matches Ok(t) ==> payload_fits(t@),
            (r matches Ok(t) && t.genre == TokenType::EOF) ==> final(self).pending()
                == old(self).pending(),
    {
        proof {
            use_type_invariant(&*self);
            lemma_lexemes_unfold(self.text(), self.position());
            lemma_scan_advances(self.text(), self.position());
            lemma_lexemes_is_stream(self.text(), scan(self.text(), self.position()).end);
            lemma_lexemes_unfold(self.text(), scan(self.text(), self.position()).end);
            lemma_run_end_bounds(
                self.text(),
                scan(self.text(), self.position()).end,
                CharClass::Whitespace,
            );
        }
        self.skip_whitespace();
        match self.current_char() {
            None => Ok(Token { genre: TokenType::EOF, value: None }),
            Some(c) => {
                if is_decimal_digit(c) {
                    match self.integer() {
                        Ok(n) => Ok(
                            Token { genre: TokenType::INTEGER, value: Some(Value::INT(n)) },
                        ),
                        Err(e) => Err(e),
                    }
                } else if letter(c) {
                    Ok(self._id())
                } else if c == ':' {
                    match self.peek() {
                        Some('=') => {
                            self.advance();
                            self.advance();
                            let mut text = String::new();
                            text.push(':');
                            text.push('=');
                            proof {
                                assert(text@ =~= seq![':', '=']);
                            }
                            Ok(Token { genre: TokenType::ASSIGN, value: Some(Value::STRING(text)) })
                        },
                        _ => Err(LexError::LoneColon),
                    }
                } else {
                    match symbol(c) {
                        Some(genre) => {
                            self.advance();
                            Ok(Token { genre, value: Some(Value::CHAR(c)) })
                        },
                        None => Err(LexError::UnrecognizedChar(c)),
                    }
                }
            },
        }
    }
}

} // verus!
