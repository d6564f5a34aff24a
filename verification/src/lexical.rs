//! What the tokens of a text are: the lexical grammar, stated over sequences
//! of characters.

use vstd::prelude::*;
use crate::chars::{digit_value, is_digit, is_letter, CharClass};
use crate::error::LexError;
use crate::token::{TokenType, TokenView, ValueView};

verus! {

/// The end of the longest run of characters of `class` that starts at `from`:
/// the first index at or after `from` that is past the text or holds a
/// character outside the class.
pub open spec fn run_end(text: Seq<char>, from: int, class: CharClass) -> int
    decreases text.len() - from,
{
    if 0 <= from < text.len() && class.has(text[from]) {
        run_end(text, from + 1, class)
    } else {
        from
    }
}

/// The number that a sequence of decimal digits denotes, most significant
/// digit first; the empty sequence denotes zero.
pub open spec fn decimal(digits: Seq<char>) -> nat
    decreases digits.len(),
{
    if digits.len() == 0 {
        0
    } else {
        (decimal(digits.drop_last()) * 10 + digit_value(digits.last())) as nat
    }
}

/// The token that marks the end of the text.
pub open spec fn eof_token() -> TokenView {
    TokenView { genre: TokenType::EOF, value: None }
}

/// The token of an integer literal.
pub open spec fn integer_token(n: i32) -> TokenView {
    TokenView { genre: TokenType::INTEGER, value: Some(ValueView::INT(n)) }
}

/// The token `:=`.
pub open spec fn assign_token() -> TokenView {
    TokenView { genre: TokenType::ASSIGN, value: Some(ValueView::STRING(seq![':', '='])) }
}

/// The kind of the token that the single character `c` makes, if it makes one.
pub open spec fn symbol_kind(c: char) -> Option<TokenType> {
    if c == '*' {
        Some(TokenType::MUL)
    } else if c == '/' {
        Some(TokenType::DIV)
    } else if c == '+' {
        Some(TokenType::PLUS)
    } else if c == '-' {
        Some(TokenType::MINUS)
    } else if c == '(' {
        Some(TokenType::LPAREN)
    } else if c == ')' {
        Some(TokenType::RPAREN)
    } else if c == '.' {
        Some(TokenType::DOT)
    } else if c == ';' {
        Some(TokenType::SEMI)
    } else {
        None
    }
}

/// The token of a single-character symbol.
pub open spec fn symbol_token(genre: TokenType, c: char) -> TokenView {
    TokenView { genre, value: Some(ValueView::CHAR(c)) }
}

/// The kind of a word: that of the keyword it spells, or `ID`. Keywords are
/// matched exactly, upper case only.
pub open spec fn word_kind(word: Seq<char>) -> TokenType {
    if word == seq!['B', 'E', 'G', 'I', 'N'] {
        TokenType::BEGIN
    } else if word == seq!['E', 'N', 'D'] {
        TokenType::END
    } else {
        TokenType::ID
    }
}

/// The token of a word: a keyword or an identifier, carrying its text.
pub open spec fn word_token(word: Seq<char>) -> TokenView {
    TokenView { genre: word_kind(word), value: Some(ValueView::STRING(word)) }
}

/// What stands at one place of a text: a token, or the reason why there is none.
pub type Lexeme = Result<TokenView, LexError>;

/// The value of an integer literal, given its digits: their number, if it
/// fits in an `i32`.
pub open spec fn literal_value(digits: Seq<char>) -> Result<i32, LexError> {
    if decimal(digits) <= i32::MAX {
        Ok(decimal(digits) as i32)
    } else {
        Err(LexError::IntegerOverflow)
    }
}

/// The outcome of reading one token: what was read, and where reading goes on.
pub struct Scan {
    pub lexeme: Lexeme,
    pub end: int,
}

/// Reads one token of `text`, starting at `pos`.
///
/// Whitespace is skipped first. Past it, the end of the text gives `EOF`; a
/// digit starts an integer literal, which is the longest run of digits; a
/// letter starts a word, which is the longest run of letters and digits; `:`
/// must be followed by `=`; any other character is a symbol of its own or an
/// error. After an integer that is too large reading goes on behind its
/// digits; after the other errors it stays at the offending character.
pub open spec fn scan(text: Seq<char>, pos: int) -> Scan {
    let start = run_end(text, pos, CharClass::Whitespace);
    if !(0 <= start < text.len()) {
        Scan { lexeme: Ok(eof_token()), end: start }
    } else {
        let c = text[start];
        if is_digit(c) {
            let end = run_end(text, start, CharClass::Digit);
            match literal_value(text.subrange(start, end)) {
                Ok(n) => Scan { lexeme: Ok(integer_token(n)), end },
                Err(e) => Scan { lexeme: Err(e), end },
            }
        } else if is_letter(c) {
            let end = run_end(text, start, CharClass::Alphanumeric);
            Scan { lexeme: Ok(word_token(text.subrange(start, end))), end }
        } else if c == ':' {
            if start + 1 < text.len() && text[start + 1] == '=' {
                Scan { lexeme: Ok(assign_token()), end: start + 2 }
            } else {
                Scan { lexeme: Err(LexError::LoneColon), end: start }
            }
        } else {
            match symbol_kind(c) {
                Some(genre) => Scan { lexeme: Ok(symbol_token(genre, c)), end: start + 1 },
                None => Scan { lexeme: Err(LexError::UnrecognizedChar(c)), end: start },
            }
        }
    }
}

/// Whether a token carries what its kind calls for: `EOF` nothing, `INTEGER`
/// a number that is not negative, words and `:=` their text, and a symbol
/// its character.
pub open spec fn payload_fits(t: TokenView) -> bool {
    match t.genre {
        TokenType::EOF => t.value is None,
        TokenType::INTEGER => t.value matches Some(ValueView::INT(n)) && n >= 0,
        TokenType::ID | TokenType::BEGIN | TokenType::END | TokenType::ASSIGN => t.value is Some
            && t.value->0 is STRING,
        _ => t.value is Some && t.value->0 is CHAR,
    }
}

/// Whether every token of `s` carries what its kind calls for.
pub open spec fn payloads_fit(s: Seq<Lexeme>) -> bool {
    forall|i: int| 0 <= i < s.len() ==> ((#[trigger] s[i]) matches Ok(t) ==> payload_fits(t))
}

/// Whether a lexeme ends a token stream: the end of the text, or an error.
pub open spec fn is_final(lexeme: Lexeme) -> bool {
    match lexeme {
        Ok(t) => t.genre == TokenType::EOF,
        Err(_) => true,
    }
}

/// The token stream of `text` from `pos` on: the tokens in order, up to and
/// including the first `EOF` or the first error.
pub open spec fn lexemes(text: Seq<char>, pos: int) -> Seq<Lexeme>
    decreases text.len() - pos,
{
    let s = scan(text, pos);
    if !is_final(s.lexeme) && pos < s.end <= text.len() {
        seq![s.lexeme] + lexemes(text, s.end)
    } else {
        seq![s.lexeme]
    }
}

/// Whether `s` has the shape of a token stream: it is not empty, and its last
/// element, and no other, is `EOF` or an error.
pub open spec fn is_stream(s: Seq<Lexeme>) -> bool {
    &&& s.len() > 0
    &&& forall|i: int| 0 <= i < s.len() ==> (is_final(#[trigger] s[i]) <==> i == s.len() - 1)
}

/// One more digit at the end multiplies the number by ten and adds the digit.
pub proof fn lemma_decimal_push(digits: Seq<char>, c: char)
    requires
        is_digit(c),
    ensures
        decimal(digits.push(c)) == decimal(digits) * 10 + digit_value(c),
        decimal(digits.push(c)) >= decimal(digits),
{
    assert(digits.push(c).drop_last() =~= digits);
}

/// A run ends at or after its start, and inside the text.
pub proof fn lemma_run_end_bounds(text: Seq<char>, from: int, class: CharClass)
    requires
        0 <= from <= text.len(),
    ensures
        from <= run_end(text, from, class) <= text.len(),
    decreases text.len() - from,
{
    if from < text.len() && class.has(text[from]) {
        lemma_run_end_bounds(text, from + 1, class);
    }
}

/// A run is the longest one: every character in it is of the class, and the
/// character behind it, if there is one, is not.
pub proof fn lemma_run_end_is_maximal(text: Seq<char>, from: int, class: CharClass)
    requires
        0 <= from <= text.len(),
    ensures
        forall|i: int| from <= i < run_end(text, from, class) ==> class.has(#[trigger] text[i]),
        run_end(text, from, class) < text.len() ==> !class.has(text[run_end(text, from, class)]),
    decreases text.len() - from,
{
    if from < text.len() && class.has(text[from]) {
        lemma_run_end_is_maximal(text, from + 1, class);
    }
}

/// Whatever index satisfies the two properties of the end of a run is that end.
pub proof fn lemma_run_end_unique(text: Seq<char>, from: int, class: CharClass, end: int)
    requires
        0 <= from <= end <= text.len(),
        forall|i: int| from <= i < end ==> class.has(#[trigger] text[i]),
        end < text.len() ==> !class.has(text[end]),
    ensures
        run_end(text, from, class) == end,
    decreases end - from,
{
    if from < end {
        lemma_run_end_unique(text, from + 1, class, end);
    }
}

/// Reading a token never moves backwards nor past the end, and every token
/// but `EOF` takes at least one character.
pub proof fn lemma_scan_advances(text: Seq<char>, pos: int)
    requires
        0 <= pos <= text.len(),
    ensures
        pos <= scan(text, pos).end <= text.len(),
        scan(text, pos).lexeme matches Ok(t) ==> (t.genre == TokenType::EOF <==> run_end(
            text,
            pos,
            CharClass::Whitespace,
        ) == text.len()),
        !is_final(scan(text, pos).lexeme) ==> pos < scan(text, pos).end,
{
    let start = run_end(text, pos, CharClass::Whitespace);
    lemma_run_end_bounds(text, pos, CharClass::Whitespace);
    if start < text.len() {
        lemma_run_end_bounds(text, start + 1, CharClass::Digit);
        lemma_run_end_bounds(text, start + 1, CharClass::Alphanumeric);
    }
}

/// The token stream of a text has the shape of a stream.
pub proof fn lemma_lexemes_is_stream(text: Seq<char>, pos: int)
    requires
        0 <= pos <= text.len(),
    ensures
        is_stream(lexemes(text, pos)),
    decreases text.len() - pos,
{
    let s = scan(text, pos);
    lemma_scan_advances(text, pos);
    if !is_final(s.lexeme) {
        lemma_lexemes_is_stream(text, s.end);
        let rest = lexemes(text, s.end);
        let all = lexemes(text, pos);
        assert(all == seq![s.lexeme] + rest);
        assert forall|i: int| 0 <= i < all.len() implies (is_final(#[trigger] all[i]) <==> i
            == all.len() - 1) by {
            if i > 0 {
                assert(all[i] == rest[i - 1]);
            }
        }
    }
}

/// The stream of a text starts with the token read at `pos`; unless that one
/// ends the stream, the stream goes on with that of the text behind it.
pub proof fn lemma_lexemes_unfold(text: Seq<char>, pos: int)
    requires
        0 <= pos <= text.len(),
    ensures
        lexemes(text, pos)[0] == scan(text, pos).lexeme,
        is_final(scan(text, pos).lexeme) ==> lexemes(text, pos) == seq![scan(text, pos).lexeme],
        !is_final(scan(text, pos).lexeme) ==> lexemes(text, pos).drop_first() == lexemes(
            text,
            scan(text, pos).end,
        ),
{
    lemma_scan_advances(text, pos);
    let s = scan(text, pos);
    if !is_final(s.lexeme) {
        assert(lexemes(text, pos) == seq![s.lexeme] + lexemes(text, s.end));
        assert((seq![s.lexeme] + lexemes(text, s.end)).drop_first() =~= lexemes(text, s.end));
    }
}

/// Every token that is read carries what its kind calls for.
pub proof fn lemma_scan_payload(text: Seq<char>, pos: int)
    ensures
        scan(text, pos).lexeme matches Ok(t) ==> payload_fits(t),
{
}

/// Every token of the stream of a text carries what its kind calls for.
pub proof fn lemma_lexemes_payloads(text: Seq<char>, pos: int)
    requires
        0 <= pos <= text.len(),
    ensures
        payloads_fit(lexemes(text, pos)),
    decreases text.len() - pos,
{
    let s = scan(text, pos);
    lemma_scan_advances(text, pos);
    lemma_scan_payload(text, pos);
    if !is_final(s.lexeme) {
        lemma_lexemes_payloads(text, s.end);
        let rest = lexemes(text, s.end);
        let all = lexemes(text, pos);
        assert(all == seq![s.lexeme] + rest);
        assert forall|i: int| 0 <= i < all.len() implies ((#[trigger] all[i]) matches Ok(t)
            ==> payload_fits(t)) by {
            if i > 0 {
                assert(all[i] == rest[i - 1]);
            }
        }
    }
}

/// Reading a token at `pos` is reading it behind the whitespace at `pos`.
pub proof fn lemma_scan_skips_blanks(text: Seq<char>, pos: int, start: int)
    requires
        0 <= pos <= start <= text.len(),
        forall|i: int| pos <= i < start ==> CharClass::Whitespace.has(#[trigger] text[i]),
        start < text.len() ==> !CharClass::Whitespace.has(text[start]),
    ensures
        scan(text, pos) == scan(text, start),
{
    lemma_run_end_unique(text, pos, CharClass::Whitespace, start);
    lemma_run_end_unique(text, start, CharClass::Whitespace, start);
}

/// A letter followed by characters of words, up to a character that is none,
/// is read as one word.
pub proof fn lemma_scan_word(text: Seq<char>, start: int, end: int)
    requires
        0 <= start < end <= text.len(),
        is_letter(text[start]),
        !CharClass::Whitespace.has(text[start]),
        forall|i: int| start <= i < end ==> CharClass::Alphanumeric.has(#[trigger] text[i]),
        end < text.len() ==> !CharClass::Alphanumeric.has(text[end]),
    ensures
        scan(text, start) == (Scan {
            lexeme: Ok(word_token(text.subrange(start, end))),
            end,
        }),
{
    lemma_run_end_unique(text, start, CharClass::Whitespace, start);
    lemma_run_end_unique(text, start, CharClass::Alphanumeric, end);
}

/// Digits up to a character that is none are read as one integer literal.
pub proof fn lemma_scan_integer(text: Seq<char>, start: int, end: int)
    requires
        0 <= start < end <= text.len(),
        forall|i: int| start <= i < end ==> CharClass::Digit.has(#[trigger] text[i]),
        end < text.len() ==> !CharClass::Digit.has(text[end]),
    ensures
        scan(text, start) == (Scan {
            lexeme: match literal_value(text.subrange(start, end)) {
                Ok(n) => Ok(integer_token(n)),
                Err(e) => Err(e),
            },
            end,
        }),
{
    assert(CharClass::Digit.has(text[start]));
    lemma_run_end_unique(text, start, CharClass::Whitespace, start);
    lemma_run_end_unique(text, start, CharClass::Digit, end);
}

/// A symbol is read as the token that it makes.
pub proof fn lemma_scan_symbol(text: Seq<char>, start: int)
    requires
        0 <= start < text.len(),
        symbol_kind(text[start]) is Some,
    ensures
        scan(text, start) == (Scan {
            lexeme: Ok(symbol_token(symbol_kind(text[start])->0, text[start])),
            end: start + 1,
        }),
{
    lemma_run_end_unique(text, start, CharClass::Whitespace, start);
}

/// `:=` is read as the assignment token.
pub proof fn lemma_scan_assign(text: Seq<char>, start: int)
    requires
        0 <= start,
        start + 1 < text.len(),
        text[start] == ':',
        text[start + 1] == '=',
    ensures
        scan(text, start) == (Scan { lexeme: Ok(assign_token()), end: start + 2 }),
{
    lemma_run_end_unique(text, start, CharClass::Whitespace, start);
}

} // verus!
