//! Character classes that the lexer tells apart.

use vstd::prelude::*;

verus! {

/// Whether `c` has the Unicode property `White_Space`, as `char::is_whitespace` reports it.
pub uninterp spec fn unicode_whitespace(c: char) -> bool;

/// Whether `c` has the Unicode property `Alphabetic`, as `char::is_alphabetic` reports it.
pub uninterp spec fn unicode_alphabetic(c: char) -> bool;

/// Whether `c` is numeric in Unicode, as `char::is_numeric` reports it.
pub uninterp spec fn unicode_numeric(c: char) -> bool;

/// `char::is_whitespace` is a function of the character alone; its table is
/// not spelled out here, only named.
pub assume_specification[ char::is_whitespace ](c: char) -> (b: bool)
    ensures
        b == unicode_whitespace(c),
;

/// `char::is_alphabetic` is a function of the character alone; its table is
/// not spelled out here, only named.
pub assume_specification[ char::is_alphabetic ](c: char) -> (b: bool)
    ensures
        b == unicode_alphabetic(c),
;

/// `char::is_alphanumeric` holds of exactly the characters of which
/// `char::is_alphabetic` or `char::is_numeric` holds.
pub assume_specification[ char::is_alphanumeric ](c: char) -> (b: bool)
    ensures
        b == (unicode_alphabetic(c) || unicode_numeric(c)),
;

/// A character of the ASCII range. There the classes are spelled out; beyond
/// it they are those of Unicode.
pub open spec fn in_ascii(c: char) -> bool {
    c <= '\u{7f}'
}

/// Whitespace: in ASCII the space and the controls from tab to carriage
/// return; beyond it what Unicode calls so.
pub open spec fn is_blank(c: char) -> bool {
    if in_ascii(c) {
        c == ' ' || '\t' <= c <= '\r'
    } else {
        unicode_whitespace(c)
    }
}

/// A letter: in ASCII `a` to `z` and `A` to `Z`; beyond it what Unicode
/// calls alphabetic.
pub open spec fn is_letter(c: char) -> bool {
    if in_ascii(c) {
        'a' <= c <= 'z' || 'A' <= c <= 'Z'
    } else {
        unicode_alphabetic(c)
    }
}

/// A character of which words are made: in ASCII a letter or a digit; beyond
/// it what Unicode calls alphabetic or numeric.
pub open spec fn is_word_char(c: char) -> bool {
    if in_ascii(c) {
        is_letter(c) || is_digit(c)
    } else {
        unicode_alphabetic(c) || unicode_numeric(c)
    }
}

/// Tells whether `c` is in the ASCII range.
pub fn ascii(c: char) -> (r: bool)
    ensures
        r == in_ascii(c),
{
    c <= '\u{7f}'
}

/// Tells whether `c` is whitespace.
pub fn blank(c: char) -> (r: bool)
    ensures
        r == is_blank(c),
{
    if ascii(c) {
        c == ' ' || ('\t' <= c && c <= '\r')
    } else {
        c.is_whitespace()
    }
}

/// Tells whether `c` is a letter.
pub fn letter(c: char) -> (r: bool)
    ensures
        r == is_letter(c),
{
    if ascii(c) {
        ('a' <= c && c <= 'z') || ('A' <= c && c <= 'Z')
    } else {
        c.is_alphabetic()
    }
}

/// Tells whether `c` is a character of which words are made.
pub fn word_char(c: char) -> (r: bool)
    ensures
        r == is_word_char(c),
{
    if ascii(c) {
        letter(c) || is_decimal_digit(c)
    } else {
        c.is_alphanumeric()
    }
}

/// A class of characters of which the lexer reads maximal runs.
#[derive(Clone, Copy, Debug, PartialEq, Eq, Structural)]
pub enum CharClass {
    Whitespace,
    Digit,
    Alphanumeric,
}

impl CharClass {
    /// Whether `c` belongs to the class.
    pub open spec fn has(self, c: char) -> bool {
        match self {
            CharClass::Whitespace => is_blank(c),
            CharClass::Digit => is_digit(c),
            CharClass::Alphanumeric => is_word_char(c),
        }
    }

    /// Tells whether `c` belongs to the class.
    pub fn contains(self, c: char) -> (r: bool)
        ensures
            r == self.has(c),
    {
        match self {
            CharClass::Whitespace => blank(c),
            CharClass::Digit => is_decimal_digit(c),
            CharClass::Alphanumeric => word_char(c),
        }
    }
}

/// A decimal digit: one of `0` to `9`.
pub open spec fn is_digit(c: char) -> bool {
    '0' <= c <= '9'
}

/// The number that a decimal digit stands for.
pub open spec fn digit_value(c: char) -> int {
    c as int - '0' as int
}

/// Tells whether `c` is a decimal digit.
pub fn is_decimal_digit(c: char) -> (r: bool)
    ensures
        r == is_digit(c),
{
    '0' <= c && c <= '9'
}

/// The number that the decimal digit `c` stands for.
pub fn decimal_digit_value(c: char) -> (r: i32)
    requires
        is_digit(c),
    ensures
        r == digit_value(c),
        0 <= r <= 9,
{
    (c as u32 - '0' as u32) as i32
}

} // verus!
