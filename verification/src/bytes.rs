//! The lexical classes of single bytes.

use vstd::prelude::*;

verus! {

pub const TAB: u8 = 9;

pub const NEWLINE: u8 = 10;

pub const CARRIAGE_RETURN: u8 = 13;

pub const SPACE: u8 = 32;

pub const DOUBLE_QUOTE: u8 = 34;

pub const HASH: u8 = 35;

pub const SINGLE_QUOTE: u8 = 39;

pub const OPEN_PAREN: u8 = 40;

pub const CLOSE_PAREN: u8 = 41;

pub const COMMA: u8 = 44;

pub const MINUS: u8 = 45;

pub const DOT: u8 = 46;

pub const DIGIT_ZERO: u8 = 48;

pub const DIGIT_NINE: u8 = 57;

pub const COLON: u8 = 58;

pub const OPEN_BRACKET: u8 = 91;

pub const BACKSLASH: u8 = 92;

pub const CLOSE_BRACKET: u8 = 93;

pub const OPEN_BRACE: u8 = 123;

pub const CLOSE_BRACE: u8 = 125;

pub const DELETE: u8 = 127;

/// A byte that opens and closes a string.
pub open spec fn is_quote(b: u8) -> bool {
    b == DOUBLE_QUOTE || b == SINGLE_QUOTE
}

/// A space, a tab or a carriage return: blank bytes that do not end a line.
pub open spec fn is_space(b: u8) -> bool {
    b == SPACE || b == TAB || b == CARRIAGE_RETURN
}

/// One of the eight structural characters `{ } [ ] ( ) , :`.
pub open spec fn is_punct(b: u8) -> bool {
    b == OPEN_BRACE || b == CLOSE_BRACE || b == OPEN_BRACKET || b == CLOSE_BRACKET || b
        == OPEN_PAREN || b == CLOSE_PAREN || b == COMMA || b == COLON
}

/// A byte that may stand in a word: any visible byte (and any byte beyond
/// ASCII) that is not a quote, the comment introducer or a structural
/// character.
pub open spec fn is_word(b: u8) -> bool {
    b > SPACE && b != DELETE && !is_quote(b) && b != HASH && !is_punct(b)
}

/// A byte that may stand inside a comment: anything but the end of the line.
pub open spec fn is_comment_body(b: u8) -> bool {
    b != NEWLINE
}

/// A byte that shows: neither a space, a tab or a carriage return nor a
/// line end.
pub open spec fn is_visible(b: u8) -> bool {
    !is_space(b) && b != NEWLINE
}

/// A decimal digit.
pub open spec fn is_digit(b: u8) -> bool {
    DIGIT_ZERO <= b <= DIGIT_NINE
}

#[verifier::when_used_as_spec(is_quote)]
pub fn quote_byte(b: u8) -> (r: bool)
    ensures
        r == is_quote(b),
{
    b == DOUBLE_QUOTE || b == SINGLE_QUOTE
}

#[verifier::when_used_as_spec(is_space)]
pub fn space_byte(b: u8) -> (r: bool)
    ensures
        r == is_space(b),
{
    b == SPACE || b == TAB || b == CARRIAGE_RETURN
}

#[verifier::when_used_as_spec(is_punct)]
pub fn punct_byte(b: u8) -> (r: bool)
    ensures
        r == is_punct(b),
{
    b == OPEN_BRACE || b == CLOSE_BRACE || b == OPEN_BRACKET || b == CLOSE_BRACKET || b
        == OPEN_PAREN || b == CLOSE_PAREN || b == COMMA || b == COLON
}

#[verifier::when_used_as_spec(is_word)]
pub fn word_byte(b: u8) -> (r: bool)
    ensures
        r == is_word(b),
{
    b > SPACE && b != DELETE && !quote_byte(b) && b != HASH && !punct_byte(b)
}

#[verifier::when_used_as_spec(is_digit)]
pub fn digit_byte(b: u8) -> (r: bool)
    ensures
        r == is_digit(b),
{
    DIGIT_ZERO <= b && b <= DIGIT_NINE
}

} // verus!
