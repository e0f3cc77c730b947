//! Tokens: what the tokenizer hands to the printer.

use vstd::prelude::*;

verus! {

/// The eight structural characters, each under its own name so that the
/// printer can tell an opening from a closing one and a separator from a
/// delimiter.
#[derive(Clone, Copy, Debug, PartialEq, Eq, Structural)]
pub enum Punct {
    OpenBrace,
    CloseBrace,
    OpenBracket,
    CloseBracket,
    OpenParen,
    CloseParen,
    Comma,
    Colon,
}

#[derive(Clone, Copy, Debug, PartialEq, Eq, Structural)]
pub enum TokenKind {
    Comment,
    String,
    Number,
    Boolean,
    Null,
    Identifier,
    Keyword,
    Punctuation(Punct),
    Newline,
    Whitespace,
    EndOfInput,
}

/// A token: its kind and the bytes `start..end` of the input that it covers.
#[derive(Clone, Copy, Debug, PartialEq, Eq, Structural)]
pub struct Token {
    pub kind: TokenKind,
    pub start: usize,
    pub end: usize,
}

/// Why an input cannot be formatted.
#[derive(Clone, Copy, Debug, PartialEq, Eq, Structural)]
pub enum FormatError {
    /// A string is opened and the input ends before its closing quote.
    UnterminatedString,
    /// A byte outside strings and comments belongs to no lexical class.
    UnrecognizedByte,
    /// The formatted bytes are not valid UTF-8 and a text was asked for.
    EncodingError,
}

impl TokenKind {
    /// Whitespace and newlines: tokens that carry nothing but their kind.
    pub open spec fn is_blank(self) -> bool {
        self == TokenKind::Whitespace || self == TokenKind::Newline
    }

    /// A token whose bytes reach the output.
    pub open spec fn is_solid(self) -> bool {
        !self.is_blank() && self != TokenKind::EndOfInput
    }
}

impl Token {
    /// The span lies inside an input of `len` bytes.
    pub open spec fn fits(self, len: nat) -> bool {
        self.start <= self.end <= len
    }

    /// The bytes of `input` that the token covers.
    pub open spec fn text(self, input: Seq<u8>) -> Seq<u8> {
        input.subrange(self.start as int, self.end as int)
    }

    /// Copies the token's bytes out of the input.
    pub fn bytes(&self, input: &[u8]) -> (r: Vec<u8>)
        requires
            self.fits(input@.len()),
        ensures
            r@ == self.text(input@),
    {
        let mut r: Vec<u8> = Vec::new();
        let mut i: usize = self.start;
        while i < self.end
            invariant
                self.start <= i <= self.end <= input@.len(),
                r@ == input@.subrange(self.start as int, i as int),
            decreases self.end - i,
        {
            r.push(input[i]);
            i += 1;
            assert(r@ =~= input@.subrange(self.start as int, i as int));
        }
        r
    }
}

} // verus!
