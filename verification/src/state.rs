//! What the printer remembers between two tokens, and the rules by which it
//! separates them.

use vstd::prelude::*;
use crate::bytes::{NEWLINE, SPACE};
use crate::token::{Punct, TokenKind};

verus! {

/// What stands between the last token printed and the next one.
#[derive(Clone, Copy, Debug, PartialEq, Eq, Structural)]
pub enum Gap {
    /// Nothing: the two tokens touch.
    Touching,
    /// Spaces or tabs, and no end of line.
    Spaced,
    /// At least one end of line.
    NewLine,
}

/// What the last token printed was, as far as the next separator depends on
/// it.
#[derive(Clone, Copy, Debug, PartialEq, Eq, Structural)]
pub enum Last {
    /// Nothing has been printed yet.
    Start,
    Comment,
    CloseParen,
    /// One of `{ } [ ] , :`.
    Tight,
    /// Anything else: a word, a string, an opening parenthesis.
    Plain,
}

/// The printer's state as contracts see it.
pub ghost struct State {
    /// How many brackets of block syntax are open.
    pub depth: nat,
    /// How many brackets of the literal are open; zero outside a literal.
    pub literal: nat,
    pub last: Last,
    pub gap: Gap,
}

/// The printer's state: made anew for each run, and dropped after it.
#[derive(Clone, Copy, Debug)]
pub struct FormatState {
    pub depth: usize,
    pub literal: usize,
    pub last: Last,
    pub gap: Gap,
}

impl View for FormatState {
    type V = State;

    open spec fn view(&self) -> State {
        State {
            depth: self.depth as nat,
            literal: self.literal as nat,
            last: self.last,
            gap: self.gap,
        }
    }
}

impl TokenKind {
    /// `[` or `{`.
    pub open spec fn is_open(self) -> bool {
        self == TokenKind::Punctuation(Punct::OpenBracket) || self == TokenKind::Punctuation(
            Punct::OpenBrace,
        )
    }

    /// `]` or `}`.
    pub open spec fn is_close(self) -> bool {
        self == TokenKind::Punctuation(Punct::CloseBracket) || self == TokenKind::Punctuation(
            Punct::CloseBrace,
        )
    }

    pub open spec fn is_open_paren(self) -> bool {
        self == TokenKind::Punctuation(Punct::OpenParen)
    }

    pub open spec fn is_close_paren(self) -> bool {
        self == TokenKind::Punctuation(Punct::CloseParen)
    }

    /// One of `{ } [ ] , :`, which a literal prints without blanks around
    /// them.
    pub open spec fn is_structural(self) -> bool {
        self.is_open() || self.is_close() || self == TokenKind::Punctuation(Punct::Comma) || self
            == TokenKind::Punctuation(Punct::Colon)
    }

    /// What the state keeps of a token of this kind once it is printed.
    pub open spec fn as_last(self) -> Last {
        if self == TokenKind::Comment {
            Last::Comment
        } else if self.is_close_paren() {
            Last::CloseParen
        } else if self.is_structural() {
            Last::Tight
        } else {
            Last::Plain
        }
    }

    #[verifier::when_used_as_spec(is_open)]
    pub fn opens(self) -> (r: bool)
        ensures
            r == self.is_open(),
    {
        matches!(self, TokenKind::Punctuation(Punct::OpenBracket)) || matches!(
            self,
            TokenKind::Punctuation(Punct::OpenBrace)
        )
    }

    #[verifier::when_used_as_spec(is_close)]
    pub fn closes(self) -> (r: bool)
        ensures
            r == self.is_close(),
    {
        matches!(self, TokenKind::Punctuation(Punct::CloseBracket)) || matches!(
            self,
            TokenKind::Punctuation(Punct::CloseBrace)
        )
    }

    #[verifier::when_used_as_spec(is_open_paren)]
    pub fn opens_paren(self) -> (r: bool)
        ensures
            r == self.is_open_paren(),
    {
        matches!(self, TokenKind::Punctuation(Punct::OpenParen))
    }

    #[verifier::when_used_as_spec(is_close_paren)]
    pub fn closes_paren(self) -> (r: bool)
        ensures
            r == self.is_close_paren(),
    {
        matches!(self, TokenKind::Punctuation(Punct::CloseParen))
    }

    #[verifier::when_used_as_spec(is_structural)]
    pub fn structural(self) -> (r: bool)
        ensures
            r == self.is_structural(),
    {
        self.opens() || self.closes() || matches!(self, TokenKind::Punctuation(Punct::Comma))
            || matches!(self, TokenKind::Punctuation(Punct::Colon))
    }

    #[verifier::when_used_as_spec(as_last)]
    pub fn to_last(self) -> (r: Last)
        ensures
            r == self.as_last(),
    {
        if matches!(self, TokenKind::Comment) {
            Last::Comment
        } else if self.closes_paren() {
            Last::CloseParen
        } else if self.structural() {
            Last::Tight
        } else {
            Last::Plain
        }
    }
}

/// One less, and zero stays zero: a closing bracket that closes nothing
/// leaves the depth as it is.
pub open spec fn one_less(n: nat) -> nat {
    if n == 0 {
        0
    } else {
        (n - 1) as nat
    }
}

/// `n` spaces.
pub open spec fn spaces(n: nat) -> Seq<u8> {
    Seq::new(n, |i: int| SPACE)
}

/// The indentation of a line at `depth` levels of `width` spaces each.
pub open spec fn indent(depth: nat, width: nat) -> Seq<u8>
    decreases depth,
{
    if depth == 0 {
        Seq::empty()
    } else {
        indent((depth - 1) as nat, width) + spaces(width)
    }
}

/// What ends a line behind a token: one space behind a closing parenthesis,
/// nothing behind anything else.
pub open spec fn line_end(last: Last) -> Seq<u8> {
    if last == Last::CloseParen {
        seq![SPACE]
    } else {
        Seq::empty()
    }
}

impl State {
    /// The state in which a run begins.
    pub open spec fn start() -> State {
        State { depth: 0, literal: 0, last: Last::Start, gap: Gap::Touching }
    }

    /// The gap as the printer takes it: a comment runs to the end of its
    /// line, so whatever follows one stands on a new line.
    pub open spec fn reach(self) -> Gap {
        if self.last == Last::Comment {
            Gap::NewLine
        } else {
            self.gap
        }
    }

    /// Whether the next token is the first of its line.
    pub open spec fn starts_line(self) -> bool {
        self.last == Last::Start || self.reach() == Gap::NewLine
    }

    /// Whether a token of this kind, coming next, opens a literal: an
    /// opening `[` or `{` that is the first token of a line outside all
    /// brackets.
    pub open spec fn opens_literal(self, kind: TokenKind) -> bool {
        kind.is_open() && self.literal == 0 && self.depth == 0 && self.starts_line()
    }

    /// The depth at which a line stands that begins with a token of this
    /// kind: a closing bracket stands with the line that opened it.
    pub open spec fn level(self, kind: TokenKind) -> nat {
        if kind.is_close() || kind.is_close_paren() {
            one_less(self.depth)
        } else {
            self.depth
        }
    }

    /// The state after a blank token of this kind: the gap grows.
    pub open spec fn widen(self, kind: TokenKind) -> State {
        State {
            gap: if kind == TokenKind::Newline {
                Gap::NewLine
            } else if self.gap == Gap::Touching {
                Gap::Spaced
            } else {
                self.gap
            },
            ..self
        }
    }

    /// What is printed between the last token and a token of this kind.
    ///
    /// Nothing before the first token. Inside a literal: a new line behind a
    /// comment, one space where the input had a gap between two tokens
    /// neither of which is structural, nothing else. Outside: nothing where
    /// the tokens touch, one space for spaces, and for any number of line
    /// ends one line end and the indentation of the new line.
    pub open spec fn separator(self, kind: TokenKind, width: nat) -> Seq<u8> {
        if self.last == Last::Start {
            Seq::empty()
        } else if self.literal > 0 {
            if self.last == Last::Comment {
                seq![NEWLINE]
            } else if self.gap != Gap::Touching && self.last != Last::Tight
                && !kind.is_structural() {
                seq![SPACE]
            } else {
                Seq::empty()
            }
        } else {
            match self.reach() {
                Gap::Touching => Seq::empty(),
                Gap::Spaced => seq![SPACE],
                Gap::NewLine => line_end(self.last) + seq![NEWLINE] + indent(
                    self.level(kind),
                    width,
                ),
            }
        }
    }

    /// The state after a token of this kind has been printed.
    pub open spec fn step(self, kind: TokenKind) -> State {
        let last = kind.as_last();
        if self.literal > 0 {
            State {
                depth: self.depth,
                literal: if kind.is_open() {
                    self.literal + 1
                } else if kind.is_close() {
                    one_less(self.literal)
                } else {
                    self.literal
                },
                last: last,
                gap: Gap::Touching,
            }
        } else if self.opens_literal(kind) {
            State { depth: self.depth, literal: 1, last: last, gap: Gap::Touching }
        } else {
            State {
                depth: if kind.is_open() || kind.is_open_paren() {
                    self.depth + 1
                } else if kind.is_close() || kind.is_close_paren() {
                    one_less(self.depth)
                } else {
                    self.depth
                },
                literal: 0,
                last: last,
                gap: Gap::Touching,
            }
        }
    }

    /// What ends the output: the end of the last line.
    pub open spec fn tail(self) -> Seq<u8> {
        line_end(self.last) + seq![NEWLINE]
    }
}

} // verus!
