//! The printer: one pass over the tokens, from the first to the end of the
//! input.
//!
//! Blank tokens print nothing: the printer notes whether spaces or a line
//! end stood between two tokens, and decides what to print between them
//! when it reaches the second. Every other token is copied from the input
//! as it stands. The rules of separation are those of
//! [`State::separator`](crate::state::State::separator):
//!
//! - nothing stands in front of the first token;
//! - outside a literal, tokens that touch stay together, spaces and tabs
//!   become one space, and any number of line ends becomes one, followed by
//!   the indentation of the new line;
//! - a closing parenthesis at the end of a line is followed by one space;
//! - inside a literal, that is from a `[` or `{` that begins a line outside
//!   all brackets to the bracket that closes it, blanks are dropped around
//!   `{ } [ ] , :`, and become one space between other tokens;
//! - a comment is always followed by a line end;
//! - the output ends with one line end.

use vstd::prelude::*;
use crate::bytes::{NEWLINE, SPACE};
use crate::config::Config;
use crate::state::{indent, line_end, spaces, FormatState, Gap, Last, State};
use crate::token::{Token, TokenKind};

verus! {

/// What the printer makes of the tokens `tokens` of the input `s`, from the
/// state `st` on. It stops at the first end-of-input token, or where the
/// tokens run out. Blank tokens print nothing and widen the gap; every
/// other token prints its separator and then its own bytes as they stand in
/// the input.
pub open spec fn render_seq(s: Seq<u8>, tokens: Seq<Token>, st: State, width: nat) -> Seq<u8>
    decreases tokens.len(),
{
    if tokens.len() == 0 || tokens[0].kind == TokenKind::EndOfInput {
        st.tail()
    } else if tokens[0].kind.is_blank() {
        render_seq(s, tokens.drop_first(), st.widen(tokens[0].kind), width)
    } else {
        st.separator(tokens[0].kind, width) + tokens[0].text(s) + render_seq(
            s,
            tokens.drop_first(),
            st.step(tokens[0].kind),
            width,
        )
    }
}

/// What the printer makes of the tokens of a whole input.
pub open spec fn render(s: Seq<u8>, tokens: Seq<Token>, width: nat) -> Seq<u8> {
    render_seq(s, tokens, State::start(), width)
}

/// Every token lies inside an input of `len` bytes.
pub open spec fn all_fit(tokens: Seq<Token>, len: nat) -> bool {
    forall|k: int| 0 <= k < tokens.len() ==> (#[trigger] tokens[k]).fits(len)
}

impl FormatState {
    /// The state in which a run begins.
    pub fn new() -> (st: FormatState)
        ensures
            st@ == State::start(),
    {
        FormatState { depth: 0, literal: 0, last: Last::Start, gap: Gap::Touching }
    }

    /// Takes note of a blank token.
    pub fn see_blank(&mut self, kind: TokenKind)
        ensures
            final(self)@ == old(self)@.widen(kind),
    {
        if matches!(kind, TokenKind::Newline) {
            self.gap = Gap::NewLine;
        } else if matches!(self.gap, Gap::Touching) {
            self.gap = Gap::Spaced;
        }
    }

    /// The gap as the printer takes it.
    pub fn reach(&self) -> (gap: Gap)
        ensures
            gap == self@.reach(),
    {
        if matches!(self.last, Last::Comment) {
            Gap::NewLine
        } else {
            self.gap
        }
    }

    /// Whether a token of this kind, coming next, opens a literal.
    pub fn opens_literal(&self, kind: TokenKind) -> (r: bool)
        ensures
            r == self@.opens_literal(kind),
    {
        kind.opens() && self.literal == 0 && self.depth == 0 && (matches!(self.last, Last::Start)
            || matches!(self.reach(), Gap::NewLine))
    }

    /// Takes note of a token that has been printed.
    pub fn see_token(&mut self, kind: TokenKind)
        requires
            old(self).depth < usize::MAX,
            old(self).literal < usize::MAX,
        ensures
            final(self)@ == old(self)@.step(kind),
    {
        if self.literal > 0 {
            if kind.opens() {
                self.literal = self.literal + 1;
            } else if kind.closes() {
                self.literal = self.literal - 1;
            }
        } else if self.opens_literal(kind) {
            self.literal = 1;
        } else if kind.opens() || kind.opens_paren() {
            self.depth = self.depth + 1;
        } else if kind.closes() || kind.closes_paren() {
            if self.depth > 0 {
                self.depth = self.depth - 1;
            }
        }
        self.last = kind.to_last();
        self.gap = Gap::Touching;
    }

    /// Prints what stands between the last token and a token of this kind.
    pub fn print_separator(&self, out: &mut Vec<u8>, kind: TokenKind, width: usize)
        ensures
            final(out)@ == old(out)@ + self@.separator(kind, width as nat),
    {
        if matches!(self.last, Last::Start) {
            assert(out@ =~= old(out)@ + Seq::<u8>::empty());
        } else if self.literal > 0 {
            if matches!(self.last, Last::Comment) {
                out.push(NEWLINE);
                assert(out@ =~= old(out)@ + seq![NEWLINE]);
            } else if !matches!(self.gap, Gap::Touching) && !matches!(self.last, Last::Tight)
                && !kind.structural() {
                out.push(SPACE);
                assert(out@ =~= old(out)@ + seq![SPACE]);
            } else {
                assert(out@ =~= old(out)@ + Seq::<u8>::empty());
            }
        } else {
            match self.reach() {
                Gap::Touching => {
                    assert(out@ =~= old(out)@ + Seq::<u8>::empty());
                },
                Gap::Spaced => {
                    out.push(SPACE);
                    assert(out@ =~= old(out)@ + seq![SPACE]);
                },
                Gap::NewLine => {
                    print_line_end(out, self.last);
                    out.push(NEWLINE);
                    let level: usize = if (kind.closes() || kind.closes_paren()) && self.depth
                        > 0 {
                        self.depth - 1
                    } else {
                        self.depth
                    };
                    assert(level as nat == self@.level(kind));
                    print_indent(out, level, width);
                    assert(out@ =~= old(out)@ + (line_end(self.last) + seq![NEWLINE] + indent(
                        level as nat,
                        width as nat,
                    )));
                },
            }
        }
    }
}

/// Prints what ends a line behind the last token.
pub fn print_line_end(out: &mut Vec<u8>, last: Last)
    ensures
        final(out)@ == old(out)@ + line_end(last),
{
    if matches!(last, Last::CloseParen) {
        out.push(SPACE);
        assert(out@ =~= old(out)@ + seq![SPACE]);
    } else {
        assert(out@ =~= old(out)@ + Seq::<u8>::empty());
    }
}

/// Prints `n` spaces.
pub fn print_spaces(out: &mut Vec<u8>, n: usize)
    ensures
        final(out)@ == old(out)@ + spaces(n as nat),
{
    let mut j: usize = 0;
    assert(out@ =~= old(out)@ + spaces(0));
    while j < n
        invariant
            j <= n,
            out@ == old(out)@ + spaces(j as nat),
        decreases n - j,
    {
        out.push(SPACE);
        j += 1;
        assert(out@ =~= old(out)@ + spaces(j as nat));
    }
}

/// Prints the indentation of a line at `depth` levels.
pub fn print_indent(out: &mut Vec<u8>, depth: usize, width: usize)
    ensures
        final(out)@ == old(out)@ + indent(depth as nat, width as nat),
{
    let mut d: usize = 0;
    assert(out@ =~= old(out)@ + indent(0, width as nat));
    while d < depth
        invariant
            d <= depth,
            out@ == old(out)@ + indent(d as nat, width as nat),
        decreases depth - d,
    {
        print_spaces(out, width);
        d += 1;
        assert(out@ =~= old(out)@ + indent(d as nat, width as nat));
    }
}

/// Copies the bytes `start..end` of the input to the output.
pub fn print_span(out: &mut Vec<u8>, input: &[u8], start: usize, end: usize)
    requires
        start <= end <= input@.len(),
    ensures
        final(out)@ == old(out)@ + input@.subrange(start as int, end as int),
{
    let mut j: usize = start;
    assert(out@ =~= old(out)@ + input@.subrange(start as int, j as int));
    while j < end
        invariant
            start <= j <= end <= input@.len(),
            out@ == old(out)@ + input@.subrange(start as int, j as int),
        decreases end - j,
    {
        out.push(input[j]);
        j += 1;
        assert(out@ =~= old(out)@ + input@.subrange(start as int, j as int));
    }
}

/// Prints the tokens of `input` in canonical form. The printer reads the
/// width of an indentation level from `config` and nothing else.
pub fn print(input: &[u8], tokens: &Vec<Token>, config: &Config) -> (out: Vec<u8>)
    requires
        all_fit(tokens@, input@.len()),
    ensures
        out@ == render(input@, tokens@, config.tab_spaces as nat),
{
    let width: usize = config.tab_spaces;
    let n: usize = tokens.len();
    let mut out: Vec<u8> = Vec::new();
    let mut st: FormatState = FormatState::new();
    let mut k: usize = 0;
    assert(tokens@.skip(0) =~= tokens@);
    while k < n && !matches!(tokens[k].kind, TokenKind::EndOfInput)
        invariant
            n == tokens@.len(),
            k <= n,
            all_fit(tokens@, input@.len()),
            width == config.tab_spaces,
            st.depth <= k,
            st.literal <= k,
            out@ + render_seq(input@, tokens@.skip(k as int), st@, width as nat) == render(
                input@,
                tokens@,
                width as nat,
            ),
        decreases n - k,
    {
        let token: Token = tokens[k];
        let ghost rest = tokens@.skip(k as int);
        let ghost before = out@;
        let ghost old_st = st@;
        assert(rest[0] == token);
        assert(rest.drop_first() =~= tokens@.skip(k + 1));
        assert(token.fits(input@.len()));
        if matches!(token.kind, TokenKind::Whitespace) || matches!(token.kind, TokenKind::Newline) {
            st.see_blank(token.kind);
        } else {
            st.print_separator(&mut out, token.kind, width);
            print_span(&mut out, input, token.start, token.end);
            st.see_token(token.kind);
            assert(out@ + render_seq(input@, tokens@.skip(k + 1), st@, width as nat) =~= before
                + (old_st.separator(token.kind, width as nat) + token.text(input@) + render_seq(
                input@,
                tokens@.skip(k + 1),
                st@,
                width as nat,
            )));
        }
        k += 1;
    }
    let ghost body = out@;
    print_line_end(&mut out, st.last);
    out.push(NEWLINE);
    assert(out@ =~= body + st@.tail());
    out
}

} // verus!
