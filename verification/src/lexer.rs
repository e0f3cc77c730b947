//! The tokenizer: one scan from left to right, one byte of lookahead.
//!
//! Every byte of the input belongs to exactly one token: the tokens follow
//! one another without a gap, and the last one is the end of the input.

use vstd::prelude::*;
use crate::bytes::{
    is_comment_body, is_punct, is_quote, is_space, is_word, punct_byte, quote_byte, space_byte,
    word_byte, BACKSLASH, CLOSE_BRACE, CLOSE_BRACKET, CLOSE_PAREN, COMMA, HASH, NEWLINE,
    OPEN_BRACE, OPEN_BRACKET, OPEN_PAREN,
};
use crate::scanning::{all_texts, is_partition, lemma_lex_partitions, lemma_lex_texts};
use crate::token::{FormatError, Punct, Token, TokenKind};
use crate::words::{classify, classify_span};

verus! {

/// The three kinds of runs: a token of such a kind goes on for as long as
/// the bytes are of its class.
#[derive(Clone, Copy, Debug, PartialEq, Eq, Structural)]
pub enum Run {
    Space,
    Word,
    Comment,
}

impl Run {
    pub open spec fn holds(self, b: u8) -> bool {
        match self {
            Run::Space => is_space(b),
            Run::Word => is_word(b),
            Run::Comment => is_comment_body(b),
        }
    }

    #[verifier::when_used_as_spec(holds)]
    pub fn admits(self, b: u8) -> (r: bool)
        ensures
            r == self.holds(b),
    {
        match self {
            Run::Space => space_byte(b),
            Run::Word => word_byte(b),
            Run::Comment => b != NEWLINE,
        }
    }
}

/// Where the run of `run`'s class that covers position `i` stops: the first
/// position from `i` on whose byte is not of the class, or the end.
pub open spec fn run_end(s: Seq<u8>, i: int, run: Run) -> int
    decreases s.len() - i,
{
    if 0 <= i < s.len() && run.holds(s[i]) {
        run_end(s, i + 1, run)
    } else {
        i
    }
}

/// Where the string stops whose inside is scanned from `i` on: just behind
/// the first `quote` that no backslash escapes. A backslash takes the byte
/// behind it along, whatever that byte is. `None` when the input ends
/// first.
pub open spec fn string_end(s: Seq<u8>, quote: u8, i: int) -> Option<int>
    decreases s.len() - i,
{
    if i < 0 || i >= s.len() {
        None
    } else if s[i] == quote {
        Some(i + 1)
    } else if s[i] == BACKSLASH {
        if i + 1 >= s.len() {
            None
        } else {
            string_end(s, quote, i + 2)
        }
    } else {
        string_end(s, quote, i + 1)
    }
}

/// The structural character that a byte stands for.
pub open spec fn punct_of(b: u8) -> Punct {
    if b == OPEN_BRACE {
        Punct::OpenBrace
    } else if b == CLOSE_BRACE {
        Punct::CloseBrace
    } else if b == OPEN_BRACKET {
        Punct::OpenBracket
    } else if b == CLOSE_BRACKET {
        Punct::CloseBracket
    } else if b == OPEN_PAREN {
        Punct::OpenParen
    } else if b == CLOSE_PAREN {
        Punct::CloseParen
    } else if b == COMMA {
        Punct::Comma
    } else {
        Punct::Colon
    }
}

/// The token that starts at position `i` of `s`: its kind and where it
/// ends, or the reason why there is none.
pub open spec fn scan(s: Seq<u8>, i: int) -> Result<(TokenKind, int), FormatError>
    recommends
        0 <= i < s.len(),
{
    let b = s[i];
    if is_quote(b) {
        match string_end(s, b, i + 1) {
            Some(e) => Ok((TokenKind::String, e)),
            None => Err(FormatError::UnterminatedString),
        }
    } else if b == HASH {
        Ok((TokenKind::Comment, run_end(s, i + 1, Run::Comment)))
    } else if b == NEWLINE {
        Ok((TokenKind::Newline, i + 1))
    } else if is_space(b) {
        Ok((TokenKind::Whitespace, run_end(s, i + 1, Run::Space)))
    } else if is_punct(b) {
        Ok((TokenKind::Punctuation(punct_of(b)), i + 1))
    } else if is_word(b) {
        let e = run_end(s, i + 1, Run::Word);
        Ok((classify(s.subrange(i, e)), e))
    } else {
        Err(FormatError::UnrecognizedByte)
    }
}

/// The token of kind `kind` that covers the bytes `start..end`.
pub open spec fn span_token(kind: TokenKind, start: int, end: int) -> Token {
    Token { kind: kind, start: start as usize, end: end as usize }
}

/// The token that stands for the end of an input of `len` bytes.
pub open spec fn end_token(len: nat) -> Token {
    span_token(TokenKind::EndOfInput, len as int, len as int)
}

/// The tokens of `s` from position `i` on, the end of the input last, or
/// the first error that the scan comes upon.
pub open spec fn lex_from(s: Seq<u8>, i: int) -> Result<Seq<Token>, FormatError>
    recommends
        s.len() <= usize::MAX,
    decreases s.len() - i,
    via lex_from_terminates
{
    if i < 0 || i >= s.len() {
        Ok(seq![end_token(s.len())])
    } else {
        match scan(s, i) {
            Err(err) => Err(err),
            Ok(found) => match lex_from(s, found.1) {
                Err(err) => Err(err),
                Ok(rest) => Ok(seq![span_token(found.0, i, found.1)] + rest),
            },
        }
    }
}

#[via_fn]
proof fn lex_from_terminates(s: Seq<u8>, i: int) {
    if 0 <= i < s.len() {
        lemma_scan_bounds(s, i);
    }
}

/// The tokens of the whole input.
pub open spec fn lex(s: Seq<u8>) -> Result<Seq<Token>, FormatError> {
    lex_from(s, 0)
}

/// A run ends between its start and the end of the input.
pub proof fn lemma_run_end_bounds(s: Seq<u8>, i: int, run: Run)
    requires
        0 <= i <= s.len(),
    ensures
        i <= run_end(s, i, run) <= s.len(),
    decreases s.len() - i,
{
    if i < s.len() && run.holds(s[i]) {
        lemma_run_end_bounds(s, i + 1, run);
    }
}

/// A string that ends, ends behind its start and inside the input.
pub proof fn lemma_string_end_bounds(s: Seq<u8>, quote: u8, i: int)
    requires
        0 <= i,
    ensures
        string_end(s, quote, i) is Some ==> i < string_end(s, quote, i)->0 <= s.len(),
    decreases s.len() - i,
{
    if i < s.len() && s[i] != quote {
        if s[i] == BACKSLASH {
            if i + 1 < s.len() {
                lemma_string_end_bounds(s, quote, i + 2);
            }
        } else {
            lemma_string_end_bounds(s, quote, i + 1);
        }
    }
}

/// A token that is found covers at least one byte and stays inside the
/// input.
pub proof fn lemma_scan_bounds(s: Seq<u8>, i: int)
    requires
        0 <= i < s.len(),
    ensures
        scan(s, i) is Ok ==> i < scan(s, i)->Ok_0.1 <= s.len(),
{
    lemma_string_end_bounds(s, s[i], i + 1);
    lemma_run_end_bounds(s, i + 1, Run::Comment);
    lemma_run_end_bounds(s, i + 1, Run::Space);
    lemma_run_end_bounds(s, i + 1, Run::Word);
}

/// Scans a run from `i` on.
pub fn scan_run(input: &[u8], i: usize, run: Run) -> (e: usize)
    requires
        i <= input@.len(),
    ensures
        e == run_end(input@, i as int, run),
        i <= e <= input@.len(),
{
    let mut j: usize = i;
    while j < input.len() && run.admits(input[j])
        invariant
            i <= j <= input@.len(),
            run_end(input@, i as int, run) == run_end(input@, j as int, run),
        decreases input@.len() - j,
    {
        j += 1;
    }
    j
}

/// Scans the inside of a string from `i` on.
pub fn scan_string(input: &[u8], quote: u8, i: usize) -> (r: Option<usize>)
    requires
        i <= input@.len(),
    ensures
        r is Some <==> string_end(input@, quote, i as int) is Some,
        r is Some ==> r->0 == string_end(input@, quote, i as int)->0,
        r is Some ==> i < r->0 <= input@.len(),
{
    let n: usize = input.len();
    let mut j: usize = i;
    while j < n
        invariant
            n == input@.len(),
            i <= j <= n,
            string_end(input@, quote, i as int) == string_end(input@, quote, j as int),
        decreases n - j,
    {
        let b: u8 = input[j];
        if b == quote {
            return Some(j + 1);
        }
        if b == BACKSLASH {
            if n - j < 2 {
                return None;
            }
            j += 2;
        } else {
            j += 1;
        }
    }
    None
}

/// The structural character that a byte stands for.
pub fn punct_from(b: u8) -> (p: Punct)
    ensures
        p == punct_of(b),
{
    if b == OPEN_BRACE {
        Punct::OpenBrace
    } else if b == CLOSE_BRACE {
        Punct::CloseBrace
    } else if b == OPEN_BRACKET {
        Punct::OpenBracket
    } else if b == CLOSE_BRACKET {
        Punct::CloseBracket
    } else if b == OPEN_PAREN {
        Punct::OpenParen
    } else if b == CLOSE_PAREN {
        Punct::CloseParen
    } else if b == COMMA {
        Punct::Comma
    } else {
        Punct::Colon
    }
}

/// The token that starts at `pos`: one token per request. At the end of the
/// input it is the end-of-input token, as often as it is asked for.
pub fn next_token(input: &[u8], pos: usize) -> (r: Result<Token, FormatError>)
    requires
        pos <= input@.len(),
    ensures
        pos == input@.len() ==> r == Ok::<Token, FormatError>(
            Token { kind: TokenKind::EndOfInput, start: pos, end: pos },
        ),
        pos < input@.len() ==> match scan(input@, pos as int) {
            Ok((kind, e)) => r == Ok::<Token, FormatError>(
                Token { kind: kind, start: pos, end: e as usize },
            ) && pos < e <= input@.len(),
            Err(err) => r == Err::<Token, FormatError>(err),
        },
{
    if pos >= input.len() {
        return Ok(Token { kind: TokenKind::EndOfInput, start: pos, end: pos });
    }
    proof {
        lemma_scan_bounds(input@, pos as int);
    }
    let b: u8 = input[pos];
    if quote_byte(b) {
        match scan_string(input, b, pos + 1) {
            Some(e) => Ok(Token { kind: TokenKind::String, start: pos, end: e }),
            None => Err(FormatError::UnterminatedString),
        }
    } else if b == HASH {
        let e: usize = scan_run(input, pos + 1, Run::Comment);
        Ok(Token { kind: TokenKind::Comment, start: pos, end: e })
    } else if b == NEWLINE {
        Ok(Token { kind: TokenKind::Newline, start: pos, end: pos + 1 })
    } else if space_byte(b) {
        let e: usize = scan_run(input, pos + 1, Run::Space);
        Ok(Token { kind: TokenKind::Whitespace, start: pos, end: e })
    } else if punct_byte(b) {
        Ok(Token { kind: TokenKind::Punctuation(punct_from(b)), start: pos, end: pos + 1 })
    } else if word_byte(b) {
        let e: usize = scan_run(input, pos + 1, Run::Word);
        Ok(Token { kind: classify_span(input, pos, e), start: pos, end: e })
    } else {
        Err(FormatError::UnrecognizedByte)
    }
}

/// Splits the input into its tokens, the end of the input last. Fails with
/// the first error that the scan from the left comes upon.
///
/// The tokens cover the input exactly, in order and without a gap, and each
/// has the bytes of its kind.
pub fn tokenize(input: &[u8]) -> (r: Result<Vec<Token>, FormatError>)
    ensures
        match r {
            Ok(tokens) => lex(input@) == Ok::<Seq<Token>, FormatError>(tokens@),
            Err(err) => lex(input@) == Err::<Seq<Token>, FormatError>(err),
        },
        r is Ok ==> is_partition(r->Ok_0@, 0, input@.len()) && all_texts(r->Ok_0@, input@),
{
    let n: usize = input.len();
    let mut tokens: Vec<Token> = Vec::new();
    let mut pos: usize = 0;
    while pos < n
        invariant
            n == input@.len(),
            pos <= n,
            match lex_from(input@, pos as int) {
                Ok(rest) => lex(input@) == Ok::<Seq<Token>, FormatError>(tokens@ + rest),
                Err(err) => lex(input@) == Err::<Seq<Token>, FormatError>(err),
            },
        decreases n - pos,
    {
        match next_token(input, pos) {
            Err(err) => {
                return Err(err);
            },
            Ok(token) => {
                proof {
                    let rest = lex_from(input@, token.end as int);
                    if rest is Ok {
                        assert(tokens@ + (seq![token] + rest->Ok_0) =~= tokens@.push(token)
                            + rest->Ok_0);
                    }
                }
                tokens.push(token);
                pos = token.end;
            },
        }
    }
    proof {
        assert(tokens@ + seq![end_token(n as nat)] =~= tokens@.push(end_token(n as nat)));
        lemma_lex_partitions(input@, 0);
        lemma_lex_texts(input@, 0);
    }
    tokens.push(Token { kind: TokenKind::EndOfInput, start: n, end: n });
    Ok(tokens)
}

} // verus!
