//! Facts about the scan: what a token's bytes look like, and that a token
//! is found again wherever the same bytes stand in front of a fitting
//! neighbour.

use vstd::prelude::*;
use crate::bytes::{
    is_punct, is_quote, is_space, is_word, BACKSLASH, CLOSE_BRACE, CLOSE_BRACKET, CLOSE_PAREN,
    COLON, COMMA, HASH, NEWLINE, OPEN_BRACE, OPEN_BRACKET, OPEN_PAREN,
};
use crate::lexer::{
    end_token, lemma_string_end_bounds, lex_from, punct_of, run_end, scan, span_token,
    string_end, Run,
};
use crate::token::{FormatError, Punct, Token, TokenKind};
use crate::words::classify;

verus! {

/// Every byte of a run is of its class, and the byte behind the run is not.
pub proof fn lemma_run_end_is_maximal(s: Seq<u8>, i: int, run: Run)
    requires
        0 <= i <= s.len(),
    ensures
        i <= run_end(s, i, run) <= s.len(),
        forall|j: int| i <= j < run_end(s, i, run) ==> run.holds(#[trigger] s[j]),
        run_end(s, i, run) < s.len() ==> !run.holds(s[run_end(s, i, run)]),
    decreases s.len() - i,
{
    if i < s.len() && run.holds(s[i]) {
        lemma_run_end_is_maximal(s, i + 1, run);
    }
}

/// A run ends at `e` if every byte up to `e` is of its class and the byte at
/// `e`, if there is one, is not.
pub proof fn lemma_run_end_unique(s: Seq<u8>, i: int, run: Run, e: int)
    requires
        0 <= i <= e <= s.len(),
        forall|j: int| i <= j < e ==> run.holds(#[trigger] s[j]),
        e == s.len() || !run.holds(s[e]),
    ensures
        run_end(s, i, run) == e,
    decreases e - i,
{
    if i < e {
        lemma_run_end_unique(s, i + 1, run, e);
    }
}

/// A string ends with its quote.
pub proof fn lemma_string_end_last(s: Seq<u8>, quote: u8, i: int)
    requires
        0 <= i,
        string_end(s, quote, i) is Some,
    ensures
        s[string_end(s, quote, i)->0 - 1] == quote,
    decreases s.len() - i,
{
    if s[i] != quote {
        if s[i] == BACKSLASH {
            lemma_string_end_last(s, quote, i + 2);
        } else {
            lemma_string_end_last(s, quote, i + 1);
        }
    }
}

/// Where a string ends depends on its own bytes only: the same bytes in
/// another place end there too.
pub proof fn lemma_string_end_transfer(s: Seq<u8>, quote: u8, i: int, o: Seq<u8>, a: int)
    requires
        0 <= i,
        0 <= a,
        string_end(s, quote, i) is Some,
        a + (string_end(s, quote, i)->0 - i) <= o.len(),
        forall|j: int|
            a <= j < a + (string_end(s, quote, i)->0 - i) ==> #[trigger] o[j] == s[j - a + i],
    ensures
        string_end(o, quote, a) == Some(a + (string_end(s, quote, i)->0 - i)),
    decreases s.len() - i,
{
    let e = string_end(s, quote, i)->0;
    lemma_string_end_bounds(s, quote, i);
    assert(o[a] == s[i]);
    if s[i] != quote {
        if s[i] == BACKSLASH {
            lemma_string_end_bounds(s, quote, i + 2);
            lemma_string_end_transfer(s, quote, i + 2, o, a + 2);
        } else {
            lemma_string_end_bounds(s, quote, i + 1);
            lemma_string_end_transfer(s, quote, i + 1, o, a + 1);
        }
    }
}

/// A token that is not blank neither begins nor ends with a blank byte, and
/// it is never the end of the input.
pub proof fn lemma_solid_edges(s: Seq<u8>, i: int)
    requires
        0 <= i < s.len(),
        scan(s, i) is Ok,
    ensures
        scan(s, i)->Ok_0.0 != TokenKind::EndOfInput,
        i < scan(s, i)->Ok_0.1 <= s.len(),
        scan(s, i)->Ok_0.0 == TokenKind::Newline <==> s[i] == NEWLINE,
        scan(s, i)->Ok_0.0 == TokenKind::Whitespace <==> is_space(s[i]),
        scan(s, i)->Ok_0.0 == TokenKind::Comment <==> s[i] == HASH,
        scan(s, i)->Ok_0.0 == TokenKind::String <==> is_quote(s[i]),
        scan(s, i)->Ok_0.0 is Punctuation <==> is_punct(s[i]),
        !scan(s, i)->Ok_0.0.is_blank() ==> s[scan(s, i)->Ok_0.1 - 1] != NEWLINE,
{
    let e = scan(s, i)->Ok_0.1;
    lemma_run_end_is_maximal(s, i + 1, Run::Comment);
    lemma_run_end_is_maximal(s, i + 1, Run::Space);
    lemma_run_end_is_maximal(s, i + 1, Run::Word);
    lemma_string_end_bounds(s, s[i], i + 1);
    if is_quote(s[i]) {
        lemma_string_end_last(s, s[i], i + 1);
    }
    if e - 1 > i {
        assert(i + 1 <= e - 1 < e);
    }
}

/// The neighbour that a token needs behind it in order to end where it
/// ends: a word no word byte, a comment the end of the line, blanks no
/// blank. `next` is the byte behind the token, if there is one.
pub open spec fn closes_token(first: u8, next: Option<u8>) -> bool {
    match next {
        None => true,
        Some(b) => {
            if is_quote(first) || first == NEWLINE || is_punct(first) {
                true
            } else if first == HASH {
                b == NEWLINE
            } else if is_space(first) {
                !is_space(b)
            } else {
                !is_word(b)
            }
        },
    }
}

/// The byte at position `i`, if there is one.
pub open spec fn byte_at(s: Seq<u8>, i: int) -> Option<u8> {
    if 0 <= i < s.len() {
        Some(s[i])
    } else {
        None
    }
}

/// In the input that it was found in, every token has the neighbour that it
/// needs.
pub proof fn lemma_scan_closes(s: Seq<u8>, i: int)
    requires
        0 <= i < s.len(),
        scan(s, i) is Ok,
    ensures
        closes_token(s[i], byte_at(s, scan(s, i)->Ok_0.1)),
{
    lemma_run_end_is_maximal(s, i + 1, Run::Comment);
    lemma_run_end_is_maximal(s, i + 1, Run::Space);
    lemma_run_end_is_maximal(s, i + 1, Run::Word);
}

/// A token is found again, with its kind and its length, wherever the same
/// bytes stand in front of a neighbour that closes it.
pub proof fn lemma_scan_transfer(s: Seq<u8>, i: int, o: Seq<u8>, a: int)
    requires
        0 <= i < s.len(),
        scan(s, i) is Ok,
        0 <= a,
        a + (scan(s, i)->Ok_0.1 - i) <= o.len(),
        o.subrange(a, a + (scan(s, i)->Ok_0.1 - i)) == s.subrange(i, scan(s, i)->Ok_0.1),
        closes_token(s[i], byte_at(o, a + (scan(s, i)->Ok_0.1 - i))),
    ensures
        scan(o, a) == Ok::<(TokenKind, int), FormatError>(
            (scan(s, i)->Ok_0.0, a + (scan(s, i)->Ok_0.1 - i)),
        ),
{
    let e = scan(s, i)->Ok_0.1;
    let n = e - i;
    lemma_solid_edges(s, i);
    let t = s.subrange(i, e);
    let u = o.subrange(a, a + n);
    assert forall|j: int| a <= j < a + n implies #[trigger] o[j] == s[j - a + i] by {
        assert(u[j - a] == t[j - a]);
    }
    assert(o[a] == s[i]);
    let b = s[i];
    if is_quote(b) {
        lemma_string_end_transfer(s, b, i + 1, o, a + 1);
    } else if b == NEWLINE || is_punct(b) {
    } else {
        let run = if b == HASH {
            Run::Comment
        } else if is_space(b) {
            Run::Space
        } else {
            Run::Word
        };
        lemma_run_end_is_maximal(s, i + 1, run);
        assert forall|j: int| a + 1 <= j < a + n implies run.holds(#[trigger] o[j]) by {
            assert(o[j] == s[j - a + i]);
        }
        lemma_run_end_unique(o, a + 1, run, a + n);
    }
}

/// The byte that a structural character is written with.
pub open spec fn punct_byte_of(p: Punct) -> u8 {
    match p {
        Punct::OpenBrace => OPEN_BRACE,
        Punct::CloseBrace => CLOSE_BRACE,
        Punct::OpenBracket => OPEN_BRACKET,
        Punct::CloseBracket => CLOSE_BRACKET,
        Punct::OpenParen => OPEN_PAREN,
        Punct::CloseParen => CLOSE_PAREN,
        Punct::Comma => COMMA,
        Punct::Colon => COLON,
    }
}

/// What the bytes of a token of each kind look like.
///
/// A string begins with a quote and ends with the first same quote that no
/// backslash escapes. A comment begins with `#` and holds no line end. A
/// line end is one byte, and so is a structural character. Whitespace is
/// made of blank bytes. A word is made of word bytes, and its kind is the
/// one that its spelling has.
pub open spec fn is_text_of(kind: TokenKind, t: Seq<u8>) -> bool {
    match kind {
        TokenKind::EndOfInput => t.len() == 0,
        TokenKind::String => t.len() >= 2 && is_quote(t[0]) && string_end(t, t[0], 1) == Some(
            t.len() as int,
        ) && t[t.len() - 1] == t[0],
        TokenKind::Comment => t.len() >= 1 && t[0] == HASH && forall|j: int|
            0 <= j < t.len() ==> #[trigger] t[j] != NEWLINE,
        TokenKind::Newline => t == seq![NEWLINE],
        TokenKind::Whitespace => t.len() >= 1 && forall|j: int|
            0 <= j < t.len() ==> is_space(#[trigger] t[j]),
        TokenKind::Punctuation(p) => t == seq![punct_byte_of(p)],
        _ => t.len() >= 1 && classify(t) == kind && forall|j: int|
            0 <= j < t.len() ==> is_word(#[trigger] t[j]),
    }
}

/// The token that the scan finds has the bytes of its kind.
pub proof fn lemma_scan_text(s: Seq<u8>, i: int)
    requires
        0 <= i < s.len(),
        scan(s, i) is Ok,
    ensures
        is_text_of(scan(s, i)->Ok_0.0, s.subrange(i, scan(s, i)->Ok_0.1)),
{
    let kind = scan(s, i)->Ok_0.0;
    let e = scan(s, i)->Ok_0.1;
    let t = s.subrange(i, e);
    let b = s[i];
    lemma_solid_edges(s, i);
    assert(t[0] == b);
    if is_quote(b) {
        lemma_string_end_last(s, b, i + 1);
        assert(t[t.len() - 1] == s[e - 1]);
        assert forall|j: int| 1 <= j < 1 + (e - (i + 1)) implies #[trigger] t[j] == s[j - 1 + (i
            + 1)] by {}
        lemma_string_end_transfer(s, b, i + 1, t, 1);
    } else if b == NEWLINE {
        assert(t =~= seq![NEWLINE]);
    } else if is_punct(b) {
        assert(t =~= seq![punct_byte_of(punct_of(b))]);
    } else {
        let run = if b == HASH {
            Run::Comment
        } else if is_space(b) {
            Run::Space
        } else {
            Run::Word
        };
        lemma_run_end_is_maximal(s, i + 1, run);
        assert forall|j: int| 0 <= j < t.len() implies run.holds(#[trigger] t[j]) by {
            assert(t[j] == s[i + j]);
            if j > 0 {
                assert(run.holds(s[i + j]));
            }
        }
    }
}

/// The tokens follow one another without a gap from position `start` to
/// the end of an input of `len` bytes: each but the last covers at least
/// one byte and ends where the next begins, and the last one, and no
/// other, is the end of the input.
pub open spec fn is_partition(tokens: Seq<Token>, start: int, len: nat) -> bool {
    &&& tokens.len() >= 1
    &&& tokens[0].start == start
    &&& tokens[tokens.len() - 1] == end_token(len)
    &&& forall|k: int|
        0 <= k < tokens.len() - 1 ==> {
            &&& (#[trigger] tokens[k]).kind != TokenKind::EndOfInput
            &&& tokens[k].start < tokens[k].end
        }
    &&& forall|k: int, m: int|
        0 <= k && m == k + 1 && m < tokens.len() ==> (#[trigger] tokens[k]).end
            == (#[trigger] tokens[m]).start
}

/// Every token has the bytes of its kind.
pub open spec fn all_texts(tokens: Seq<Token>, s: Seq<u8>) -> bool {
    forall|k: int|
        0 <= k < tokens.len() ==> is_text_of((#[trigger] tokens[k]).kind, tokens[k].text(s))
}

/// The tokens of an input cover it exactly.
pub proof fn lemma_lex_partitions(s: Seq<u8>, i: int)
    requires
        0 <= i <= s.len() <= usize::MAX,
        lex_from(s, i) is Ok,
    ensures
        is_partition(lex_from(s, i)->Ok_0, i, s.len()),
    decreases s.len() - i,
{
    let tokens = lex_from(s, i)->Ok_0;
    if i < s.len() {
        let found = scan(s, i)->Ok_0;
        lemma_solid_edges(s, i);
        lemma_lex_partitions(s, found.1);
        let rest = lex_from(s, found.1)->Ok_0;
        let token = span_token(found.0, i, found.1);
        assert(tokens == seq![token] + rest);
        assert forall|k: int| 0 <= k < tokens.len() - 1 implies {
            &&& (#[trigger] tokens[k]).kind != TokenKind::EndOfInput
            &&& tokens[k].start < tokens[k].end
        } by {
            if k > 0 {
                assert(tokens[k] == rest[k - 1]);
            }
        }
        assert forall|k: int, m: int| 0 <= k && m == k + 1 && m < tokens.len() implies (
        #[trigger] tokens[k]).end == (#[trigger] tokens[m]).start by {
            assert(tokens[m] == rest[k]);
            if k > 0 {
                assert(tokens[k] == rest[k - 1]);
            }
        }
    }
}

/// Each token of an input has the bytes of its kind.
pub proof fn lemma_lex_texts(s: Seq<u8>, i: int)
    requires
        0 <= i <= s.len() <= usize::MAX,
        lex_from(s, i) is Ok,
    ensures
        all_texts(lex_from(s, i)->Ok_0, s),
    decreases s.len() - i,
{
    let tokens = lex_from(s, i)->Ok_0;
    if i < s.len() {
        let found = scan(s, i)->Ok_0;
        lemma_solid_edges(s, i);
        lemma_lex_texts(s, found.1);
        let rest = lex_from(s, found.1)->Ok_0;
        let token = span_token(found.0, i, found.1);
        assert(tokens == seq![token] + rest);
        assert(is_text_of(token.kind, token.text(s))) by {
            lemma_scan_text(s, i);
            assert(token.text(s) == s.subrange(i, found.1));
        }
        assert forall|k: int| 0 <= k < tokens.len() implies is_text_of(
            (#[trigger] tokens[k]).kind,
            tokens[k].text(s),
        ) by {
            if k > 0 {
                assert(tokens[k] == rest[k - 1]);
            }
        }
    } else {
        assert(tokens[0].text(s) =~= Seq::<u8>::empty());
    }
}

} // verus!
