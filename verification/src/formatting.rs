//! Formatting: tokenize once, then print once.

use vstd::prelude::*;
use crate::bytes::{is_visible, NEWLINE};
use crate::config::Config;
use crate::laws::{
    law_blank_input, law_no_leading_blank, law_tokens_kept, law_trailing_newline,
};
use crate::lexer::{lemma_scan_bounds, lex, lex_from, scan, span_token, tokenize};
use crate::printer::{all_fit, print, render, render_seq};
use crate::scanning::lemma_solid_edges;
use crate::state::State;
use crate::token::{FormatError, Token};

verus! {

/// The canonical form of `s` from position `i` on, for a printer in the
/// state `st`: token after token, each with its separator in front, and the
/// end of the last line behind them; or the first error of the scan.
pub open spec fn format_from(s: Seq<u8>, i: int, st: State, width: nat) -> Result<
    Seq<u8>,
    FormatError,
>
    decreases s.len() - i,
    via format_from_terminates
{
    if i < 0 || i >= s.len() {
        Ok(st.tail())
    } else {
        match scan(s, i) {
            Err(err) => Err(err),
            Ok(found) => if found.0.is_blank() {
                format_from(s, found.1, st.widen(found.0), width)
            } else {
                match format_from(s, found.1, st.step(found.0), width) {
                    Err(err) => Err(err),
                    Ok(rest) => Ok(st.separator(found.0, width) + s.subrange(i, found.1) + rest),
                }
            },
        }
    }
}

#[via_fn]
proof fn format_from_terminates(s: Seq<u8>, i: int, st: State, width: nat) {
    if 0 <= i < s.len() {
        lemma_scan_bounds(s, i);
    }
}

/// The canonical form of the input `s`, printed with indentation levels of
/// `width` spaces, or the error that its tokenizer meets.
pub open spec fn format_spec(s: Seq<u8>, width: nat) -> Result<Seq<u8>, FormatError> {
    format_from(s, 0, State::start(), width)
}

/// An input without a visible byte.
pub open spec fn is_blank_input(s: Seq<u8>) -> bool {
    forall|j: int| 0 <= j < s.len() ==> !is_visible(#[trigger] s[j])
}

/// `t` stands in `o`, byte for byte and without a gap.
pub open spec fn occurs_in(t: Seq<u8>, o: Seq<u8>) -> bool {
    exists|j: int| 0 <= j && j + t.len() <= o.len() && #[trigger] o.subrange(j, j + t.len()) == t
}

/// The tokens of an input lie inside it.
pub proof fn lemma_lex_fits(s: Seq<u8>, i: int)
    requires
        0 <= i <= s.len() <= usize::MAX,
    ensures
        lex_from(s, i) is Ok ==> all_fit(lex_from(s, i)->Ok_0, s.len()),
    decreases s.len() - i,
{
    if i < s.len() {
        lemma_scan_bounds(s, i);
        if scan(s, i) is Ok {
            lemma_lex_fits(s, scan(s, i)->Ok_0.1);
        }
    }
}

/// The canonical form is what the printer makes of the tokenizer's tokens,
/// and the tokenizer's error is the only one.
pub proof fn lemma_format_is_render(s: Seq<u8>, i: int, st: State, width: nat)
    requires
        0 <= i <= s.len() <= usize::MAX,
    ensures
        match lex_from(s, i) {
            Ok(tokens) => format_from(s, i, st, width) == Ok::<Seq<u8>, FormatError>(
                render_seq(s, tokens, st, width),
            ),
            Err(err) => format_from(s, i, st, width) == Err::<Seq<u8>, FormatError>(err),
        },
    decreases s.len() - i,
{
    if i < s.len() {
        if scan(s, i) is Ok {
            let found = scan(s, i)->Ok_0;
            lemma_solid_edges(s, i);
            let next = if found.0.is_blank() {
                st.widen(found.0)
            } else {
                st.step(found.0)
            };
            lemma_format_is_render(s, found.1, next, width);
            if lex_from(s, found.1) is Ok {
                let rest = lex_from(s, found.1)->Ok_0;
                let token = span_token(found.0, i, found.1);
                let tokens = seq![token] + rest;
                assert(tokens[0] == token);
                assert(tokens.drop_first() =~= rest);
                assert(token.text(s) == s.subrange(i, found.1));
            }
        }
    }
}

/// Formats a script. All or nothing: the whole canonical form, or the
/// tokenizer's error.
///
/// The canonical form ends with exactly one line end. Unless the input is
/// blank, it begins with a visible byte. It holds every string, every
/// comment and every other token of the input that is not blank, byte for
/// byte.
pub fn format_inner(contents: &[u8], config: &Config) -> (r: Result<Vec<u8>, FormatError>)
    ensures
        match r {
            Ok(out) => format_spec(contents@, config.tab_spaces as nat) == Ok::<
                Seq<u8>,
                FormatError,
            >(out@),
            Err(err) => format_spec(contents@, config.tab_spaces as nat) == Err::<
                Seq<u8>,
                FormatError,
            >(err),
        },
        r is Ok <==> lex(contents@) is Ok,
        r is Ok ==> r->Ok_0@ == render(
            contents@,
            lex(contents@)->Ok_0,
            config.tab_spaces as nat,
        ),
        r is Err ==> lex(contents@) == Err::<Seq<Token>, FormatError>(r->Err_0),
        r is Ok ==> ({
            let out = r->Ok_0@;
            &&& out.len() >= 1
            &&& out[out.len() - 1] == NEWLINE
            &&& out.len() >= 2 ==> out[out.len() - 2] != NEWLINE
            &&& !is_blank_input(contents@) ==> is_visible(out[0])
            &&& is_blank_input(contents@) ==> out == seq![NEWLINE]
            &&& forall|k: int|
                0 <= k < lex(contents@)->Ok_0.len() && (#[trigger] lex(
                    contents@,
                )->Ok_0[k]).kind.is_solid() ==> occurs_in(
                    lex(contents@)->Ok_0[k].text(contents@),
                    out,
                )
        }),
{
    let len: usize = contents.len();
    let ghost width = config.tab_spaces as nat;
    proof {
        assert(contents@.len() == len);
        lemma_lex_fits(contents@, 0);
        lemma_format_is_render(contents@, 0, State::start(), width);
    }
    match tokenize(contents) {
        Err(err) => Err(err),
        Ok(tokens) => {
            let out = print(contents, &tokens, config);
            proof {
                law_trailing_newline(contents@, width);
                if is_blank_input(contents@) {
                    law_blank_input(contents@, width);
                } else {
                    law_no_leading_blank(contents@, width);
                }
                assert forall|k: int|
                    0 <= k < tokens@.len() && (#[trigger] tokens@[k]).kind.is_solid() implies occurs_in(
                    tokens@[k].text(contents@),
                    out@,
                ) by {
                    law_tokens_kept(contents@, width, k);
                }
            }
            Ok(out)
        },
    }
}

} // verus!
