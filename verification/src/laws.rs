//! What holds of every canonical form.

use vstd::prelude::*;
use vstd::utf8::valid_utf8;
use crate::bytes::{is_visible, NEWLINE};
use crate::encoding::lemma_format_keeps_utf8;
use crate::formatting::{
    format_from, format_spec, is_blank_input, lemma_format_is_render, lemma_lex_fits, occurs_in,
};
use crate::lexer::{lemma_scan_bounds, lex, lex_from, scan, Run};
use crate::printer::render_seq;
use crate::reprint::lemma_reformat;
use crate::scanning::{
    all_texts, is_partition, lemma_lex_partitions, lemma_lex_texts, lemma_run_end_is_maximal,
    lemma_solid_edges,
};
use crate::state::{line_end, Last, State};
use crate::token::{FormatError, Token, TokenKind};

verus! {

/// From any position and in any state, what is printed ends with one line
/// end.
proof fn lemma_ends_line(s: Seq<u8>, i: int, st: State, width: nat)
    requires
        0 <= i <= s.len(),
        format_from(s, i, st, width) is Ok,
    ensures
        ({
            let r = format_from(s, i, st, width)->Ok_0;
            &&& r.len() >= 1
            &&& r[r.len() - 1] == NEWLINE
            &&& r.len() >= 2 ==> r[r.len() - 2] != NEWLINE
        }),
    decreases s.len() - i,
{
    let r = format_from(s, i, st, width)->Ok_0;
    if i >= s.len() {
        assert(r == st.tail());
    } else {
        let found = scan(s, i)->Ok_0;
        lemma_solid_edges(s, i);
        if found.0.is_blank() {
            lemma_ends_line(s, found.1, st.widen(found.0), width);
        } else {
            let sep = st.separator(found.0, width);
            let text = s.subrange(i, found.1);
            let rest = format_from(s, found.1, st.step(found.0), width)->Ok_0;
            lemma_ends_line(s, found.1, st.step(found.0), width);
            assert(r == sep + text + rest);
            assert(r[r.len() - 1] == rest[rest.len() - 1]);
            if rest.len() >= 2 {
                assert(r[r.len() - 2] == rest[rest.len() - 2]);
            } else {
                assert(r[r.len() - 2] == text[text.len() - 1]);
            }
        }
    }
}

/// As long as nothing has been printed, blanks print nothing: the output
/// begins with the first visible byte of the input.
proof fn lemma_starts_visible(s: Seq<u8>, i: int, st: State, width: nat, j: int)
    requires
        0 <= i <= j < s.len(),
        is_visible(s[j]),
        st.last == Last::Start,
        format_from(s, i, st, width) is Ok,
    ensures
        format_from(s, i, st, width)->Ok_0.len() > 0,
        is_visible(format_from(s, i, st, width)->Ok_0[0]),
    decreases s.len() - i,
{
    let r = format_from(s, i, st, width)->Ok_0;
    let found = scan(s, i)->Ok_0;
    lemma_solid_edges(s, i);
    if found.0.is_blank() {
        lemma_run_end_is_maximal(s, i + 1, Run::Space);
        assert(found.1 <= j) by {
            if j < found.1 && j > i {
                assert(Run::Space.holds(s[j]));
            }
        }
        lemma_starts_visible(s, found.1, st.widen(found.0), width, j);
    } else {
        let text = s.subrange(i, found.1);
        let rest = format_from(s, found.1, st.step(found.0), width)->Ok_0;
        assert(r == st.separator(found.0, width) + text + rest);
        assert(r[0] == text[0]);
    }
}

/// Blanks alone print nothing but the end of the output.
proof fn lemma_blank_prints_nothing(s: Seq<u8>, i: int, st: State, width: nat)
    requires
        0 <= i <= s.len(),
        forall|j: int| i <= j < s.len() ==> !is_visible(#[trigger] s[j]),
    ensures
        format_from(s, i, st, width) == Ok::<Seq<u8>, FormatError>(st.tail()),
    decreases s.len() - i,
{
    if i < s.len() {
        assert(!is_visible(s[i]));
        lemma_scan_bounds(s, i);
        let found = scan(s, i)->Ok_0;
        lemma_blank_prints_nothing(s, found.1, st.widen(found.0), width);
    }
}

/// Only the last token is the end of the input.
proof fn lemma_lex_ends_once(s: Seq<u8>, i: int)
    requires
        0 <= i <= s.len(),
        lex_from(s, i) is Ok,
    ensures
        forall|m: int|
            0 <= m < lex_from(s, i)->Ok_0.len() - 1 ==> (#[trigger] lex_from(s, i)->Ok_0[m]).kind
                != TokenKind::EndOfInput,
    decreases s.len() - i,
{
    if i < s.len() {
        lemma_solid_edges(s, i);
        lemma_lex_ends_once(s, scan(s, i)->Ok_0.1);
    }
}

/// The printer copies every token that is not blank and stands in front
/// of the end of the input.
proof fn lemma_render_keeps(s: Seq<u8>, tokens: Seq<Token>, st: State, width: nat, k: int)
    requires
        0 <= k < tokens.len(),
        forall|m: int| 0 <= m <= k ==> (#[trigger] tokens[m]).kind != TokenKind::EndOfInput,
        !tokens[k].kind.is_blank(),
        forall|m: int| 0 <= m < tokens.len() ==> (#[trigger] tokens[m]).fits(s.len()),
    ensures
        occurs_in(tokens[k].text(s), render_seq(s, tokens, st, width)),
    decreases k,
{
    let r = render_seq(s, tokens, st, width);
    let kind = tokens[0].kind;
    let t = tokens[k].text(s);
    if k == 0 {
        let sep = st.separator(kind, width);
        let rest = render_seq(s, tokens.drop_first(), st.step(kind), width);
        let j = sep.len() as int;
        assert(r.subrange(j, j + t.len()) =~= t);
    } else {
        let tail = tokens.drop_first();
        assert(tail[k - 1] == tokens[k]);
        assert forall|m: int| 0 <= m <= k - 1 implies (#[trigger] tail[m]).kind
            != TokenKind::EndOfInput by {
            assert(tail[m] == tokens[m + 1]);
        }
        assert forall|m: int| 0 <= m < tail.len() implies (#[trigger] tail[m]).fits(s.len()) by {
            assert(tail[m] == tokens[m + 1]);
        }
        let next = if kind.is_blank() {
            st.widen(kind)
        } else {
            st.step(kind)
        };
        lemma_render_keeps(s, tail, next, width, k - 1);
        let sub = render_seq(s, tail, next, width);
        let j0 = choose|j: int|
            0 <= j && j + t.len() <= sub.len() && #[trigger] sub.subrange(j, j + t.len()) == t;
        let shift = r.len() - sub.len();
        assert(tokens[0].kind != TokenKind::EndOfInput);
        assert(r.subrange(shift + j0, shift + j0 + t.len()) =~= sub.subrange(j0, j0 + t.len()));
    }
}

/// Formatting is idempotent: the canonical form of an input is its own
/// canonical form.
pub proof fn law_idempotent(s: Seq<u8>, width: nat)
    requires
        format_spec(s, width) is Ok,
    ensures
        format_spec(format_spec(s, width)->Ok_0, width) == format_spec(s, width),
{
    let o = format_spec(s, width)->Ok_0;
    lemma_reformat(s, 0, State::start(), width, Seq::empty());
    assert(Seq::<u8>::empty() + o =~= o);
}

/// The canonical form ends with exactly one line end: its last byte is a
/// line end, and the byte before it, if there is one, is not.
pub proof fn law_trailing_newline(s: Seq<u8>, width: nat)
    requires
        format_spec(s, width) is Ok,
    ensures
        ({
            let o = format_spec(s, width)->Ok_0;
            &&& o.len() >= 1
            &&& o[o.len() - 1] == NEWLINE
            &&& o.len() >= 2 ==> o[o.len() - 2] != NEWLINE
        }),
{
    lemma_ends_line(s, 0, State::start(), width);
}

/// The canonical form of an input with a visible byte begins with a visible
/// byte: no blank line and no indentation stands in front.
pub proof fn law_no_leading_blank(s: Seq<u8>, width: nat)
    requires
        format_spec(s, width) is Ok,
        !is_blank_input(s),
    ensures
        format_spec(s, width)->Ok_0.len() > 0,
        is_visible(format_spec(s, width)->Ok_0[0]),
{
    let j = choose|j: int| 0 <= j < s.len() && is_visible(#[trigger] s[j]);
    lemma_starts_visible(s, 0, State::start(), width, j);
}

/// The canonical form of an input without a visible byte is one line end.
pub proof fn law_blank_input(s: Seq<u8>, width: nat)
    requires
        is_blank_input(s),
    ensures
        format_spec(s, width) == Ok::<Seq<u8>, FormatError>(seq![NEWLINE]),
{
    lemma_blank_prints_nothing(s, 0, State::start(), width);
    assert(State::start().tail() =~= seq![NEWLINE]);
}

/// Strings and comments are kept: where the input has a token that is not
/// blank, the canonical form holds the token's bytes as they stand in the
/// input.
pub proof fn law_tokens_kept(s: Seq<u8>, width: nat, k: int)
    requires
        s.len() <= usize::MAX,
        lex(s) is Ok,
        0 <= k < lex(s)->Ok_0.len(),
        lex(s)->Ok_0[k].kind.is_solid(),
    ensures
        format_spec(s, width) is Ok,
        occurs_in(lex(s)->Ok_0[k].text(s), format_spec(s, width)->Ok_0),
{
    let tokens = lex(s)->Ok_0;
    lemma_format_is_render(s, 0, State::start(), width);
    lemma_lex_ends_once(s, 0);
    lemma_lex_fits(s, 0);
    assert forall|m: int| 0 <= m <= k implies (#[trigger] tokens[m]).kind
        != TokenKind::EndOfInput by {
        if m == tokens.len() - 1 {
            assert(m == k);
        }
    }
    lemma_render_keeps(s, tokens, State::start(), width, k);
}

/// The tokens of an input cover it exactly, in order and without a gap,
/// and each has the bytes of its kind: a string runs from its quote to the
/// matching quote, a comment from `#` to the end of its line.
pub proof fn law_tokens_cover_input(s: Seq<u8>)
    requires
        s.len() <= usize::MAX,
        lex(s) is Ok,
    ensures
        is_partition(lex(s)->Ok_0, 0, s.len()),
        all_texts(lex(s)->Ok_0, s),
{
    lemma_lex_partitions(s, 0);
    lemma_lex_texts(s, 0);
}

/// An input that is one token and nothing else is printed as it stands,
/// with the end of its line behind it: a number, a boolean, null or a
/// string is followed by one line end.
pub proof fn law_lone_token(s: Seq<u8>, width: nat)
    requires
        s.len() > 0,
        scan(s, 0) is Ok,
        scan(s, 0)->Ok_0.1 == s.len(),
        !scan(s, 0)->Ok_0.0.is_blank(),
    ensures
        format_spec(s, width) == Ok::<Seq<u8>, FormatError>(
            s + line_end(scan(s, 0)->Ok_0.0.as_last()) + seq![NEWLINE],
        ),
{
    let kind = scan(s, 0)->Ok_0.0;
    let st = State::start();
    assert(s.subrange(0, s.len() as int) =~= s);
    assert(format_from(s, s.len() as int, st.step(kind), width) == Ok::<Seq<u8>, FormatError>(
        st.step(kind).tail(),
    ));
    assert(st.separator(kind, width) + s + st.step(kind).tail() =~= s + line_end(kind.as_last())
        + seq![NEWLINE]);
}

/// The canonical form of a text is a text: where the input is valid UTF-8,
/// so is the output.
pub proof fn law_text_stays_text(s: Seq<u8>, width: nat)
    requires
        valid_utf8(s),
        format_spec(s, width) is Ok,
    ensures
        valid_utf8(format_spec(s, width)->Ok_0),
{
    assert(s.subrange(0, s.len() as int) =~= s);
    lemma_format_keeps_utf8(s, 0, State::start(), width);
}

} // verus!
