//! The canonical form of a text is a text: formatting never cuts a
//! character in two.

use vstd::prelude::*;
use vstd::utf8::{
    is_char_boundary, is_char_boundary_iff_not_is_continuation_byte,
    is_char_boundary_start_end_of_seq, is_leading_byte_width_1, length_of_first_scalar,
    partial_valid_utf8, partial_valid_utf8_extend_ascii_block, pop_first_scalar, valid_utf8,
    valid_utf8_concat, valid_utf8_split,
};
use crate::formatting::format_from;
use crate::lexer::scan;
use crate::reprint::lemma_separator_is_blank;
use crate::scanning::{lemma_scan_closes, lemma_scan_text, lemma_solid_edges};
use crate::state::State;
use crate::token::TokenKind;

verus! {

/// Bytes below 128 are a text.
pub proof fn lemma_ascii_is_utf8(t: Seq<u8>)
    requires
        forall|j: int| 0 <= j < t.len() ==> #[trigger] t[j] < 128,
    ensures
        valid_utf8(t),
{
    assert(t.subrange(0, 0) =~= Seq::<u8>::empty());
    assert(partial_valid_utf8(t, 0));
    assert forall|j: int| 0 <= 0 <= j < t.len() <= t.len() implies #[trigger] is_leading_byte_width_1(
        t[j],
    ) by {}
    partial_valid_utf8_extend_ascii_block(t, 0, t.len() as int);
    assert(t.subrange(0, t.len() as int) =~= t);
}

/// In a text, a character begins behind every byte below 128.
pub proof fn lemma_boundary_behind_ascii(t: Seq<u8>, index: int)
    requires
        valid_utf8(t),
        0 < index <= t.len(),
        t[index - 1] < 128,
    ensures
        is_char_boundary(t, index),
    decreases t.len(),
{
    let first = length_of_first_scalar(t);
    let rest = pop_first_scalar(t);
    if index > first {
        assert(rest[index - first - 1] == t[index - 1]);
        lemma_boundary_behind_ascii(rest, index - first);
    } else if index == first {
        assert(is_char_boundary(rest, 0));
    }
}

/// A token of a text ends where a character ends.
pub proof fn lemma_token_ends_character(s: Seq<u8>, i: int)
    requires
        0 <= i < s.len(),
        scan(s, i) is Ok,
        valid_utf8(s.subrange(i, s.len() as int)),
    ensures
        valid_utf8(s.subrange(i, scan(s, i)->Ok_0.1)),
        valid_utf8(s.subrange(scan(s, i)->Ok_0.1, s.len() as int)),
{
    let e = scan(s, i)->Ok_0.1;
    let kind = scan(s, i)->Ok_0.0;
    let u = s.subrange(i, s.len() as int);
    let n = e - i;
    lemma_solid_edges(s, i);
    lemma_scan_closes(s, i);
    lemma_scan_text(s, i);
    if e == s.len() {
        is_char_boundary_start_end_of_seq(u);
    } else {
        assert(u[n] == s[e]);
        assert(u[n - 1] == s[e - 1]);
        let text = s.subrange(i, e);
        assert(text[n - 1] == s[e - 1]);
        if s[e] < 128 {
            is_char_boundary_iff_not_is_continuation_byte(u, n);
        } else {
            assert(s[e - 1] < 128) by {
                match kind {
                    TokenKind::String => {},
                    TokenKind::Newline => {},
                    TokenKind::Punctuation(p) => {},
                    TokenKind::Whitespace => {},
                    _ => {},
                }
            }
            lemma_boundary_behind_ascii(u, n);
        }
    }
    valid_utf8_split(u, n);
    assert(u.subrange(0, n) =~= s.subrange(i, e));
    assert(u.subrange(n, u.len() as int) =~= s.subrange(e, s.len() as int));
}

/// The canonical form of a text is a text.
pub proof fn lemma_format_keeps_utf8(s: Seq<u8>, i: int, st: State, width: nat)
    requires
        0 <= i <= s.len(),
        valid_utf8(s.subrange(i, s.len() as int)),
        format_from(s, i, st, width) is Ok,
    ensures
        valid_utf8(format_from(s, i, st, width)->Ok_0),
    decreases s.len() - i,
{
    if i >= s.len() {
        lemma_ascii_is_utf8(st.tail());
    } else {
        let kind = scan(s, i)->Ok_0.0;
        let e = scan(s, i)->Ok_0.1;
        lemma_solid_edges(s, i);
        lemma_token_ends_character(s, i);
        if kind.is_blank() {
            lemma_format_keeps_utf8(s, e, st.widen(kind), width);
        } else {
            let sep = st.separator(kind, width);
            let text = s.subrange(i, e);
            let rest = format_from(s, e, st.step(kind), width)->Ok_0;
            lemma_format_keeps_utf8(s, e, st.step(kind), width);
            lemma_separator_is_blank(st, kind, width);
            lemma_ascii_is_utf8(sep);
            valid_utf8_concat(sep, text);
            valid_utf8_concat(sep + text, rest);
        }
    }
}

} // verus!
