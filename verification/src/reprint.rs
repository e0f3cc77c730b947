//! Why formatting twice is formatting once: the canonical form, scanned
//! again, yields the same tokens with the same gaps between them.

use vstd::prelude::*;
use crate::bytes::{is_punct, is_quote, is_space, is_word, HASH, NEWLINE, SPACE};
use crate::formatting::format_from;
use crate::lexer::{lemma_scan_bounds, scan, Run};
use crate::scanning::{
    byte_at, closes_token, lemma_run_end_unique, lemma_scan_closes, lemma_scan_transfer,
    lemma_solid_edges,
};
use crate::state::{indent, line_end, spaces, Gap, Last, State};
use crate::token::{FormatError, TokenKind};

verus! {

/// An indentation is made of spaces.
pub proof fn lemma_indent_is_spaces(depth: nat, width: nat)
    ensures
        forall|j: int| 0 <= j < indent(depth, width).len() ==> #[trigger] indent(depth, width)[j]
            == SPACE,
    decreases depth,
{
    if depth > 0 {
        lemma_indent_is_spaces((depth - 1) as nat, width);
        let inner = indent((depth - 1) as nat, width);
        assert forall|j: int| 0 <= j < indent(depth, width).len() implies #[trigger] indent(
            depth,
            width,
        )[j] == SPACE by {
            if j < inner.len() {
                assert(inner[j] == SPACE);
            } else {
                assert(spaces(width)[j - inner.len()] == SPACE);
            }
        }
    }
}

/// Scanning skips a line end and notes it.
pub proof fn lemma_skip_newline(o: Seq<u8>, a: int, st: State, width: nat)
    requires
        0 <= a < o.len(),
        o[a] == NEWLINE,
    ensures
        format_from(o, a, st, width) == format_from(
            o,
            a + 1,
            st.widen(TokenKind::Newline),
            width,
        ),
{
}

/// Scanning skips a run of spaces in front of a byte that is no blank, and
/// notes it.
pub proof fn lemma_skip_spaces(o: Seq<u8>, a: int, m: int, st: State, width: nat)
    requires
        0 <= a,
        1 <= m,
        a + m <= o.len(),
        forall|j: int| a <= j < a + m ==> #[trigger] o[j] == SPACE,
        a + m < o.len() ==> !is_space(o[a + m]),
    ensures
        format_from(o, a, st, width) == format_from(
            o,
            a + m,
            st.widen(TokenKind::Whitespace),
            width,
        ),
{
    assert(o[a] == SPACE);
    assert forall|j: int| a + 1 <= j < a + m implies Run::Space.holds(#[trigger] o[j]) by {
        assert(o[j] == SPACE);
    }
    lemma_run_end_unique(o, a + 1, Run::Space, a + m);
}

impl State {
    /// The state with no gap noted: what the printer is in right behind a
    /// token.
    pub open spec fn settled(self) -> State {
        State { gap: Gap::Touching, ..self }
    }

    /// The gap that a scan finds where this state's separator in front of a
    /// token of kind `kind` stands.
    pub open spec fn printed_gap(self, kind: TokenKind) -> Gap {
        if self.last == Last::Start {
            Gap::Touching
        } else if self.literal > 0 {
            if self.last == Last::Comment {
                Gap::NewLine
            } else if self.gap != Gap::Touching && self.last != Last::Tight
                && !kind.is_structural() {
                Gap::Spaced
            } else {
                Gap::Touching
            }
        } else {
            self.reach()
        }
    }

    /// The state of a printer that has scanned this state's separator.
    pub open spec fn landed(self, kind: TokenKind) -> State {
        State { gap: self.printed_gap(kind), ..self }
    }
}

/// The separator does not depend on how wide the gap was: a printer that
/// finds the printed separator as its gap prints the same separator and
/// goes on in the same state.
pub proof fn lemma_landed_prints_alike(st: State, kind: TokenKind, width: nat)
    ensures
        st.landed(kind).separator(kind, width) == st.separator(kind, width),
        st.landed(kind).step(kind) == st.step(kind),
{
}

/// Scanning the separator brings the printer from the state behind the last
/// token to the landed state.
pub proof fn lemma_skip_separator(
    o: Seq<u8>,
    a: int,
    st: State,
    kind: TokenKind,
    width: nat,
)
    requires
        0 <= a,
        a + st.separator(kind, width).len() < o.len(),
        o.subrange(a, a + st.separator(kind, width).len()) == st.separator(kind, width),
        !is_space(o[a + st.separator(kind, width).len()]),
        o[a + st.separator(kind, width).len()] != NEWLINE,
    ensures
        format_from(o, a, st.settled(), width) == format_from(
            o,
            a + st.separator(kind, width).len(),
            st.landed(kind),
            width,
        ),
{
    let sep = st.separator(kind, width);
    let got = o.subrange(a, a + sep.len());
    assert forall|j: int| 0 <= j < sep.len() implies o[a + j] == sep[j] by {
        assert(got[j] == sep[j]);
    }
    let st0 = st.settled();
    if st.last == Last::Start {
        assert(st.landed(kind) == st0);
    } else if st.literal > 0 {
        if st.last == Last::Comment {
            assert(o[a + 0] == sep[0]);
            lemma_skip_newline(o, a, st0, width);
        } else if st.gap != Gap::Touching && st.last != Last::Tight && !kind.is_structural() {
            assert(o[a + 0] == sep[0]);
            lemma_skip_spaces(o, a, 1, st0, width);
        } else {
            assert(st.landed(kind) == st0);
        }
    } else {
        match st.reach() {
            Gap::Touching => {
                assert(st.landed(kind) == st0);
            },
            Gap::Spaced => {
                assert(o[a + 0] == sep[0]);
                lemma_skip_spaces(o, a, 1, st0, width);
            },
            Gap::NewLine => {
                let p = line_end(st.last).len() as int;
                let ind = indent(st.level(kind), width);
                let m = ind.len() as int;
                lemma_indent_is_spaces(st.level(kind), width);
                assert(sep.len() == p + 1 + m);
                assert(o[a + p] == sep[p]);
                assert(o[a + p] == NEWLINE);
                let st1 = if p == 1 {
                    st0.widen(TokenKind::Whitespace)
                } else {
                    st0
                };
                if p == 1 {
                    assert(o[a + 0] == sep[0]);
                    lemma_skip_spaces(o, a, 1, st0, width);
                }
                lemma_skip_newline(o, a + p, st1, width);
                let st2 = st1.widen(TokenKind::Newline);
                if m > 0 {
                    assert forall|j: int| a + p + 1 <= j < a + p + 1 + m implies #[trigger] o[j]
                        == SPACE by {
                        assert(o[a + (j - a)] == sep[j - a]);
                        assert(sep[j - a] == ind[j - a - p - 1]);
                    }
                    lemma_skip_spaces(o, a + p + 1, m, st2, width);
                    assert(st2.widen(TokenKind::Whitespace) == st.landed(kind));
                } else {
                    assert(st2 == st.landed(kind));
                }
            },
        }
    }
}

/// A separator is made of blanks; it starts with a line end behind a
/// comment.
pub proof fn lemma_separator_is_blank(st: State, kind: TokenKind, width: nat)
    ensures
        forall|j: int|
            0 <= j < st.separator(kind, width).len() ==> {
                let b = #[trigger] st.separator(kind, width)[j];
                b == SPACE || b == NEWLINE
            },
        st.last == Last::Comment ==> st.separator(kind, width).len() > 0 && st.separator(
            kind,
            width,
        )[0] == NEWLINE,
{
    lemma_indent_is_spaces(st.level(kind), width);
    let sep = st.separator(kind, width);
    if st.last != Last::Start && st.literal == 0 && st.reach() == Gap::NewLine {
        let p = line_end(st.last).len() as int;
        let ind = indent(st.level(kind), width);
        assert forall|j: int| 0 <= j < sep.len() implies {
            let b = #[trigger] sep[j];
            b == SPACE || b == NEWLINE
        } by {
            if j > p {
                assert(sep[j] == ind[j - p - 1]);
            }
        }
    }
}

/// The first byte of a token that is not blank.
pub open spec fn is_solid_byte(b: u8) -> bool {
    is_quote(b) || is_punct(b) || b == HASH || is_word(b)
}

/// A token that is not blank begins with a byte that is not blank, and the
/// state behind it tells a comment and a word from the rest.
pub proof fn lemma_first_byte_is_solid(s: Seq<u8>, i: int)
    requires
        0 <= i < s.len(),
        scan(s, i) is Ok,
        !scan(s, i)->Ok_0.0.is_blank(),
    ensures
        is_solid_byte(s[i]),
        s[i] == HASH ==> scan(s, i)->Ok_0.0.as_last() == Last::Comment,
        is_word(s[i]) ==> scan(s, i)->Ok_0.0.as_last() == Last::Plain,
{
}

/// What the printer prints behind a token closes it: behind a comment
/// stands a line end, and behind a word stands no word byte. `first` is the
/// first byte of that token, and `st` the state in which the printer reaches
/// position `j` behind it.
pub proof fn lemma_output_closes(s: Seq<u8>, j: int, st: State, width: nat, first: u8)
    requires
        0 <= j <= s.len(),
        format_from(s, j, st, width) is Ok,
        is_solid_byte(first),
        first == HASH ==> st.last == Last::Comment,
        is_word(first) ==> st.last == Last::Plain,
        is_word(first) && st.gap == Gap::Touching ==> closes_token(first, byte_at(s, j)),
    ensures
        format_from(s, j, st, width)->Ok_0.len() > 0,
        closes_token(first, Some(format_from(s, j, st, width)->Ok_0[0])),
    decreases s.len() - j,
{
    let r = format_from(s, j, st, width)->Ok_0;
    if j >= s.len() {
        assert(r == st.tail());
    } else {
        let found = scan(s, j)->Ok_0;
        lemma_solid_edges(s, j);
        if found.0.is_blank() {
            lemma_output_closes(s, found.1, st.widen(found.0), width, first);
        } else {
            let sep = st.separator(found.0, width);
            let text = s.subrange(j, found.1);
            let rest = format_from(s, found.1, st.step(found.0), width)->Ok_0;
            assert(r == sep + text + rest);
            lemma_separator_is_blank(st, found.0, width);
            if sep.len() > 0 {
                assert(r[0] == sep[0]);
            } else {
                assert(r[0] == text[0]);
                assert(text[0] == s[j]);
            }
        }
    }
}

/// The end of the output, scanned again, is printed as it stands.
pub proof fn lemma_rescan_tail(o: Seq<u8>, a: int, st: State, width: nat)
    requires
        0 <= a,
        o.len() == a + st.tail().len(),
        o.subrange(a, o.len() as int) == st.tail(),
    ensures
        format_from(o, a, st.settled(), width) == Ok::<Seq<u8>, FormatError>(st.tail()),
{
    let tail = st.tail();
    let p = line_end(st.last).len() as int;
    let got = o.subrange(a, o.len() as int);
    assert(got[p] == tail[p]);
    assert(o[a + p] == NEWLINE);
    let st0 = st.settled();
    let st1 = if p == 1 {
        st0.widen(TokenKind::Whitespace)
    } else {
        st0
    };
    if p == 1 {
        assert(got[0] == tail[0]);
        assert(o[a] == SPACE);
        lemma_skip_spaces(o, a, 1, st0, width);
    }
    lemma_skip_newline(o, a + p, st1, width);
    let st2 = st1.widen(TokenKind::Newline);
    assert(format_from(o, a + p + 1, st2, width) == Ok::<Seq<u8>, FormatError>(st2.tail()));
}

/// A token of the output, scanned again with its separator, is printed as
/// it stands, if what follows it is.
pub proof fn lemma_rescan_token(
    s: Seq<u8>,
    i: int,
    st: State,
    width: nat,
    o: Seq<u8>,
    a: int,
    rest: Seq<u8>,
)
    requires
        0 <= i < s.len(),
        scan(s, i) is Ok,
        !scan(s, i)->Ok_0.0.is_blank(),
        0 <= a,
        rest.len() > 0,
        o.subrange(a, o.len() as int) == st.separator(scan(s, i)->Ok_0.0, width) + s.subrange(
            i,
            scan(s, i)->Ok_0.1,
        ) + rest,
        o.len() == a + st.separator(scan(s, i)->Ok_0.0, width).len() + (scan(s, i)->Ok_0.1 - i)
            + rest.len(),
        closes_token(s[i], Some(rest[0])),
        format_from(
            o,
            o.len() - rest.len(),
            st.step(scan(s, i)->Ok_0.0),
            width,
        ) == Ok::<Seq<u8>, FormatError>(rest),
    ensures
        format_from(o, a, st.settled(), width) == Ok::<Seq<u8>, FormatError>(
            o.subrange(a, o.len() as int),
        ),
{
    let kind = scan(s, i)->Ok_0.0;
    let e = scan(s, i)->Ok_0.1;
    lemma_solid_edges(s, i);
    let sep = st.separator(kind, width);
    let text = s.subrange(i, e);
    let n = e - i;
    let b = a + sep.len();
    let r = o.subrange(a, o.len() as int);
    assert(r == sep + text + rest);
    assert(o.subrange(b, b + n) =~= text) by {
        assert forall|j: int| 0 <= j < n implies o.subrange(b, b + n)[j] == text[j] by {
            assert(r[b - a + j] == text[j]);
        }
    }
    assert(o[b + n] == rest[0]) by {
        assert(r[b - a + n] == rest[0]);
    }
    lemma_scan_transfer(s, i, o, b);
    assert(o.subrange(a, a + sep.len()) =~= sep) by {
        assert forall|j: int| 0 <= j < sep.len() implies o.subrange(a, a + sep.len())[j]
            == sep[j] by {
            assert(r[j] == sep[j]);
        }
    }
    assert(o[b] == s[i]) by {
        assert(r[b - a] == text[0]);
    }
    lemma_skip_separator(o, a, st, kind, width);
    lemma_landed_prints_alike(st, kind, width);
}

/// One step of the proof below: a token that is not blank, where what
/// follows it prints itself.
proof fn lemma_reformat_token(s: Seq<u8>, i: int, st: State, width: nat, pre: Seq<u8>)
    requires
        0 <= i < s.len(),
        format_from(s, i, st, width) is Ok,
        scan(s, i) is Ok,
        !scan(s, i)->Ok_0.0.is_blank(),
        format_from(s, scan(s, i)->Ok_0.1, st.step(scan(s, i)->Ok_0.0), width) is Ok,
        ({
            let kind = scan(s, i)->Ok_0.0;
            let e = scan(s, i)->Ok_0.1;
            let rest = format_from(s, e, st.step(kind), width)->Ok_0;
            let head = pre + st.separator(kind, width) + s.subrange(i, e);
            format_from(head + rest, head.len() as int, st.step(kind), width) == Ok::<
                Seq<u8>,
                FormatError,
            >(rest)
        }),
    ensures
        format_from(
            pre + format_from(s, i, st, width)->Ok_0,
            pre.len() as int,
            st.settled(),
            width,
        ) == format_from(s, i, st, width),
{
    let kind = scan(s, i)->Ok_0.0;
    let e = scan(s, i)->Ok_0.1;
    let next = st.step(kind);
    let rest = format_from(s, e, next, width)->Ok_0;
    let sep = st.separator(kind, width);
    let text = s.subrange(i, e);
    let head = pre + sep + text;
    let r = format_from(s, i, st, width)->Ok_0;
    let o = pre + r;
    let a = pre.len() as int;
    lemma_scan_bounds(s, i);
    assert(r == sep + text + rest);
    assert(head + rest =~= o);
    assert(o.subrange(a, o.len() as int) =~= r);
    assert(head.len() == o.len() - rest.len());
    lemma_scan_closes(s, i);
    lemma_first_byte_is_solid(s, i);
    lemma_output_closes(s, e, next, width, s[i]);
    lemma_rescan_token(s, i, st, width, o, a, rest);
}

/// The canonical form is canonical wherever it stands: scanned again from
/// the state in which it was printed, it prints itself.
pub proof fn lemma_reformat(s: Seq<u8>, i: int, st: State, width: nat, pre: Seq<u8>)
    requires
        0 <= i <= s.len(),
        format_from(s, i, st, width) is Ok,
    ensures
        format_from(
            pre + format_from(s, i, st, width)->Ok_0,
            pre.len() as int,
            st.settled(),
            width,
        ) == format_from(s, i, st, width),
    decreases s.len() - i,
{
    if i >= s.len() {
        let o = pre + st.tail();
        assert(o.subrange(pre.len() as int, o.len() as int) =~= st.tail());
        lemma_rescan_tail(o, pre.len() as int, st, width);
    } else {
        let kind = scan(s, i)->Ok_0.0;
        let e = scan(s, i)->Ok_0.1;
        lemma_scan_bounds(s, i);
        if kind.is_blank() {
            lemma_reformat(s, e, st.widen(kind), width, pre);
        } else {
            let next = st.step(kind);
            let head = pre + st.separator(kind, width) + s.subrange(i, e);
            lemma_reformat(s, e, next, width, head);
            assert(next.settled() == next);
            lemma_reformat_token(s, i, st, width, pre);
        }
    }
}

} // verus!
