//! The classes of words: numbers, booleans, null, keywords and identifiers.

use vstd::prelude::*;
use crate::bytes::{digit_byte, is_digit, DOT, MINUS};
use crate::token::TokenKind;

verus! {

/// A number: an optional minus sign, a digit, and then digits and decimal
/// points only.
pub open spec fn is_number(t: Seq<u8>) -> bool {
    let d: int = if t.len() > 0 && t[0] == MINUS {
        1
    } else {
        0
    };
    &&& d < t.len()
    &&& is_digit(t[d])
    &&& forall|j: int| d <= j < t.len() ==> is_digit(#[trigger] t[j]) || t[j] == DOT
}

/// `true` or `false`.
pub open spec fn is_boolean(t: Seq<u8>) -> bool {
    t == seq![116u8, 114u8, 117u8, 101u8] || t == seq![102u8, 97u8, 108u8, 115u8, 101u8]
}

/// `null`.
pub open spec fn is_null(t: Seq<u8>) -> bool {
    t == seq![110u8, 117u8, 108u8, 108u8]
}

/// One of the reserved words `let`, `mut`, `def`, `if`, `else`, `for`, `in`,
/// `while`, `loop`, `match`, `const`, `return`.
pub open spec fn is_keyword(t: Seq<u8>) -> bool {
    ||| t == seq![108u8, 101u8, 116u8]
    ||| t == seq![109u8, 117u8, 116u8]
    ||| t == seq![100u8, 101u8, 102u8]
    ||| t == seq![105u8, 102u8]
    ||| t == seq![101u8, 108u8, 115u8, 101u8]
    ||| t == seq![102u8, 111u8, 114u8]
    ||| t == seq![105u8, 110u8]
    ||| t == seq![119u8, 104u8, 105u8, 108u8, 101u8]
    ||| t == seq![108u8, 111u8, 111u8, 112u8]
    ||| t == seq![109u8, 97u8, 116u8, 99u8, 104u8]
    ||| t == seq![99u8, 111u8, 110u8, 115u8, 116u8]
    ||| t == seq![114u8, 101u8, 116u8, 117u8, 114u8, 110u8]
}

/// The kind of a word. The reserved spellings are looked at before the word
/// is taken for an identifier.
pub open spec fn classify(t: Seq<u8>) -> TokenKind {
    if is_number(t) {
        TokenKind::Number
    } else if is_boolean(t) {
        TokenKind::Boolean
    } else if is_null(t) {
        TokenKind::Null
    } else if is_keyword(t) {
        TokenKind::Keyword
    } else {
        TokenKind::Identifier
    }
}

/// Whether the bytes `start..end` of `input` spell `word`.
pub fn span_is(input: &[u8], start: usize, end: usize, word: &[u8]) -> (r: bool)
    requires
        start <= end <= input@.len(),
    ensures
        r == (input@.subrange(start as int, end as int) == word@),
{
    if end - start != word.len() {
        return false;
    }
    let n: usize = word.len();
    let mut j: usize = 0;
    while j < n
        invariant
            start <= end <= input@.len(),
            n == word@.len(),
            n == end - start,
            j <= n,
            forall|k: int| 0 <= k < j ==> input@[start + k] == word@[k],
        decreases n - j,
    {
        if input[start + j] != word[j] {
            assert(input@.subrange(start as int, end as int)[j as int] != word@[j as int]);
            return false;
        }
        j += 1;
    }
    assert(input@.subrange(start as int, end as int) =~= word@);
    true
}

/// Whether the bytes `start..end` of `input` are a number.
pub fn number_span(input: &[u8], start: usize, end: usize) -> (r: bool)
    requires
        start <= end <= input@.len(),
    ensures
        r == is_number(input@.subrange(start as int, end as int)),
{
    let ghost t = input@.subrange(start as int, end as int);
    let mut j: usize = start;
    if start < end && input[start] == MINUS {
        j = start + 1;
    }
    let ghost d: int = j - start;
    assert(t.len() > 0 ==> t[0] == input@[start as int]);
    assert(d == if t.len() > 0 && t[0] == MINUS { 1int } else { 0int });
    if j >= end || !digit_byte(input[j]) {
        assert(j < end ==> t[d] == input@[j as int]);
        return false;
    }
    assert(t[d] == input@[j as int]);
    while j < end
        invariant
            start <= j <= end <= input@.len(),
            t == input@.subrange(start as int, end as int),
            0 <= d <= j - start,
            d == if t.len() > 0 && t[0] == MINUS { 1int } else { 0int },
            d < t.len() && is_digit(t[d]),
            forall|k: int| d <= k < j - start ==> is_digit(#[trigger] t[k]) || t[k] == DOT,
        decreases end - j,
    {
        let b: u8 = input[j];
        if !digit_byte(b) && b != DOT {
            assert(t[j - start] == b);
            return false;
        }
        assert(t[j - start] == b);
        j += 1;
    }
    true
}

/// The kind of the word that the bytes `start..end` of `input` spell.
pub fn classify_span(input: &[u8], start: usize, end: usize) -> (kind: TokenKind)
    requires
        start <= end <= input@.len(),
    ensures
        kind == classify(input@.subrange(start as int, end as int)),
{
    let w_true: [u8; 4] = [116, 114, 117, 101];
    let w_false: [u8; 5] = [102, 97, 108, 115, 101];
    let w_null: [u8; 4] = [110, 117, 108, 108];
    let w_let: [u8; 3] = [108, 101, 116];
    let w_mut: [u8; 3] = [109, 117, 116];
    let w_def: [u8; 3] = [100, 101, 102];
    let w_if: [u8; 2] = [105, 102];
    let w_else: [u8; 4] = [101, 108, 115, 101];
    let w_for: [u8; 3] = [102, 111, 114];
    let w_in: [u8; 2] = [105, 110];
    let w_while: [u8; 5] = [119, 104, 105, 108, 101];
    let w_loop: [u8; 4] = [108, 111, 111, 112];
    let w_match: [u8; 5] = [109, 97, 116, 99, 104];
    let w_const: [u8; 5] = [99, 111, 110, 115, 116];
    let w_return: [u8; 6] = [114, 101, 116, 117, 114, 110];
    if number_span(input, start, end) {
        TokenKind::Number
    } else if span_is(input, start, end, w_true.as_slice()) || span_is(
        input,
        start,
        end,
        w_false.as_slice(),
    ) {
        TokenKind::Boolean
    } else if span_is(input, start, end, w_null.as_slice()) {
        TokenKind::Null
    } else if span_is(input, start, end, w_let.as_slice()) || span_is(
        input,
        start,
        end,
        w_mut.as_slice(),
    ) || span_is(input, start, end, w_def.as_slice()) || span_is(
        input,
        start,
        end,
        w_if.as_slice(),
    ) || span_is(input, start, end, w_else.as_slice()) || span_is(
        input,
        start,
        end,
        w_for.as_slice(),
    ) || span_is(input, start, end, w_in.as_slice()) || span_is(
        input,
        start,
        end,
        w_while.as_slice(),
    ) || span_is(input, start, end, w_loop.as_slice()) || span_is(
        input,
        start,
        end,
        w_match.as_slice(),
    ) || span_is(input, start, end, w_const.as_slice()) || span_is(
        input,
        start,
        end,
        w_return.as_slice(),
    ) {
        TokenKind::Keyword
    } else {
        TokenKind::Identifier
    }
}

} // verus!
