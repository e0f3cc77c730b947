//! A formatter for nu scripts.
//!
//! The input is split into lexical tokens, and the tokens are printed back in
//! a canonical form: no leading blank lines, no blank lines at all, one
//! newline at the end, compact array and record literals, and strings and
//! comments copied byte for byte.

use vstd::prelude::*;
use vstd::utf8::{encode_utf8, encode_utf8_valid_utf8, valid_utf8};
use crate::config::Config;
use crate::encoding::lemma_format_keeps_utf8;
use crate::formatting::{format_inner, format_spec};
use crate::state::State;
use crate::token::FormatError;

pub mod bytes;
pub mod config;
pub mod encoding;
pub mod formatting;
pub mod laws;
pub mod lexer;
pub mod printer;
pub mod reprint;
pub mod scanning;
pub mod state;
pub mod token;
pub mod words;

verus! {

/// `String::from_utf8` of std: for bytes that are valid UTF-8 the text that
/// is made of exactly these bytes, and for any other bytes nothing.
#[verifier::external_body]
fn text_of(bytes: Vec<u8>) -> (r: Option<String>)
    ensures
        r is Some <==> valid_utf8(bytes@),
        r is Some ==> encode_utf8(r->0@) == bytes@,
{
    match String::from_utf8(bytes) {
        Ok(text) => Some(text),
        Err(_) => None,
    }
}

/// Formats a script given as bytes, and returns the canonical form as a
/// text.
///
/// Fails as the tokenizer fails, and with an encoding error where the
/// canonical form is not valid UTF-8.
pub fn format_text(contents: &[u8], config: &Config) -> (r: Result<String, FormatError>)
    ensures
        match format_spec(contents@, config.tab_spaces as nat) {
            Err(err) => r == Err::<String, FormatError>(err),
            Ok(out) => if valid_utf8(out) {
                r is Ok && encode_utf8(r->Ok_0@) == out
            } else {
                r == Err::<String, FormatError>(FormatError::EncodingError)
            },
        },
{
    match format_inner(contents, config) {
        Err(err) => Err(err),
        Ok(formatted_bytes) => match text_of(formatted_bytes) {
            Some(text) => Ok(text),
            None => Err(FormatError::EncodingError),
        },
    }
}

/// Formats a script given as a text, and returns the canonical form as a
/// text.
///
/// Fails as the tokenizer fails on the bytes of the text, and in no other
/// way: the canonical form of a text is a text.
pub fn format_string(input_string: &String, config: &Config) -> (r: Result<String, FormatError>)
    ensures
        match format_spec(encode_utf8(input_string@), config.tab_spaces as nat) {
            Err(err) => r == Err::<String, FormatError>(err),
            Ok(out) => r is Ok && encode_utf8(r->Ok_0@) == out,
        },
{
    let contents = input_string.as_str().as_bytes();
    proof {
        let bytes = encode_utf8(input_string@);
        encode_utf8_valid_utf8(input_string@);
        assert(bytes.subrange(0, bytes.len() as int) =~= bytes);
        if format_spec(bytes, config.tab_spaces as nat) is Ok {
            lemma_format_keeps_utf8(bytes, 0, State::start(), config.tab_spaces as nat);
        }
    }
    format_text(contents, config)
}

} // verus!
