use nufmt::lexer::{next_token, tokenize};
use nufmt::token::{FormatError, Punct, Token, TokenKind};
use nufmt::words::classify_span;

fn kinds(input: &str) -> Vec<TokenKind> {
    tokenize(input.as_bytes()).unwrap().iter().map(|t| t.kind).collect()
}

#[test]
fn empty_input_is_one_end_token() {
    let tokens = tokenize(b"").unwrap();
    assert_eq!(tokens, vec![Token { kind: TokenKind::EndOfInput, start: 0, end: 0 }]);
}

#[test]
fn spans_cover_the_input() {
    let input = b"let x = [1, \"a b\"] # done\n";
    let tokens = tokenize(input).unwrap();
    let mut pos = 0;
    for token in tokens.iter() {
        assert_eq!(token.start, pos);
        pos = token.end;
    }
    assert_eq!(pos, input.len());
    let last = tokens[tokens.len() - 1];
    assert_eq!(last, Token { kind: TokenKind::EndOfInput, start: input.len(), end: input.len() });
}

#[test]
fn kinds_of_a_statement() {
    assert_eq!(
        kinds("let x = 1.5"),
        vec![
            TokenKind::Keyword,
            TokenKind::Whitespace,
            TokenKind::Identifier,
            TokenKind::Whitespace,
            TokenKind::Identifier,
            TokenKind::Whitespace,
            TokenKind::Number,
            TokenKind::EndOfInput,
        ]
    );
}

#[test]
fn kinds_of_literals() {
    assert_eq!(
        kinds("true false null -3 nulls 1a"),
        vec![
            TokenKind::Boolean,
            TokenKind::Whitespace,
            TokenKind::Boolean,
            TokenKind::Whitespace,
            TokenKind::Null,
            TokenKind::Whitespace,
            TokenKind::Number,
            TokenKind::Whitespace,
            TokenKind::Identifier,
            TokenKind::Whitespace,
            TokenKind::Identifier,
            TokenKind::EndOfInput,
        ]
    );
}

#[test]
fn each_structural_character_has_its_name() {
    assert_eq!(
        kinds("{}[](),:"),
        vec![
            TokenKind::Punctuation(Punct::OpenBrace),
            TokenKind::Punctuation(Punct::CloseBrace),
            TokenKind::Punctuation(Punct::OpenBracket),
            TokenKind::Punctuation(Punct::CloseBracket),
            TokenKind::Punctuation(Punct::OpenParen),
            TokenKind::Punctuation(Punct::CloseParen),
            TokenKind::Punctuation(Punct::Comma),
            TokenKind::Punctuation(Punct::Colon),
            TokenKind::EndOfInput,
        ]
    );
}

#[test]
fn each_newline_is_its_own_token() {
    assert_eq!(
        kinds("\n\n \t\n"),
        vec![
            TokenKind::Newline,
            TokenKind::Newline,
            TokenKind::Whitespace,
            TokenKind::Newline,
            TokenKind::EndOfInput,
        ]
    );
}

#[test]
fn whitespace_is_merged() {
    let tokens = tokenize(b"a \t \r b").unwrap();
    assert_eq!(tokens[1], Token { kind: TokenKind::Whitespace, start: 1, end: 6 });
}

#[test]
fn comment_runs_to_the_end_of_the_line() {
    let input = b"# a \"b\" [c]  \nx";
    let tokens = tokenize(input).unwrap();
    assert_eq!(tokens[0], Token { kind: TokenKind::Comment, start: 0, end: 13 });
    assert_eq!(tokens[0].bytes(input), b"# a \"b\" [c]  ".to_vec());
    assert_eq!(tokens[1].kind, TokenKind::Newline);
}

#[test]
fn comment_at_the_end_of_the_input() {
    let tokens = tokenize(b"x #c").unwrap();
    assert_eq!(tokens[2], Token { kind: TokenKind::Comment, start: 2, end: 4 });
    assert_eq!(tokens[3].kind, TokenKind::EndOfInput);
}

#[test]
fn string_keeps_escapes_and_blanks() {
    let input = b"\"a \\\" # [\n\\\\\" x";
    let tokens = tokenize(input).unwrap();
    assert_eq!(tokens[0], Token { kind: TokenKind::String, start: 0, end: 13 });
    assert_eq!(tokens[0].bytes(input), b"\"a \\\" # [\n\\\\\"".to_vec());
}

#[test]
fn single_quoted_string_holds_double_quotes() {
    let input = b"'a \"b\" c'";
    let tokens = tokenize(input).unwrap();
    assert_eq!(tokens[0], Token { kind: TokenKind::String, start: 0, end: 9 });
}

#[test]
fn unterminated_string_is_an_error() {
    assert_eq!(tokenize(b"x \"abc"), Err(FormatError::UnterminatedString));
    assert_eq!(tokenize(b"\"abc\\\""), Err(FormatError::UnterminatedString));
    assert_eq!(tokenize(b"\"abc\\"), Err(FormatError::UnterminatedString));
    assert_eq!(tokenize(b"'abc\""), Err(FormatError::UnterminatedString));
}

#[test]
fn control_byte_is_an_error() {
    assert_eq!(tokenize(b"x \x01 y"), Err(FormatError::UnrecognizedByte));
    assert_eq!(tokenize(b"\x7f"), Err(FormatError::UnrecognizedByte));
    assert_eq!(tokenize(b"\x00"), Err(FormatError::UnrecognizedByte));
}

#[test]
fn control_byte_inside_string_or_comment_is_kept() {
    assert!(tokenize(b"\"\x01\" # \x02").is_ok());
}

#[test]
fn first_error_from_the_left_is_reported() {
    assert_eq!(tokenize(b"\x01 \"abc"), Err(FormatError::UnrecognizedByte));
    assert_eq!(tokenize(b"\"abc \x01"), Err(FormatError::UnterminatedString));
}

#[test]
fn next_token_gives_one_token_per_request() {
    let input = b"ab cd";
    assert_eq!(next_token(input, 0), Ok(Token { kind: TokenKind::Identifier, start: 0, end: 2 }));
    assert_eq!(next_token(input, 2), Ok(Token { kind: TokenKind::Whitespace, start: 2, end: 3 }));
    assert_eq!(next_token(input, 3), Ok(Token { kind: TokenKind::Identifier, start: 3, end: 5 }));
    assert_eq!(next_token(input, 5), Ok(Token { kind: TokenKind::EndOfInput, start: 5, end: 5 }));
    assert_eq!(next_token(input, 5), Ok(Token { kind: TokenKind::EndOfInput, start: 5, end: 5 }));
}

#[test]
fn words_are_classified_by_spelling() {
    let input = b"let mut def if else for in while loop match const return";
    let mut start = 0;
    for word in input.split(|b| *b == b' ') {
        let end = start + word.len();
        assert_eq!(classify_span(input, start, end), TokenKind::Keyword);
        start = end + 1;
    }
    assert_eq!(classify_span(b"lets", 0, 4), TokenKind::Identifier);
    assert_eq!(classify_span(b"lets", 0, 3), TokenKind::Keyword);
    assert_eq!(classify_span(b"1.35", 0, 4), TokenKind::Number);
    assert_eq!(classify_span(b"-1", 0, 2), TokenKind::Number);
    assert_eq!(classify_span(b"-", 0, 1), TokenKind::Identifier);
    assert_eq!(classify_span(b".5", 0, 2), TokenKind::Identifier);
    assert_eq!(classify_span(b"1x", 0, 2), TokenKind::Identifier);
    assert_eq!(classify_span(b"", 0, 0), TokenKind::Identifier);
}
