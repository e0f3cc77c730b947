use nufmt::config::Config;
use nufmt::format_text;
use nufmt::formatting::format_inner;
use nufmt::lexer::tokenize;
use nufmt::printer::print;
use nufmt::token::{FormatError, Token, TokenKind};

fn fmt(input: &str) -> String {
    String::from_utf8(format_inner(input.as_bytes(), &Config::default()).unwrap()).unwrap()
}

#[test]
fn default_config_has_four_spaces() {
    let config = Config::default();
    assert_eq!(config, Config { tab_spaces: 4, max_width: 80, margin: 1 });
    assert_eq!(Config::new(2, 100, 0), Config { tab_spaces: 2, max_width: 100, margin: 0 });
}

#[test]
fn blank_input_gives_one_newline() {
    assert_eq!(fmt(""), "\n");
    assert_eq!(fmt("  \n\n \t \n"), "\n");
}

#[test]
fn formatting_twice_changes_nothing() {
    let inputs = [
        "# beginning of script comment\n\n let one = 1\ndef my-func [\n    param1:int # inline comment\n]{ print(param1) \n}\nmyfunc(one)\n\n\n\n\n\n# final comment\n\n\n",
        "[\n  {\n    \"a\": 0\n  },\n  {},\n  {\n    \"a\": null\n  }\n]",
        "{ \"a\" : 1 }",
        "[1 2   3\n4 # five\n 6]",
        "f(a)\n\n",
        "if x {\n\n\ty   =  (1\n+ 2)\n  }  \n",
        "  ]  )  } x",
        "[ ( 1 ) , ( 2 ) ]",
        "\"a\n\n  b\"   'c'",
    ];
    for input in inputs {
        let once = fmt(input);
        assert_eq!(fmt(&once), once);
    }
}

#[test]
fn output_ends_with_one_newline() {
    for input in ["1", "1\n", "1\n\n\n", "1  \n \n", "# c", "f(x)", "f(x)\n\n"] {
        let out = fmt(input);
        assert!(out.ends_with('\n'));
        assert!(!out.ends_with("\n\n"));
    }
    assert_eq!(fmt("1\n\n\n"), "1\n");
    assert_eq!(fmt("# c\n\n"), "# c\n");
}

#[test]
fn output_begins_with_the_first_token() {
    assert_eq!(fmt("\n\n  \t x"), "x\n");
    assert_eq!(fmt(" \n# c\nx"), "# c\nx\n");
}

#[test]
fn strings_and_comments_are_copied() {
    let out = fmt("  x   \"a   \\\"  b\"   #   c   [ 1 ]  \n\n\n'd  e'");
    assert_eq!(out, "x \"a   \\\"  b\" #   c   [ 1 ]  \n'd  e'\n");
}

#[test]
fn blank_lines_collapse() {
    assert_eq!(fmt("a\n\n\nb\n \n\t\nc"), "a\nb\nc\n");
}

#[test]
fn spaces_collapse_and_trailing_blanks_go() {
    assert_eq!(fmt("a   b \t c   \nd  "), "a b c\nd\n");
    assert_eq!(fmt("a\r\nb\r\n"), "a\nb\n");
}

#[test]
fn closing_parenthesis_keeps_one_space_before_the_line_end() {
    assert_eq!(fmt("f(x)\ng(y)   \nh"), "f(x) \ng(y) \nh\n");
    assert_eq!(fmt("f(x)"), "f(x) \n");
}

#[test]
fn lines_are_indented_by_depth() {
    assert_eq!(
        fmt("def f [\nx\n] {\n  g (\n a\n   )\n}\n"),
        "def f [\n    x\n] {\n    g (\n        a\n    ) \n}\n"
    );
}

#[test]
fn indentation_width_comes_from_the_config() {
    let config = Config::new(2, 80, 1);
    let out = format_inner(b"def f [\nx\n]", &config).unwrap();
    assert_eq!(out, b"def f [\n  x\n]\n".to_vec());
    let config = Config::new(0, 80, 1);
    let out = format_inner(b"def f [\nx\n]", &config).unwrap();
    assert_eq!(out, b"def f [\nx\n]\n".to_vec());
}

#[test]
fn literal_drops_blanks_around_structure() {
    assert_eq!(fmt("[ 1 , 2 ]"), "[1,2]\n");
    assert_eq!(fmt("[1 2\n3]"), "[1 2 3]\n");
    assert_eq!(fmt("{ a : [ 1 ,\n 2 ] }\n{ b : 1 }"), "{a:[1,2]}\n{b:1}\n");
}

#[test]
fn literal_keeps_the_line_end_behind_a_comment() {
    assert_eq!(fmt("[1, # one\n 2]"), "[1,# one\n2]\n");
    assert_eq!(fmt("[1 # one\n 2]"), "[1 # one\n2]\n");
}

#[test]
fn bracket_behind_other_tokens_is_no_literal() {
    assert_eq!(fmt("let x = { a : 1 }"), "let x = { a : 1 }\n");
    assert_eq!(fmt("x [ 1 , 2 ]"), "x [ 1 , 2 ]\n");
}

#[test]
fn closing_bracket_without_an_opening_one_is_printed() {
    assert_eq!(fmt("]\n}\n)"), "]\n}\n) \n");
}

#[test]
fn errors_are_all_or_nothing() {
    let config = Config::default();
    assert_eq!(format_inner(b"x = \"abc", &config), Err(FormatError::UnterminatedString));
    assert_eq!(format_inner(b"x = \x02", &config), Err(FormatError::UnrecognizedByte));
}

#[test]
fn bytes_that_are_no_text_are_formatted_as_bytes() {
    let config = Config::default();
    assert_eq!(format_inner(b"  \xff\xfe  ", &config), Ok(b"\xff\xfe\n".to_vec()));
    assert_eq!(format_text(b"  \xff\xfe  ", &config), Err(FormatError::EncodingError));
    assert_eq!(format_text(b"  x  ", &config), Ok(String::from("x\n")));
    assert_eq!(format_text(b"\"x", &config), Err(FormatError::UnterminatedString));
}

#[test]
fn text_beyond_ascii_stays_text() {
    assert_eq!(fmt("  \"h\u{e9}\"   # \u{4e16}\u{754c}\n\n\u{3b1} "), "\"h\u{e9}\" # \u{4e16}\u{754c}\n\u{3b1}\n");
}

#[test]
fn print_stops_at_the_end_token() {
    let input = b"a b";
    let tokens = vec![
        Token { kind: TokenKind::Identifier, start: 0, end: 1 },
        Token { kind: TokenKind::EndOfInput, start: 1, end: 1 },
        Token { kind: TokenKind::Identifier, start: 2, end: 3 },
    ];
    assert_eq!(print(input, &tokens, &Config::default()), b"a\n".to_vec());
    let tokens = tokenize(input).unwrap();
    assert_eq!(print(input, &tokens, &Config::default()), b"a b\n".to_vec());
    assert_eq!(print(input, &Vec::new(), &Config::default()), b"\n".to_vec());
}
