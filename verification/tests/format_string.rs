use nufmt::config::Config;
use nufmt::format_string;
use nufmt::token::FormatError;

#[test]
fn array_of_object() {
    let nu = String::from(
        "[
  {
    \"a\": 0
  },
  {},
  {
    \"a\": null
  }
]",
    );
    let expected = String::from("[{\"a\":0},{},{\"a\":null}]\n");
    assert_eq!(Ok(expected), format_string(&nu, &Config::default()));
}

#[test]
fn echoes_primitive() {
    let nu = String::from("1.35");
    let expected = String::from("1.35\n");
    assert_eq!(Ok(expected), format_string(&nu, &Config::default()));
}

#[test]
fn handle_escaped_strings() {
    let nu = String::from("  \"hallo\\\"\"");
    let expected = String::from("\"hallo\\\"\"\n");
    assert_eq!(Ok(expected), format_string(&nu, &Config::default()));
}

#[test]
fn ignore_comments() {
    let nu = String::from(
        "# beginning of script comment\n\n let one = 1\ndef my-func [\n    param1:int # inline comment\n]{ print(param1) \n}\nmyfunc(one)\n\n\n\n\n\n# final comment\n\n\n");
    let expected = String::from(
        "# beginning of script comment\nlet one = 1\ndef my-func [\n    param1:int # inline comment\n]{ print(param1) \n}\nmyfunc(one) \n# final comment\n");
    assert_eq!(Ok(expected), format_string(&nu, &Config::default()));
}

#[test]
fn ignore_whitespace_in_string() {
    let nu = String::from("\" hallo \"");
    let expected = String::from("\" hallo \"\n");
    assert_eq!(Ok(expected), format_string(&nu, &Config::default()));
}

#[test]
fn remove_leading_whitespace() {
    let nu = String::from("   0");
    let expected = String::from("0\n");
    assert_eq!(Ok(expected), format_string(&nu, &Config::default()));
}

#[test]
fn compacts_a_record() {
    let nu = String::from("{ \"a\" : 1 }");
    let expected = String::from("{\"a\":1}\n");
    assert_eq!(Ok(expected), format_string(&nu, &Config::default()));
}

#[test]
fn format_string_reports_the_tokenizer_error() {
    let nu = String::from("let x = \"abc");
    assert_eq!(Err(FormatError::UnterminatedString), format_string(&nu, &Config::default()));
    let nu = String::from("let x = \u{7}");
    assert_eq!(Err(FormatError::UnrecognizedByte), format_string(&nu, &Config::default()));
}
