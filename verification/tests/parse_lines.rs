use dotenvy::env::{Env, ParsedEntry};
use dotenvy::errors::ParseErrorKind;
use dotenvy::parse::{parse_line, ParsedLine};

fn entry(key: &str, value: &str) -> ParsedLine {
    ParsedLine::Entry(ParsedEntry { key: key.as_bytes().to_vec(), value: value.as_bytes().to_vec() })
}

fn bad(kind: ParseErrorKind) -> ParsedLine {
    ParsedLine::ParseError(kind, 1)
}

fn parse(line: &str) -> ParsedLine {
    parse_line(line.as_bytes(), 1, &Env::new(), &Env::new())
}

#[test]
fn plain_pair() {
    assert_eq!(parse("KEY=value"), entry("KEY", "value"));
}

#[test]
fn blank_and_comment_lines() {
    assert_eq!(parse(""), ParsedLine::EmptyOrComment);
    assert_eq!(parse("   \t "), ParsedLine::EmptyOrComment);
    assert_eq!(parse("# a comment"), ParsedLine::EmptyOrComment);
    assert_eq!(parse("   # indented"), ParsedLine::EmptyOrComment);
}

#[test]
fn surrounding_blanks_are_dropped() {
    assert_eq!(parse("  KEY =  some value  \r"), entry("KEY", "some value"));
}

#[test]
fn export_keyword_is_stripped() {
    assert_eq!(parse("export KEY=1"), entry("KEY", "1"));
    assert_eq!(parse("export   KEY=1"), entry("KEY", "1"));
    assert_eq!(parse("export=1"), entry("export", "1"));
    assert_eq!(parse("exportKEY=1"), entry("exportKEY", "1"));
    assert_eq!(parse("Export KEY=1"), bad(ParseErrorKind::MissingEquals));
}

#[test]
fn missing_equals() {
    assert_eq!(parse("KEY"), bad(ParseErrorKind::MissingEquals));
    assert_eq!(parse("KEY value"), bad(ParseErrorKind::MissingEquals));
    assert_eq!(parse("KEY-A=1"), bad(ParseErrorKind::MissingEquals));
}

#[test]
fn invalid_key() {
    assert_eq!(parse("=value"), bad(ParseErrorKind::InvalidKey));
    assert_eq!(parse("-A=1"), bad(ParseErrorKind::InvalidKey));
    assert_eq!(parse("export =1"), bad(ParseErrorKind::InvalidKey));
}

#[test]
fn empty_value() {
    assert_eq!(parse("KEY="), entry("KEY", ""));
    assert_eq!(parse("KEY=   # nothing"), entry("KEY", ""));
    assert_eq!(parse("KEY=''"), entry("KEY", ""));
    assert_eq!(parse("KEY=\"\""), entry("KEY", ""));
}

#[test]
fn bare_value_ends_at_comment() {
    assert_eq!(parse("KEY=value # comment"), entry("KEY", "value"));
    assert_eq!(parse("KEY=value#comment"), entry("KEY", "value"));
    assert_eq!(parse("KEY=a\\#b # c"), entry("KEY", "a#b"));
    assert_eq!(parse("KEY=a\\\\b"), entry("KEY", "a\\b"));
    assert_eq!(parse("KEY=a\\$b"), entry("KEY", "a$b"));
}

#[test]
fn bare_bad_escape() {
    assert_eq!(parse("KEY=a\\nb"), bad(ParseErrorKind::BadEscape));
    assert_eq!(parse("KEY=a\\"), bad(ParseErrorKind::BadEscape));
}

#[test]
fn single_quoted_is_literal() {
    assert_eq!(parse("KEY='a $B #c \\n d'"), entry("KEY", "a $B #c \\n d"));
    assert_eq!(parse("KEY='it\\'s'"), entry("KEY", "it's"));
    assert_eq!(parse("KEY='a' # comment"), entry("KEY", "a"));
}

#[test]
fn single_quoted_unterminated() {
    assert_eq!(parse("KEY='abc"), bad(ParseErrorKind::UnterminatedQuote));
    assert_eq!(parse("KEY='abc\ndef'"), bad(ParseErrorKind::UnterminatedQuote));
}

#[test]
fn double_quoted_escapes() {
    assert_eq!(parse("KEY=\"a\\nb\\tc\\\"d\\\\e\\$f\""), entry("KEY", "a\nb\tc\"d\\e$f"));
    assert_eq!(parse("KEY=\"a # b\""), entry("KEY", "a # b"));
}

#[test]
fn double_quoted_bad_escape() {
    assert_eq!(parse("KEY=\"a\\qb\""), bad(ParseErrorKind::BadEscape));
}

#[test]
fn double_quoted_unterminated() {
    assert_eq!(parse("KEY=\"abc"), bad(ParseErrorKind::UnterminatedQuote));
    assert_eq!(parse("KEY=\"abc\\"), bad(ParseErrorKind::UnterminatedQuote));
    assert_eq!(parse("KEY=\"abc\ndef"), bad(ParseErrorKind::UnterminatedQuote));
}

#[test]
fn double_quoted_spans_lines() {
    assert_eq!(parse("KEY=\"line1\nline2\""), entry("KEY", "line1\nline2"));
}

#[test]
fn references_are_replaced() {
    let mut defs = Env::new();
    defs.set(b"A".to_vec(), b"1".to_vec());
    let mut env = Env::new();
    env.set(b"A".to_vec(), b"from_env".to_vec());
    env.set(b"HOME".to_vec(), b"/root".to_vec());
    let p = |line: &str| parse_line(line.as_bytes(), 1, &defs, &env);
    assert_eq!(p("B=${A}2"), entry("B", "12"));
    assert_eq!(p("B=$A-2"), entry("B", "1-2"));
    assert_eq!(p("B=\"$HOME/x ${A}\""), entry("B", "/root/x 1"));
    assert_eq!(p("B=$UNDEFINED"), entry("B", ""));
    assert_eq!(p("B=a${UNDEFINED}b"), entry("B", "ab"));
    assert_eq!(p("B='$A'"), entry("B", "$A"));
    assert_eq!(p("B=\\$A"), entry("B", "$A"));
    assert_eq!(p("B=\"\\${A}\""), entry("B", "${A}"));
}

#[test]
fn a_dollar_that_starts_no_reference_is_kept() {
    let env = Env::new();
    let p = |line: &str| parse_line(line.as_bytes(), 1, &env, &env);
    assert_eq!(p("B=a$"), entry("B", "a$"));
    assert_eq!(p("B=$ a"), entry("B", "$ a"));
    assert_eq!(p("B=${A"), entry("B", "${A"));
    assert_eq!(p("B=${}"), entry("B", "${}"));
    assert_eq!(p("B=${A-x}"), entry("B", "${A-x}"));
}

#[test]
fn substituted_text_is_not_read_again() {
    let mut defs = Env::new();
    defs.set(b"A".to_vec(), b"$B".to_vec());
    defs.set(b"B".to_vec(), b"no".to_vec());
    assert_eq!(parse_line(b"C=$A", 1, &defs, &Env::new()), entry("C", "$B"));
}

#[test]
fn a_failure_carries_the_number_it_was_given() {
    assert_eq!(
        parse_line(b"KEY", 7, &Env::new(), &Env::new()),
        ParsedLine::ParseError(ParseErrorKind::MissingEquals, 7)
    );
}

#[test]
fn what_follows_a_closing_quote_is_not_read() {
    assert_eq!(parse("KEY='a'b"), entry("KEY", "a"));
    assert_eq!(parse("KEY=\"a\" b # c"), entry("KEY", "a"));
}

#[test]
fn a_quote_inside_a_bare_value_is_an_ordinary_byte() {
    assert_eq!(parse("KEY=a'b\"c"), entry("KEY", "a'b\"c"));
}

#[test]
fn keys_are_letters_digits_and_underscores() {
    assert_eq!(parse("my_KEY_2=x"), entry("my_KEY_2", "x"));
    assert_eq!(parse("2ND=x"), entry("2ND", "x"));
    assert_eq!(parse("KEY.A=x"), bad(ParseErrorKind::MissingEquals));
}

#[test]
fn text_beyond_ascii_passes_through() {
    assert_eq!(parse("KEY=h\u{e9}llo \u{4e16}\u{754c}"), entry("KEY", "h\u{e9}llo \u{4e16}\u{754c}"));
}
