use stave::parse::bytes::{is_attr_char, is_digit, is_ident_char, is_whitespace, is_word};
use stave::parse::{ParseError, Parser};
use stave::text::{bytes_equal, text_equal};

fn at(source: &str, position: usize) -> Parser<'_> {
    let mut parser = Parser::new(source);
    assert!(parser.skip_only(&source.as_bytes()[..position]));
    assert_eq!(parser.position(), position);
    parser
}

#[test]
fn a_new_scanner_stands_at_the_start() {
    let parser = Parser::new("ab");
    assert_eq!(parser.position(), 0);
    assert_eq!(parser.peek(), Some(b'a'));
    assert!(!parser.finished());
    let empty = Parser::new("");
    assert_eq!(empty.position(), 0);
    assert_eq!(empty.peek(), None);
    assert!(empty.finished());
}

#[test]
fn bytes_have_their_classes() {
    for ch in [b' ', b'\t', b'\r'] {
        assert!(is_whitespace(ch));
    }
    for ch in [b'\n', b'a', b'/', 0] {
        assert!(!is_whitespace(ch));
    }
    for ch in [b'_', b'a', b'z', b'A', b'Z', b'0', b'9'] {
        assert!(is_ident_char(ch));
        assert!(is_attr_char(ch));
    }
    for ch in [b',', b'\'', b'#'] {
        assert!(!is_ident_char(ch));
        assert!(is_attr_char(ch));
    }
    for ch in [b' ', b':', b'{', b'}', b'|', b'-', b'"', b'@', b'[', b'`', 0x80] {
        assert!(!is_ident_char(ch));
        assert!(!is_attr_char(ch));
    }
    assert!(is_digit(b'0') && is_digit(b'5') && is_digit(b'9'));
    assert!(!is_digit(b'/') && !is_digit(b':') && !is_digit(b'a'));
    assert!(is_word(b"tempo", b"tempo"));
    assert!(!is_word(b"tempo", b"temp"));
}

#[test]
fn texts_are_compared_byte_by_byte() {
    assert!(bytes_equal(b"", b""));
    assert!(bytes_equal(b"abc", b"abc"));
    assert!(!bytes_equal(b"abc", b"abd"));
    assert!(!bytes_equal(b"abc", b"ab"));
    assert!(text_equal(None, None));
    assert!(text_equal(Some(b"a"), Some(b"a")));
    assert!(!text_equal(Some(b"a"), Some(b"b")));
    assert!(!text_equal(Some(b""), None));
    assert!(!text_equal(None, Some(b"")));
}

#[test]
fn check_looks_without_moving() {
    let parser = at("piece {", 0);
    assert!(parser.check(b"piece"));
    assert!(parser.check(b"pie"));
    assert!(parser.check(b""));
    assert!(!parser.check(b"piece {}"));
    assert!(!parser.check(b"play"));
    assert_eq!(parser.position(), 0);
    let parser = at("piece {", 6);
    assert!(parser.check(b"{"));
    assert!(!parser.check(b"{}"));
    let parser = at("ab", 2);
    assert!(parser.check(b""));
    assert!(!parser.check(b"a"));
}

#[test]
fn skip_only_goes_behind_the_token() {
    let mut parser = Parser::new("ab  c");
    assert!(!parser.skip_only(b"b"));
    assert_eq!(parser.position(), 0);
    assert!(parser.skip_only(b"ab"));
    assert_eq!(parser.position(), 2);
    assert!(!parser.skip_only(b"c"));
    assert_eq!(parser.position(), 2);
}

#[test]
fn skip_goes_behind_the_token_and_blanks() {
    let mut parser = Parser::new("ab \t\r\n // all of this\n  c");
    assert!(!parser.skip(b"b"));
    assert_eq!(parser.position(), 0);
    assert!(parser.skip(b"ab"));
    assert_eq!(parser.peek(), Some(b'c'));
    assert_eq!(parser.position(), 24);
    assert!(parser.skip(b"c"));
    assert!(parser.finished());
}

#[test]
fn expect_says_what_it_found() {
    let mut parser = Parser::new("{ x");
    assert_eq!(parser.expect(b"{"), Ok(()));
    assert_eq!(parser.position(), 2);
    assert_eq!(
        parser.expect(b"}"),
        Err(ParseError::Unexpected {
            expected: b"}".to_vec(),
            found: b'x',
        })
    );
    assert_eq!(parser.position(), 2);
    assert!(parser.skip(b"x"));
    assert_eq!(
        parser.expect(b"}"),
        Err(ParseError::UnexpectedEnd {
            expected: b"}".to_vec(),
        })
    );
    assert_eq!(
        parser.expect(b""),
        Err(ParseError::UnexpectedEnd { expected: vec![] })
    );
}

#[test]
fn a_keyword_does_not_run_on() {
    for source in ["voice", "voice ", "voice{", "voice-", "voice\n"] {
        assert!(at(source, 0).check_keyword(b"voice"), "{:?}", source);
    }
    for source in ["voice2", "voices", "voice_", "voiceX", "voic", "Voice", " voice"] {
        assert!(!at(source, 0).check_keyword(b"voice"), "{:?}", source);
    }
    let mut parser = Parser::new("play  Name");
    assert!(!parser.skip_keyword(b"voice"));
    assert_eq!(parser.position(), 0);
    assert!(parser.skip_keyword(b"play"));
    assert_eq!(parser.position(), 6);
    assert!(!parser.skip_keyword(b"Nam"));
    assert_eq!(parser.position(), 6);
    assert!(parser.skip_keyword(b"Name"));
    assert!(parser.finished());
}

#[test]
fn whitespace_takes_newlines_and_comments() {
    let cases = [
        ("", 0),
        ("x", 0),
        ("  x", 2),
        (" \t\r\n\n x", 6),
        ("// comment", 10),
        ("// comment\nx", 11),
        ("// one // two\n// three\n  x // four", 25),
        ("/ x", 0),
        (" / x", 1),
        ("//\n/", 3),
        ("///\nx", 4),
        ("// a\r\n\tx", 7),
        ("\n", 1),
    ];
    for (source, end) in cases {
        let mut parser = Parser::new(source);
        parser.skip_whitespace();
        assert_eq!(parser.position(), end, "{:?}", source);
    }
}

#[test]
fn whitespace_in_a_line_stops_at_the_newline() {
    let cases = [
        ("", 0),
        ("x", 0),
        ("  x", 2),
        (" \t\r\n x", 3),
        ("\nx", 0),
        ("// comment", 10),
        ("  // comment\nx", 12),
        ("// one // two\n// three", 13),
        ("/ x", 0),
        ("///\nx", 3),
    ];
    for (source, end) in cases {
        let mut parser = Parser::new(source);
        parser.skip_whitespace_in_line();
        assert_eq!(parser.position(), end, "{:?}", source);
    }
}

#[test]
fn a_name_is_the_longest_run_of_its_bytes() {
    let mut parser = Parser::new("C#,maj7'_x  rest");
    assert_eq!(parser.check_attr(), Some(&b"C#,maj7'_x"[..]));
    assert_eq!(parser.position(), 0);
    assert_eq!(parser.parse_attr(), Some(&b"C#,maj7'_x"[..]));
    assert_eq!(parser.position(), 12);
    assert_eq!(parser.parse_attr(), Some(&b"rest"[..]));
    assert!(parser.finished());
    assert_eq!(parser.check_attr(), None);
    assert_eq!(parser.parse_attr(), None);
    let mut parser = Parser::new(": x");
    assert_eq!(parser.check_attr(), None);
    assert_eq!(parser.parse_attr(), None);
    assert_eq!(parser.position(), 0);
    let mut parser = Parser::new("name// note\n:");
    assert_eq!(parser.parse_attr(), Some(&b"name"[..]));
    assert_eq!(parser.peek(), Some(b':'));
}

#[test]
fn numbers_are_read_within_their_bounds() {
    let byte = (0, 255);
    let signed = (-128, 127);
    let wide = (0, u64::MAX);
    let cases = [
        ("120,", wide, Some((120, 3))),
        ("0", byte, Some((0, 1))),
        ("007", byte, Some((7, 3))),
        ("255", byte, Some((255, 3))),
        ("256", byte, None),
        ("12ab", byte, Some((12, 2))),
        ("12 ", byte, Some((12, 2))),
        ("1-2", byte, Some((1, 1))),
        ("-2", signed, Some((-2, 2))),
        ("-0", signed, Some((0, 2))),
        ("-0", byte, None),
        ("-1", byte, None),
        ("127", signed, Some((127, 3))),
        ("128", signed, None),
        ("-128", signed, Some((-128, 4))),
        ("-129", signed, None),
        ("--1", signed, None),
        ("", byte, None),
        ("-", signed, None),
        ("x", byte, None),
        (" 1", byte, None),
        ("+1", byte, None),
        ("18446744073709551615", wide, Some((18446744073709551615, 20))),
        ("18446744073709551616", wide, None),
        ("99999999999999999999999999999999999999999999", wide, None),
        ("000000000000000000000000000000000000000000012", byte, Some((12, 45))),
        ("-9223372036854775808", (i64::MIN, 0), Some((-9223372036854775808, 20))),
        ("-9223372036854775809", (i64::MIN, 0), None),
        ("5", (7, 3), None),
    ];
    for (source, (min, max), expected) in cases {
        let mut parser = Parser::new(source);
        let result = parser.parse_number_only(min, max);
        match expected {
            Some((value, end)) => {
                assert_eq!(result, Ok(value), "{:?}", source);
                assert_eq!(parser.position(), end, "{:?}", source);
            }
            None => {
                assert_eq!(result, Err(ParseError::InvalidNumber), "{:?}", source);
                assert_eq!(parser.position(), 0, "{:?}", source);
            }
        }
    }
}

#[test]
fn strings_keep_their_backslashes() {
    let cases: [(&str, Result<(&[u8], usize), ParseError>); 10] = [
        ("\"Title\" x", Ok((b"Title", 7))),
        ("\"\"", Ok((b"", 2))),
        ("\"a\\\"b\" c", Ok((b"a\\\"b", 6))),
        ("\"a\\\\\" c", Ok((b"a\\\\", 5))),
        ("\"a\\\\\\\"b\"", Ok((b"a\\\\\\\"b", 8))),
        ("\"two\nlines\"", Ok((b"two\nlines", 11))),
        ("\"abc", Err(ParseError::UnclosedString)),
        ("\"abc\\\"", Err(ParseError::UnclosedString)),
        ("", Err(ParseError::UnclosedString)),
        ("abc\"", Err(ParseError::UnopenedString)),
    ];
    for (source, expected) in cases {
        let mut parser = Parser::new(source);
        let result = parser.parse_string_only();
        match expected {
            Ok((text, end)) => {
                assert_eq!(result, Ok(text), "{:?}", source);
                assert_eq!(parser.position(), end, "{:?}", source);
            }
            Err(error) => {
                assert_eq!(result, Err(error), "{:?}", source);
                assert_eq!(parser.position(), 0, "{:?}", source);
            }
        }
    }
}

#[test]
fn a_string_may_hold_any_text() {
    let source = "\"Für Elise — ♪\" x";
    let mut parser = Parser::new(source);
    assert_eq!(parser.parse_string_only(), Ok("Für Elise — ♪".as_bytes()));
    assert_eq!(parser.position(), source.len() - 2);
}

#[test]
fn truth_values_are_keywords() {
    let cases = [
        ("true", Some((true, 4))),
        ("false", Some((false, 5))),
        ("true  ,", Some((true, 6))),
        ("false}", Some((false, 5))),
        ("true\n  x", Some((true, 7))),
        ("truth", None),
        ("true1", None),
        ("True", None),
        ("", None),
        ("1", None),
    ];
    for (source, expected) in cases {
        let mut parser = Parser::new(source);
        let result = parser.parse_bool_only();
        match expected {
            Some((value, end)) => {
                assert_eq!(result, Ok(value), "{:?}", source);
                assert_eq!(parser.position(), end, "{:?}", source);
            }
            None => {
                assert_eq!(result, Err(ParseError::InvalidBool), "{:?}", source);
                assert_eq!(parser.position(), 0, "{:?}", source);
            }
        }
    }
}

#[test]
fn a_stave_line_ends_at_newline_semicolon_brace_or_end() {
    let cases = [
        ("", true, 0),
        ("\nx", true, 1),
        (";x", true, 1),
        ("}x", true, 0),
        ("x\n", false, 0),
        (" ;", false, 0),
        ("|", false, 0),
    ];
    for (source, ended, end) in cases {
        let mut parser = Parser::new(source);
        assert_eq!(parser.skip_end_of_stave(), ended, "{:?}", source);
        assert_eq!(parser.position(), end, "{:?}", source);
    }
}

#[test]
fn stave_contents_run_to_the_end_of_the_line() {
    let cases = [
        ("", 0),
        ("C E G", 5),
        ("C E G ; next", 7),
        ("C E | G\n| c", 8),
        ("C E }", 4),
        ("}", 0),
        (";", 1),
        ("\n\n", 1),
        ("C // E\nG", 7),
    ];
    for (source, end) in cases {
        let mut parser = Parser::new(source);
        parser.skip_stave_contents();
        assert_eq!(parser.position(), end, "{:?}", source);
    }
}
