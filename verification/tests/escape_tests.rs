use hurl_core::ast::Pos;
use hurl_core::error::{Error, ParseError};
use hurl_core::reader::Reader;
use hurl_core::string::{any_char, escape_char, hex_value, unicode};

#[test]
fn every_short_escape_gives_its_character() {
    let table = [
        ("\\#", '#'),
        ("\\\"", '"'),
        ("\\`", '`'),
        ("\\\\", '\\'),
        ("\\/", '/'),
        ("\\b", '\x08'),
        ("\\n", '\n'),
        ("\\f", '\x0c'),
        ("\\r", '\r'),
        ("\\t", '\t'),
    ];
    for (written, expected) in table {
        let mut reader = Reader::new(written);
        assert_eq!(escape_char(&mut reader).unwrap(), expected);
        assert_eq!(reader.state.index, 2);
        assert!(reader.is_eof());
    }
}

#[test]
fn every_character_comes_back_from_its_escape_by_number() {
    for c in [
        '\0', '\n', ' ', '#', 'a', '\u{7f}', '\u{e9}', '\u{7ff}', '\u{800}', '\u{d7ff}',
        '\u{e000}', '\u{ffff}', '\u{10000}', '\u{1f600}', '\u{10ffff}',
    ] {
        let written = format!("\\u{{{:x}}}!", c as u32);
        let mut reader = Reader::new(&written);
        assert_eq!(escape_char(&mut reader).unwrap(), c);
        assert_eq!(reader.state.index, written.chars().count() - 1);
        assert_eq!(reader.peek(), Some('!'));
    }
}

#[test]
fn escape_by_number_takes_upper_case_and_leading_zeros() {
    for written in ["\\u{E9}", "\\u{00e9}", "\\u{0000000000000000e9}"] {
        let mut reader = Reader::new(written);
        assert_eq!(escape_char(&mut reader).unwrap(), '\u{e9}');
        assert!(reader.is_eof());
    }
}

#[test]
fn a_number_that_is_no_character_fails_with_unicode() {
    // beyond the last code point, a surrogate, and numbers beyond `u32`
    for (written, column) in [
        ("\\u{110000}", 10),
        ("\\u{d800}", 8),
        ("\\u{dfff}", 8),
        ("\\u{ffffffff}", 12),
        ("\\u{100000000}", 13),
        ("\\u{fffffffffffffffffffff}", 25),
    ] {
        let mut reader = Reader::new(written);
        let error = escape_char(&mut reader).err().unwrap();
        assert_eq!(
            error,
            Error {
                pos: Pos {
                    line: 1,
                    column
                },
                recoverable: false,
                inner: ParseError::Unicode
            }
        );
    }
}

#[test]
fn hex_value_gives_the_largest_number_when_the_digits_write_more() {
    let mut reader = Reader::new("ffffffff");
    assert_eq!(hex_value(&mut reader).unwrap(), u32::MAX);
    let mut reader = Reader::new("100000000");
    assert_eq!(hex_value(&mut reader).unwrap(), u32::MAX);
    let mut reader = Reader::new("fffffffe");
    assert_eq!(hex_value(&mut reader).unwrap(), u32::MAX - 1);
    let mut reader = Reader::new("0");
    assert_eq!(hex_value(&mut reader).unwrap(), 0);
    let mut reader = Reader::new("10");
    assert_eq!(hex_value(&mut reader).unwrap(), 16);
    let mut reader = Reader::new("1aB2");
    assert_eq!(hex_value(&mut reader).unwrap(), 0x1ab2);
}

#[test]
fn a_malformed_escape_by_number_is_fatal() {
    // no brace
    let mut reader = Reader::new("\\u0a");
    let error = escape_char(&mut reader).err().unwrap();
    assert_eq!(
        error,
        Error {
            pos: Pos { line: 1, column: 3 },
            recoverable: false,
            inner: ParseError::Expecting {
                value: "{".to_string()
            }
        }
    );
    // no digit
    let mut reader = Reader::new("\\u{}");
    let error = escape_char(&mut reader).err().unwrap();
    assert_eq!(
        error,
        Error {
            pos: Pos { line: 1, column: 4 },
            recoverable: false,
            inner: ParseError::HexDigit
        }
    );
    // no closing brace
    let mut reader = Reader::new("\\u{0a");
    let error = escape_char(&mut reader).err().unwrap();
    assert_eq!(
        error,
        Error {
            pos: Pos { line: 1, column: 6 },
            recoverable: false,
            inner: ParseError::Expecting {
                value: "}".to_string()
            }
        }
    );
    let mut reader = Reader::new("{0a");
    assert!(unicode(&mut reader).is_err());
}

#[test]
fn an_unknown_escape_is_fatal_at_the_character_after_the_backslash() {
    for written in ["\\l", "\\ ", "\\x41", "\\N", "\\0", "\\", "\\\u{e9}"] {
        let mut reader = Reader::new(written);
        let error = escape_char(&mut reader).err().unwrap();
        assert_eq!(
            error,
            Error {
                pos: Pos { line: 1, column: 2 },
                recoverable: false,
                inner: ParseError::EscapeChar
            }
        );
    }
}

#[test]
fn any_char_gives_the_text_as_written() {
    let mut reader = Reader::new("\\u{00e9}\u{e9}");
    assert_eq!(
        any_char(vec![], &mut reader).unwrap(),
        ('\u{e9}', "\\u{00e9}".to_string())
    );
    assert_eq!(reader.state.index, 8);
    assert_eq!(
        any_char(vec![], &mut reader).unwrap(),
        ('\u{e9}', "\u{e9}".to_string())
    );
    assert_eq!(reader.state.index, 9);
    assert_eq!(reader.state.cursor, 10);
}

#[test]
fn any_char_refuses_reserved_characters() {
    for written in ["\x08", "\n", "\x0c", "\r", "\t"] {
        let mut reader = Reader::new(written);
        let error = any_char(vec![], &mut reader).err().unwrap();
        assert_eq!(
            error,
            Error {
                pos: Pos { line: 1, column: 1 },
                recoverable: true,
                inner: ParseError::Expecting {
                    value: "char".to_string()
                }
            }
        );
    }
}

#[test]
fn any_char_refuses_the_excepted_characters_only_unescaped() {
    let mut reader = Reader::new("\"");
    assert!(any_char(vec!['#', '"'], &mut reader).is_err());
    let mut reader = Reader::new("\\\"");
    assert_eq!(
        any_char(vec!['#', '"'], &mut reader).unwrap(),
        ('"', "\\\"".to_string())
    );
    let mut reader = Reader::new("\\u{22}");
    assert_eq!(
        any_char(vec!['"'], &mut reader).unwrap(),
        ('"', "\\u{22}".to_string())
    );
}

#[test]
fn any_char_passes_a_fatal_escape_on() {
    let mut reader = Reader::new("\\q");
    let error = any_char(vec![], &mut reader).err().unwrap();
    assert_eq!(error.inner, ParseError::EscapeChar);
    assert!(!error.recoverable);
}

#[test]
fn any_char_that_refuses_a_character_has_not_moved() {
    let mut reader = Reader::new("#");
    let error = any_char(vec!['#'], &mut reader).err().unwrap();
    assert!(error.recoverable);
    assert_eq!(reader.state.cursor, 0);
    assert_eq!(reader.state.pos, Pos { line: 1, column: 1 });

    for (text, except) in [("a\nb", vec![]), ("a\tb", vec![]), ("a\"b", vec!['"']), ("a`", vec!['`', '\n']), ("a", vec![])] {
        let mut reader = Reader::new(text);
        reader.read();
        let before = reader.state;
        let error = any_char(except, &mut reader).err().unwrap();
        assert!(error.recoverable);
        assert_eq!(error.pos, before.pos);
        assert_eq!(reader.state, before);
    }
}
