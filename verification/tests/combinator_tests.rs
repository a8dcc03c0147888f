use hurl_core::ast::{Pos, PredicateValue, Whitespace, SourceInfo};
use hurl_core::combinators::{choice, one_or_more, zero_or_more};
use hurl_core::error::{Error, ParseError};
use hurl_core::predicate_value::ValueKind;
use hurl_core::primitives::{
    hex_digit, literal, one_or_more_spaces, try_literal, try_literals, zero_or_more_spaces, Blanks,
    HexDigit,
};
use hurl_core::reader::Reader;

#[test]
fn literal_reads_the_word() {
    let mut reader = Reader::new("hello world");
    assert_eq!(literal("hello", &mut reader), Ok(()));
    assert_eq!(reader.state.index, 5);
    assert_eq!(reader.state.pos, Pos { line: 1, column: 6 });
}

#[test]
fn literal_fails_fatally_and_keeps_what_it_read() {
    let mut reader = Reader::new("help");
    let error = literal("hello", &mut reader).err().unwrap();
    assert_eq!(
        error,
        Error {
            pos: Pos { line: 1, column: 1 },
            recoverable: false,
            inner: ParseError::Expecting {
                value: "hello".to_string()
            }
        }
    );
    // `hel` agreed, `p` did not
    assert_eq!(reader.state.index, 4);

    let mut reader = Reader::new("he");
    let error = literal("hello", &mut reader).err().unwrap();
    assert!(!error.recoverable);
    assert_eq!(reader.state.index, 2);

    let mut reader = Reader::new("");
    let error = literal("x", &mut reader).err().unwrap();
    assert_eq!(error.pos, Pos { line: 1, column: 1 });
    assert_eq!(reader.state.index, 0);
}

#[test]
fn literal_over_a_line_break() {
    let mut reader = Reader::new("a\nb");
    assert_eq!(literal("a\nb", &mut reader), Ok(()));
    assert_eq!(reader.state.pos, Pos { line: 2, column: 2 });
}

#[test]
fn try_literal_fails_recoverably_without_moving() {
    let mut reader = Reader::new("  help");
    reader.read();
    reader.read();
    let start = reader.state;
    let error = try_literal("hello", &mut reader).err().unwrap();
    assert_eq!(
        error,
        Error {
            pos: Pos { line: 1, column: 3 },
            recoverable: true,
            inner: ParseError::Expecting {
                value: "hello".to_string()
            }
        }
    );
    assert_eq!(reader.state, start);
    assert_eq!(try_literal("help", &mut reader), Ok(()));
    assert!(reader.is_eof());
}

#[test]
fn try_literals_returns_the_word_it_read() {
    let mut reader = Reader::new("== 1");
    assert_eq!(try_literals("equals", "==", &mut reader).unwrap(), "==");
    assert_eq!(reader.state.index, 2);

    let mut reader = Reader::new("equals 1");
    assert_eq!(try_literals("equals", "==", &mut reader).unwrap(), "equals");
    assert_eq!(reader.state.index, 6);

    // the first word is tried first
    let mut reader = Reader::new("abc");
    assert_eq!(try_literals("ab", "abc", &mut reader).unwrap(), "ab");
    assert_eq!(reader.state.index, 2);
}

#[test]
fn try_literals_names_both_words_when_neither_is_there() {
    let mut reader = Reader::new("equal");
    let error = try_literals("equals", "==", &mut reader).err().unwrap();
    assert_eq!(
        error,
        Error {
            pos: Pos { line: 1, column: 1 },
            recoverable: true,
            inner: ParseError::Expecting {
                value: "<equals> or <==>".to_string()
            }
        }
    );
    assert_eq!(reader.state.index, 0);
}

#[test]
fn spaces_are_kept_as_written() {
    let mut reader = Reader::new(" \t  x");
    assert_eq!(
        zero_or_more_spaces(&mut reader).unwrap(),
        Whitespace {
            value: " \t  ".to_string(),
            source_info: SourceInfo::new(1, 1, 1, 5),
        }
    );
    assert_eq!(reader.state.index, 4);
    assert_eq!(
        zero_or_more_spaces(&mut reader).unwrap(),
        Whitespace {
            value: String::new(),
            source_info: SourceInfo::new(1, 5, 1, 5),
        }
    );
    assert_eq!(reader.state.index, 4);
}

#[test]
fn a_line_break_is_no_blank() {
    let mut reader = Reader::new(" \n ");
    assert_eq!(zero_or_more_spaces(&mut reader).unwrap().value, " ");
    assert_eq!(reader.state.index, 1);
}

#[test]
fn one_or_more_spaces_needs_a_blank() {
    let mut reader = Reader::new("\t x");
    assert_eq!(
        one_or_more_spaces(&mut reader).unwrap(),
        Whitespace {
            value: "\t ".to_string(),
            source_info: SourceInfo::new(1, 1, 1, 3),
        }
    );
    let error = one_or_more_spaces(&mut reader).err().unwrap();
    assert_eq!(
        error,
        Error {
            pos: Pos { line: 1, column: 3 },
            recoverable: false,
            inner: ParseError::Space
        }
    );
    assert_eq!(reader.state.index, 2);

    let mut reader = Reader::new("");
    assert_eq!(
        one_or_more_spaces(&mut reader).err().unwrap().inner,
        ParseError::Space
    );
}

#[test]
fn hex_digit_gives_the_number_of_the_digit() {
    let digits = "0123456789abcdefABCDEF";
    let values = [
        0, 1, 2, 3, 4, 5, 6, 7, 8, 9, 10, 11, 12, 13, 14, 15, 10, 11, 12, 13, 14, 15,
    ];
    let mut reader = Reader::new(digits);
    for expected in values {
        assert_eq!(hex_digit(&mut reader).unwrap(), expected);
    }
    let error = hex_digit(&mut reader).err().unwrap();
    assert_eq!(error.inner, ParseError::HexDigit);
    assert!(error.recoverable);
}

#[test]
fn hex_digit_refuses_other_characters() {
    for text in ["g", "G", " ", "/", ":", "@", "`", "\u{ff11}"] {
        let mut reader = Reader::new(text);
        let error = hex_digit(&mut reader).err().unwrap();
        assert_eq!(
            error,
            Error {
                pos: Pos { line: 1, column: 1 },
                recoverable: true,
                inner: ParseError::HexDigit
            }
        );
        assert_eq!(reader.state.cursor, 0);
        assert_eq!(reader.state.index, 0);
    }
}

#[test]
fn zero_or_more_stops_where_the_rule_fails_and_restores() {
    let mut reader = Reader::new("1fg");
    assert_eq!(zero_or_more(&HexDigit, &mut reader).unwrap(), vec![1, 15]);
    assert_eq!(reader.state.index, 2);
    assert_eq!(zero_or_more(&HexDigit, &mut reader).unwrap(), vec![]);
    assert_eq!(reader.state.index, 2);
}

#[test]
fn one_or_more_makes_the_first_failure_fatal() {
    let mut reader = Reader::new("ab!");
    assert_eq!(one_or_more(&HexDigit, &mut reader).unwrap(), vec![10, 11]);
    assert_eq!(reader.state.index, 2);
    let error = one_or_more(&HexDigit, &mut reader).err().unwrap();
    assert_eq!(
        error,
        Error {
            pos: Pos { line: 1, column: 3 },
            recoverable: false,
            inner: ParseError::HexDigit
        }
    );
}

#[test]
fn repetition_ends_on_a_match_that_reads_nothing() {
    // the rule of blanks matches everywhere; where no blank stands it reads nothing
    let mut reader = Reader::new("x");
    assert_eq!(zero_or_more(&Blanks, &mut reader).unwrap(), vec![]);
    assert_eq!(reader.state.index, 0);

    let mut reader = Reader::new(" \t x");
    assert_eq!(
        zero_or_more(&Blanks, &mut reader).unwrap(),
        vec![Whitespace {
            value: " \t ".to_string(),
            source_info: SourceInfo::new(1, 1, 1, 4),
        }]
    );
    assert_eq!(reader.state.index, 3);

    let mut reader = Reader::new("x");
    assert_eq!(
        one_or_more(&Blanks, &mut reader).unwrap(),
        vec![Whitespace {
            value: String::new(),
            source_info: SourceInfo::new(1, 1, 1, 1),
        }]
    );
    assert_eq!(reader.state.index, 0);
}

#[test]
fn choice_takes_the_first_rule_that_matches() {
    let rules = [ValueKind::Null, ValueKind::Bool, ValueKind::Integer];
    let mut reader = Reader::new("true");
    assert_eq!(
        choice(&rules, &mut reader, ParseError::PredicateValue).unwrap(),
        PredicateValue::Bool(true)
    );
    assert_eq!(reader.state.index, 4);

    let mut reader = Reader::new("12");
    assert_eq!(
        choice(&rules, &mut reader, ParseError::PredicateValue).unwrap(),
        PredicateValue::Integer(12)
    );
}

#[test]
fn choice_fails_fatally_where_it_started_when_no_rule_matches() {
    let rules = [ValueKind::Null, ValueKind::Bool, ValueKind::Integer];
    let mut reader = Reader::new("  -x");
    reader.read();
    reader.read();
    let start = reader.state;
    let error = choice(&rules, &mut reader, ParseError::Predicate)
        .err()
        .unwrap();
    assert_eq!(
        error,
        Error {
            pos: Pos { line: 1, column: 3 },
            recoverable: false,
            inner: ParseError::Predicate
        }
    );
    assert_eq!(reader.state, start);
}

#[test]
fn choice_among_no_rules_fails() {
    let rules: [ValueKind; 0] = [];
    let mut reader = Reader::new("true");
    let error = choice(&rules, &mut reader, ParseError::PredicateValue)
        .err()
        .unwrap();
    assert_eq!(
        error,
        Error {
            pos: Pos { line: 1, column: 1 },
            recoverable: false,
            inner: ParseError::PredicateValue
        }
    );
    assert_eq!(reader.state.index, 0);
}

#[test]
fn choice_stops_at_a_fatal_failure() {
    // the float fails after its point, and the integer is never tried
    let rules = [ValueKind::Float, ValueKind::Integer];
    let mut reader = Reader::new("1.x");
    let error = choice(&rules, &mut reader, ParseError::PredicateValue)
        .err()
        .unwrap();
    assert_eq!(
        error,
        Error {
            pos: Pos { line: 1, column: 3 },
            recoverable: false,
            inner: ParseError::Expecting {
                value: "natural".to_string()
            }
        }
    );
    // nothing is restored after a fatal failure
    assert_eq!(reader.state.index, 2);

    // in the other order the integer wins and the point is left
    let rules = [ValueKind::Integer, ValueKind::Float];
    let mut reader = Reader::new("1.x");
    assert_eq!(
        choice(&rules, &mut reader, ParseError::PredicateValue).unwrap(),
        PredicateValue::Integer(1)
    );
    assert_eq!(reader.state.index, 1);
}
