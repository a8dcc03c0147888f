use hurl_core::ast::{
    EncodedString, Expr, Pos, SourceInfo, Template, TemplateElement, Variable, Whitespace,
};
use hurl_core::error::{Error, ParseError};
use hurl_core::expr;
use hurl_core::expr::name_char_of;
use hurl_core::reader::Reader;
use hurl_core::string::{
    backtick_template, key_char_of, quoted_oneline_string, quoted_template, unquoted_string_key,
    unquoted_template,
};
use hurl_core::template::{templatize, EncodedString as Stream};

fn literal(value: &str, encoded: &str) -> TemplateElement {
    TemplateElement::String {
        value: value.to_string(),
        encoded: encoded.to_string(),
    }
}

fn blanks(value: &str, line: usize, from: usize, to: usize) -> Whitespace {
    Whitespace {
        value: value.to_string(),
        source_info: SourceInfo::new(line, from, line, to),
    }
}

fn name(value: &str, line: usize, from: usize, to: usize) -> Variable {
    Variable {
        name: value.to_string(),
        source_info: SourceInfo::new(line, from, line, to),
    }
}

fn stream(chars: &[(char, &str, usize)], end: usize) -> Stream {
    Stream {
        source_info: SourceInfo::new(1, 1, 1, end),
        chars: chars
            .iter()
            .map(|(c, s, column)| {
                (
                    *c,
                    s.to_string(),
                    Pos {
                        line: 1,
                        column: *column,
                    },
                )
            })
            .collect(),
    }
}

#[test]
fn unquoted_template_ends_at_the_line_break() {
    let mut reader = Reader::new("abc\ndef");
    assert_eq!(
        unquoted_template(&mut reader).unwrap(),
        Template {
            delimiter: None,
            elements: vec![literal("abc", "abc")],
            source_info: SourceInfo::new(1, 1, 1, 4),
        }
    );
    assert_eq!(reader.state.index, 3);
    assert_eq!(reader.peek(), Some('\n'));
}

#[test]
fn unquoted_template_leaves_trailing_spaces_unread() {
    for (text, end) in [("a b   ", 3), ("a b   # c", 3), ("a b   \nc", 3), ("   ", 0), ("  #", 0)] {
        let mut reader = Reader::new(text);
        let template = unquoted_template(&mut reader).unwrap();
        assert_eq!(reader.state.index, end);
        assert_eq!(
            template.source_info,
            SourceInfo::new(1, 1, 1, end + 1)
        );
        if end == 0 {
            assert_eq!(template.elements, vec![]);
        } else {
            assert_eq!(template.elements, vec![literal("a b", "a b")]);
        }
    }
}

#[test]
fn unquoted_template_keeps_spaces_inside_and_in_front() {
    let mut reader = Reader::new("  a  b");
    assert_eq!(
        unquoted_template(&mut reader).unwrap().elements,
        vec![literal("  a  b", "  a  b")]
    );
    assert_eq!(reader.state.index, 6);
}

#[test]
fn unquoted_template_keeps_an_escaped_space_at_the_end() {
    let mut reader = Reader::new("a\\u{20} # c");
    assert_eq!(
        unquoted_template(&mut reader).unwrap(),
        Template {
            delimiter: None,
            elements: vec![literal("a ", "a\\u{20}")],
            source_info: SourceInfo::new(1, 1, 1, 8),
        }
    );
    assert_eq!(reader.state.index, 7);
}

#[test]
fn unquoted_template_takes_an_escaped_hash() {
    let mut reader = Reader::new("a\\#b#c");
    assert_eq!(
        unquoted_template(&mut reader).unwrap().elements,
        vec![literal("a#b", "a\\#b")]
    );
    assert_eq!(reader.state.index, 4);
}

#[test]
fn unquoted_template_fails_on_a_bad_escape_even_after_spaces() {
    let mut reader = Reader::new("a  \\x");
    let error = unquoted_template(&mut reader).err().unwrap();
    assert_eq!(
        error,
        Error {
            pos: Pos { line: 1, column: 5 },
            recoverable: false,
            inner: ParseError::EscapeChar
        }
    );
}

#[test]
fn unquoted_template_ends_at_a_tab() {
    let mut reader = Reader::new("a\tb");
    assert_eq!(
        unquoted_template(&mut reader).unwrap().elements,
        vec![literal("a", "a")]
    );
    assert_eq!(reader.state.index, 1);
}

#[test]
fn unquoted_template_in_the_middle_of_a_text() {
    let mut reader = Reader::new("x: \u{e9}t\u{e9} {{v}}  # note\nnext");
    for _ in 0..3 {
        reader.read();
    }
    assert_eq!(
        unquoted_template(&mut reader).unwrap(),
        Template {
            delimiter: None,
            elements: vec![
                literal("\u{e9}t\u{e9} ", "\u{e9}t\u{e9} "),
                TemplateElement::Expression(Expr {
                    space0: blanks("", 1, 10, 10),
                    variable: name("v", 1, 10, 11),
                    space1: blanks("", 1, 11, 11),
                }),
            ],
            source_info: SourceInfo::new(1, 4, 1, 13),
        }
    );
    assert_eq!(reader.state.index, 12);
    assert_eq!(reader.state.cursor, 14);
}

#[test]
fn quoted_template_needs_its_closing_quote_on_the_same_line() {
    let mut reader = Reader::new("\"ab\ncd\"");
    let error = quoted_template(&mut reader).err().unwrap();
    assert_eq!(
        error,
        Error {
            pos: Pos { line: 1, column: 4 },
            recoverable: false,
            inner: ParseError::Expecting {
                value: "\"".to_string()
            }
        }
    );
}

#[test]
fn quoted_template_without_opening_quote_fails_recoverably() {
    let mut reader = Reader::new("ab\"");
    let error = quoted_template(&mut reader).err().unwrap();
    assert_eq!(
        error,
        Error {
            pos: Pos { line: 1, column: 1 },
            recoverable: true,
            inner: ParseError::Expecting {
                value: "\"".to_string()
            }
        }
    );
    assert_eq!(reader.state.index, 0);

    let mut reader = Reader::new("");
    assert!(quoted_template(&mut reader).err().unwrap().recoverable);
    let mut reader = Reader::new("x");
    assert!(backtick_template(&mut reader).err().unwrap().recoverable);
}

#[test]
fn quoted_template_takes_an_escaped_line_break() {
    let mut reader = Reader::new("\"a\\nb\" rest");
    assert_eq!(
        quoted_template(&mut reader).unwrap(),
        Template {
            delimiter: Some('"'),
            elements: vec![literal("a\nb", "a\\nb")],
            source_info: SourceInfo::new(1, 1, 1, 7),
        }
    );
    assert_eq!(reader.state.index, 6);
}

#[test]
fn quoted_template_keeps_spaces_at_its_ends() {
    let mut reader = Reader::new("\"  a  \"");
    assert_eq!(
        quoted_template(&mut reader).unwrap().elements,
        vec![literal("  a  ", "  a  ")]
    );
}

#[test]
fn quoted_template_with_an_expression() {
    let mut reader = Reader::new("\"Hi {{ user-name }}!\"");
    assert_eq!(
        quoted_template(&mut reader).unwrap(),
        Template {
            delimiter: Some('"'),
            elements: vec![
                literal("Hi ", "Hi "),
                TemplateElement::Expression(Expr {
                    space0: blanks(" ", 1, 7, 8),
                    variable: name("user-name", 1, 8, 17),
                    space1: blanks(" ", 1, 17, 18),
                }),
                literal("!", "!"),
            ],
            source_info: SourceInfo::new(1, 1, 1, 22),
        }
    );
}

#[test]
fn quoted_template_with_a_bad_escape_is_fatal() {
    let mut reader = Reader::new("\"a\\xb\"");
    let error = quoted_template(&mut reader).err().unwrap();
    assert_eq!(
        error,
        Error {
            pos: Pos { line: 1, column: 4 },
            recoverable: false,
            inner: ParseError::EscapeChar
        }
    );
}

#[test]
fn backtick_template_takes_a_double_quote_as_it_is() {
    let mut reader = Reader::new("`say \"hi\"`");
    assert_eq!(
        backtick_template(&mut reader).unwrap(),
        Template {
            delimiter: Some('`'),
            elements: vec![literal("say \"hi\"", "say \"hi\"")],
            source_info: SourceInfo::new(1, 1, 1, 11),
        }
    );
}

#[test]
fn backtick_template_refuses_a_line_break() {
    let mut reader = Reader::new("`a\nb`");
    let error = backtick_template(&mut reader).err().unwrap();
    assert_eq!(
        error,
        Error {
            pos: Pos { line: 1, column: 3 },
            recoverable: false,
            inner: ParseError::Expecting {
                value: "`".to_string()
            }
        }
    );
}

#[test]
fn quoted_template_takes_a_backtick_and_backtick_template_a_hash() {
    let mut reader = Reader::new("\"a`b#\"");
    assert_eq!(
        quoted_template(&mut reader).unwrap().elements,
        vec![literal("a`b#", "a`b#")]
    );
    let mut reader = Reader::new("`a#b`");
    assert_eq!(
        backtick_template(&mut reader).unwrap().elements,
        vec![literal("a#b", "a#b")]
    );
}

#[test]
fn a_marker_that_is_not_closed_is_fatal_at_the_end_of_the_string() {
    let mut reader = Reader::new("\"a{{b\"");
    let error = quoted_template(&mut reader).err().unwrap();
    assert_eq!(
        error,
        Error {
            pos: Pos { line: 1, column: 6 },
            recoverable: false,
            inner: ParseError::Expecting {
                value: "}}".to_string()
            }
        }
    );
    let mut reader = Reader::new("a{{b}");
    let error = unquoted_template(&mut reader).err().unwrap();
    assert_eq!(
        error,
        Error {
            pos: Pos { line: 1, column: 6 },
            recoverable: false,
            inner: ParseError::Expecting {
                value: "}}".to_string()
            }
        }
    );
}

#[test]
fn a_marker_without_a_name_is_fatal_where_the_name_should_be() {
    for (text, column) in [("{{}}", 3), ("{{  }}", 5), ("a{{ !x }}", 5)] {
        let mut reader = Reader::new(text);
        let error = unquoted_template(&mut reader).err().unwrap();
        assert_eq!(
            error,
            Error {
                pos: Pos {
                    line: 1,
                    column
                },
                recoverable: false,
                inner: ParseError::TemplateVariable
            }
        );
    }
}

#[test]
fn braces_that_open_no_marker_are_literal_text() {
    for text in ["{", "a{", "{a", "{a}", "}}", "a}b", "{ {a}}", "}{"] {
        let mut reader = Reader::new(text);
        assert_eq!(
            unquoted_template(&mut reader).unwrap().elements,
            vec![literal(text, text)]
        );
    }
}

#[test]
fn an_escaped_brace_opens_no_marker() {
    let mut reader = Reader::new("\\u{7b}{name}}");
    assert_eq!(
        unquoted_template(&mut reader).unwrap().elements,
        vec![literal("{{name}}", "\\u{7b}{name}}")]
    );
}

#[test]
fn a_marker_holds_a_name_and_nothing_else() {
    for (text, column) in [
        ("{{a b}}", 5),
        ("{{name!}}", 7),
        ("{{a}b}}", 4),
        ("x {{ a  .b }} y", 9),
        ("{{a\\u{20}}}", 4),
        ("{{a{{b}}", 4),
    ] {
        let mut reader = Reader::new(text);
        let error = unquoted_template(&mut reader).err().unwrap();
        assert_eq!(
            error,
            Error {
                pos: Pos {
                    line: 1,
                    column
                },
                recoverable: false,
                inner: ParseError::Expecting {
                    value: "}}".to_string()
                }
            }
        );
    }
}

#[test]
fn markers_and_braces_in_one_string() {
    let mut reader = Reader::new("{{a}} {x} {{ name }}");
    assert_eq!(
        unquoted_template(&mut reader).unwrap().elements,
        vec![
            TemplateElement::Expression(Expr {
                space0: blanks("", 1, 3, 3),
                variable: name("a", 1, 3, 4),
                space1: blanks("", 1, 4, 4),
            }),
            literal(" {x} ", " {x} "),
            TemplateElement::Expression(Expr {
                space0: blanks(" ", 1, 13, 14),
                variable: name("name", 1, 14, 18),
                space1: blanks(" ", 1, 18, 19),
            }),
        ]
    );
}

fn written(elements: &[TemplateElement]) -> String {
    let mut text = String::new();
    for element in elements {
        match element {
            TemplateElement::String { encoded, .. } => text.push_str(encoded),
            TemplateElement::Expression(e) => {
                text.push_str("{{");
                text.push_str(&e.space0.value);
                text.push_str(&e.variable.name);
                text.push_str(&e.space1.value);
                text.push_str("}}");
            }
        }
    }
    text
}

#[test]
fn the_elements_of_a_template_are_the_text_that_was_read() {
    for text in [
        "",
        "abc",
        "a {{b}} c",
        "{{ a }}{{  b }}",
        "\\u{7b}{x}} {{y}} {",
        "a \\# b\\u{20}",
        "{ {a} } }} {",
        "caf\u{e9} {{ n\u{e9}e }} \\t",
    ] {
        let source = format!("{text}   # rest");
        let mut reader = Reader::new(&source);
        let template = unquoted_template(&mut reader).unwrap();
        assert_eq!(written(&template.elements), text);
        assert_eq!(reader.state.index, text.chars().count());

        if !text.contains('"') {
            let source = format!("\"{text}\" rest");
            let mut reader = Reader::new(&source);
            let template = quoted_template(&mut reader).unwrap();
            assert_eq!(format!("\"{}\"", written(&template.elements)), format!("\"{text}\""));
            assert_eq!(reader.state.index, text.chars().count() + 2);

            let source = format!("`{text}` rest");
            let mut reader = Reader::new(&source);
            let template = backtick_template(&mut reader).unwrap();
            assert_eq!(written(&template.elements), text);
        }
    }
}

#[test]
fn markers_next_to_each_other() {
    let mut reader = Reader::new("{{a}}{{b}}");
    assert_eq!(
        unquoted_template(&mut reader).unwrap().elements,
        vec![
            TemplateElement::Expression(Expr {
                space0: blanks("", 1, 3, 3),
                variable: name("a", 1, 3, 4),
                space1: blanks("", 1, 4, 4),
            }),
            TemplateElement::Expression(Expr {
                space0: blanks("", 1, 8, 8),
                variable: name("b", 1, 8, 9),
                space1: blanks("", 1, 9, 9),
            }),
        ]
    );
}

#[test]
fn templatize_an_empty_stream() {
    assert_eq!(templatize(stream(&[], 1)).unwrap(), vec![]);
}

#[test]
fn templatize_joins_characters_into_one_literal() {
    let chars = [('a', "a", 1), ('\n', "\\n", 2), ('b', "\\u{62}", 4)];
    assert_eq!(
        templatize(stream(&chars, 10)).unwrap(),
        vec![literal("a\nb", "a\\n\\u{62}")]
    );
}

#[test]
fn templatize_takes_places_from_the_stream() {
    let chars = [
        ('{', "{", 10),
        ('{', "{", 11),
        (' ', " ", 12),
        ('x', "x", 13),
        ('y', "y", 14),
        ('\t', "\t", 15),
        ('}', "}", 16),
        ('}', "}", 17),
    ];
    assert_eq!(
        templatize(stream(&chars, 18)).unwrap(),
        vec![TemplateElement::Expression(Expr {
            space0: blanks(" ", 1, 12, 13),
            variable: name("xy", 1, 13, 15),
            space1: blanks("\t", 1, 15, 16),
        })]
    );
}

#[test]
fn templatize_reports_an_open_marker_at_the_end_of_the_span() {
    let chars = [('{', "{", 1), ('{', "{", 2), ('x', "x", 3)];
    assert_eq!(
        templatize(stream(&chars, 40)).err().unwrap(),
        Error {
            pos: Pos {
                line: 1,
                column: 40
            },
            recoverable: false,
            inner: ParseError::Expecting {
                value: "}}".to_string()
            }
        }
    );
}

#[test]
fn templatize_refuses_what_follows_the_name() {
    let chars = [
        ('{', "{", 1),
        ('{', "{", 2),
        ('x', "x", 3),
        ('!', "!", 4),
        ('y', "y", 5),
        ('}', "}", 6),
        ('}', "}", 7),
    ];
    assert_eq!(
        templatize(stream(&chars, 8)).err().unwrap(),
        Error {
            pos: Pos { line: 1, column: 4 },
            recoverable: false,
            inner: ParseError::Expecting {
                value: "}}".to_string()
            }
        }
    );
}

#[test]
fn expression_between_braces() {
    let mut reader = Reader::new("{{ count }} rest");
    assert_eq!(
        expr::parse(&mut reader).unwrap(),
        Expr {
            space0: blanks(" ", 1, 3, 4),
            variable: name("count", 1, 4, 9),
            space1: blanks(" ", 1, 9, 10),
        }
    );
    assert_eq!(reader.state.index, 11);
}

#[test]
fn expression_failures() {
    let mut reader = Reader::new("{x}}");
    let error = expr::parse(&mut reader).err().unwrap();
    assert!(error.recoverable);
    assert_eq!(reader.state.index, 0);

    let mut reader = Reader::new("{{ }}");
    assert_eq!(
        expr::parse(&mut reader).err().unwrap(),
        Error {
            pos: Pos { line: 1, column: 4 },
            recoverable: false,
            inner: ParseError::TemplateVariable
        }
    );

    let mut reader = Reader::new("{{x}");
    assert_eq!(
        expr::parse(&mut reader).err().unwrap(),
        Error {
            pos: Pos { line: 1, column: 4 },
            recoverable: false,
            inner: ParseError::Expecting {
                value: "}}".to_string()
            }
        }
    );
}

#[test]
fn variable_names_take_letters_numbers_underscore_and_hyphen() {
    let mut reader = Reader::new("a_b-c9\u{e9}\u{4e2d}.d");
    assert_eq!(
        expr::variable_name(&mut reader).unwrap(),
        name("a_b-c9\u{e9}\u{4e2d}", 1, 1, 9)
    );
    assert_eq!(reader.peek(), Some('.'));
    assert_eq!(
        expr::variable_name(&mut reader).err().unwrap(),
        Error {
            pos: Pos { line: 1, column: 9 },
            recoverable: false,
            inner: ParseError::TemplateVariable
        }
    );
}

#[test]
fn quoted_oneline_string_takes_backslashes_as_they_are() {
    let mut reader = Reader::new("\"a\\nb #{{x}}\" rest");
    assert_eq!(
        quoted_oneline_string(&mut reader).unwrap(),
        "a\\nb #{{x}}"
    );
    assert_eq!(reader.state.index, 13);
}

#[test]
fn quoted_oneline_string_needs_both_quotes() {
    let mut reader = Reader::new("abc\"");
    assert_eq!(
        quoted_oneline_string(&mut reader).err().unwrap(),
        Error {
            pos: Pos { line: 1, column: 1 },
            recoverable: false,
            inner: ParseError::Expecting {
                value: "\"".to_string()
            }
        }
    );
    let mut reader = Reader::new("\"abc\ndef\"");
    assert_eq!(
        quoted_oneline_string(&mut reader).err().unwrap(),
        Error {
            pos: Pos { line: 1, column: 5 },
            recoverable: false,
            inner: ParseError::Expecting {
                value: "\"".to_string()
            }
        }
    );
    let mut reader = Reader::new("\"abc");
    assert!(!quoted_oneline_string(&mut reader).err().unwrap().recoverable);
}

#[test]
fn keys_take_their_own_set_of_characters() {
    let mut reader = Reader::new("a.b-c_d[0]@e$f\u{e9}9=1");
    assert_eq!(
        unquoted_string_key(&mut reader).unwrap(),
        EncodedString {
            value: "a.b-c_d[0]@e$f\u{e9}9".to_string(),
            encoded: "a.b-c_d[0]@e$f\u{e9}9".to_string(),
            quotes: false,
            source_info: SourceInfo::new(1, 1, 1, 17),
        }
    );
    assert_eq!(reader.peek(), Some('='));
}

#[test]
fn keys_fail_recoverably_when_empty() {
    for text in ["", ":", " key", "#", "{x}", "\"k\""] {
        let mut reader = Reader::new(text);
        let error = unquoted_string_key(&mut reader).err().unwrap();
        assert_eq!(
            error,
            Error {
                pos: Pos { line: 1, column: 1 },
                recoverable: true,
                inner: ParseError::Expecting {
                    value: "key string".to_string()
                }
            }
        );
        assert_eq!(reader.state.index, 0);
    }
}

#[test]
fn keys_decode_escapes() {
    let mut reader = Reader::new("a\\tb\\#c\\u{3a}:");
    assert_eq!(
        unquoted_string_key(&mut reader).unwrap(),
        EncodedString {
            value: "a\tb#c:".to_string(),
            encoded: "a\\tb\\#c\\u{3a}".to_string(),
            quotes: false,
            source_info: SourceInfo::new(1, 1, 1, 14),
        }
    );
}

#[test]
fn name_and_key_characters_given_their_class() {
    for c in ['a', '9', '\u{e9}', '_', '-'] {
        assert!(name_char_of(c, c.is_alphanumeric()));
        assert!(key_char_of(c, c.is_alphanumeric()));
    }
    for c in ['.', '[', ']', '@', '$'] {
        assert!(!name_char_of(c, false));
        assert!(key_char_of(c, false));
    }
    for c in [' ', ':', '{', '}', '#', '"', '\\', '/', '=', '\n'] {
        assert!(!name_char_of(c, false));
        assert!(!key_char_of(c, false));
        // a letter or a number is taken whatever it is
        assert!(name_char_of(c, true));
        assert!(key_char_of(c, true));
    }
}

#[test]
fn a_key_that_is_refused_has_not_moved() {
    for text in ["[0]:", "[", "[a.b]", ":", ""] {
        let source = format!("x{text}");
        let mut reader = Reader::new(&source);
        reader.read();
        let before = reader.state;
        let error = unquoted_string_key(&mut reader).err().unwrap();
        assert!(error.recoverable);
        assert_eq!(error.pos, before.pos);
        assert_eq!(reader.state, before);
    }
}
