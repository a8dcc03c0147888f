use hurl_core::ast::{
    Expr, Float, Pos, Predicate, PredicateFunc, PredicateFuncValue, PredicateValue, SourceInfo,
    Template, TemplateElement, Variable, Whitespace,
};
use hurl_core::error::ParseError;
use hurl_core::predicate::{
    date_predicate, equal_predicate, predicate, predicate_func, predicate_not, start_with_predicate,
};
use hurl_core::reader::Reader;

#[test]
fn test_predicate_not() {
    let mut reader = Reader::new("notXX");
    assert_eq!(
        predicate_not(&mut reader),
        (
            false,
            Whitespace {
                value: String::new(),
                source_info: SourceInfo::new(1, 1, 1, 1),
            }
        )
    );
    assert_eq!(reader.state.pos, Pos { line: 1, column: 1 });

    let mut reader = Reader::new("not XX");
    assert_eq!(
        predicate_not(&mut reader),
        (
            true,
            Whitespace {
                value: String::from(" "),
                source_info: SourceInfo::new(1, 4, 1, 5),
            }
        )
    );
    assert_eq!(reader.state.pos, Pos { line: 1, column: 5 });
}

#[test]
fn test_predicate() {
    let mut reader = Reader::new("not equals true");
    assert_eq!(
        predicate(&mut reader).unwrap(),
        Predicate {
            not: true,
            space0: Whitespace {
                value: String::from(" "),
                source_info: SourceInfo::new(1, 4, 1, 5),
            },
            predicate_func: PredicateFunc {
                source_info: SourceInfo::new(1, 5, 1, 16),
                value: PredicateFuncValue::Equal {
                    space0: Whitespace {
                        value: String::from(" "),
                        source_info: SourceInfo::new(1, 11, 1, 12),
                    },
                    value: PredicateValue::Bool(true),
                    operator: false,
                },
            },
        }
    );
}

#[test]
fn test_predicate_func() {
    let mut reader = Reader::new("tata equals 1");
    let error = predicate_func(&mut reader).err().unwrap();
    assert_eq!(error.pos, Pos { line: 1, column: 1 });
    assert!(!error.recoverable);
    assert_eq!(error.inner, ParseError::Predicate);
}

#[test]
fn test_equal_predicate() {
    let mut reader = Reader::new("equals  true");
    assert_eq!(
        equal_predicate(&mut reader).unwrap(),
        PredicateFuncValue::Equal {
            value: PredicateValue::Bool(true),
            space0: Whitespace {
                value: String::from("  "),
                source_info: SourceInfo::new(1, 7, 1, 9),
            },

            operator: false,
        }
    );

    let mut reader = Reader::new("equals 1.1");
    assert_eq!(
        equal_predicate(&mut reader).unwrap(),
        PredicateFuncValue::Equal {
            value: PredicateValue::Float(Float {
                encoded: "1.1".to_string(),
            }),
            space0: Whitespace {
                value: String::from(" "),
                source_info: SourceInfo::new(1, 7, 1, 8),
            },
            operator: false,
        }
    );

    let mut reader = Reader::new("equals 1.1");
    match equal_predicate(&mut reader).unwrap() {
        PredicateFuncValue::Equal {
            value: PredicateValue::Float(float),
            ..
        } => assert_eq!(float.encoded.parse::<f64>().unwrap(), 1.1),
        other => panic!("no float: {other:?}"),
    }

    let mut reader = Reader::new("equals 2");
    assert_eq!(
        equal_predicate(&mut reader).unwrap(),
        PredicateFuncValue::Equal {
            value: PredicateValue::Integer(2),
            space0: Whitespace {
                value: String::from(" "),
                source_info: SourceInfo::new(1, 7, 1, 8),
            },
            operator: false,
        },
    );

    let mut reader = Reader::new("== 2");
    assert_eq!(
        equal_predicate(&mut reader).unwrap(),
        PredicateFuncValue::Equal {
            value: PredicateValue::Integer(2),
            space0: Whitespace {
                value: String::from(" "),
                source_info: SourceInfo::new(1, 3, 1, 4),
            },
            operator: true,
        },
    );

    let mut reader = Reader::new("equals \"Bob\"");
    assert_eq!(
        equal_predicate(&mut reader).unwrap(),
        PredicateFuncValue::Equal {
            value: PredicateValue::String(Template {
                delimiter: Some('"'),
                elements: vec![TemplateElement::String {
                    value: "Bob".to_string(),
                    encoded: "Bob".to_string(),
                }],
                source_info: SourceInfo::new(1, 8, 1, 13),
            }),
            space0: Whitespace {
                value: String::from(" "),
                source_info: SourceInfo::new(1, 7, 1, 8),
            },
            operator: false,
        }
    );
}

#[test]
fn test_equal_expression_predicate() {
    let mut reader = Reader::new("equals {{count}}");
    assert_eq!(
        equal_predicate(&mut reader).unwrap(),
        PredicateFuncValue::Equal {
            value: PredicateValue::Expression(Expr {
                space0: Whitespace {
                    value: String::new(),
                    source_info: SourceInfo::new(1, 10, 1, 10),
                },
                variable: Variable {
                    name: "count".to_string(),
                    source_info: SourceInfo::new(1, 10, 1, 15),
                },
                space1: Whitespace {
                    value: String::new(),
                    source_info: SourceInfo::new(1, 15, 1, 15),
                },
            }),
            space0: Whitespace {
                value: String::from(" "),
                source_info: SourceInfo::new(1, 7, 1, 8),
            },
            operator: false,
        }
    );
}

#[test]
fn test_start_with_predicate() {
    let mut reader = Reader::new("startsWith 2");
    let error = start_with_predicate(&mut reader).err().unwrap();
    assert_eq!(
        error.pos,
        Pos {
            line: 1,
            column: 12,
        }
    );
    assert!(!error.recoverable);
    assert_eq!(error.inner, ParseError::PredicateValue);
}

#[test]
fn test_date_predicate() {
    let mut reader = Reader::new("isDate");
    let result = date_predicate(&mut reader);
    assert_eq!(result.unwrap(), PredicateFuncValue::IsDate);
}
