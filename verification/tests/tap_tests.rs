use hurl_core::tap::{
    appended, is_whitespace, parse_tap_report, render_tap_report, trim_bounds, Testcase,
};

#[test]
fn test_parse_tap_report() {
    let s = r#"1..3
ok 1 - tests_ok/test.1.hurl
 ok 2  -tests_ok/test.2.hurl
nok 3 - tests_ok/test.3.hurl

"#;
    assert_eq!(
        parse_tap_report(s).unwrap(),
        vec![
            Testcase {
                description: "tests_ok/test.1.hurl".to_string(),
                success: true
            },
            Testcase {
                description: "tests_ok/test.2.hurl".to_string(),
                success: true
            },
            Testcase {
                description: "tests_ok/test.3.hurl".to_string(),
                success: false
            }
        ]
    )
}

#[test]
fn tap_empty_text_is_an_empty_report() {
    assert_eq!(parse_tap_report("").unwrap(), vec![]);
}

#[test]
fn tap_header_alone() {
    assert_eq!(parse_tap_report("1..0\n").unwrap(), vec![]);
    assert_eq!(parse_tap_report("1..0").unwrap(), vec![]);
    assert_eq!(parse_tap_report("+1..+12\r\n").unwrap(), vec![]);
    assert_eq!(parse_tap_report("1..2..x\n").unwrap(), vec![]);
}

#[test]
fn tap_bad_header() {
    for header in ["", "1", "1.3", "a..3", "1..b", "1...3", "..", "1..", "-1..3", " 1..3", "1.. 3"] {
        let text = format!("{header}\nok 1 - a\n");
        let error = parse_tap_report(&text).err().unwrap();
        assert_eq!(error.message, format!("Invalid TAP Header <{header}>"));
    }
}

#[test]
fn tap_header_count_must_fit() {
    let text = format!("1..{}\n", usize::MAX);
    assert_eq!(parse_tap_report(&text).unwrap(), vec![]);
    let text = format!("1..{}0\n", usize::MAX);
    assert!(parse_tap_report(&text).is_err());
    let text = "1..99999999999999999999999999999999999999999\n";
    assert_eq!(
        parse_tap_report(text).err().unwrap().message,
        "Invalid TAP Header <1..99999999999999999999999999999999999999999>"
    );
}

#[test]
fn tap_line_errors() {
    let error = parse_tap_report("1..1\nfine 1 - a\n").err().unwrap();
    assert_eq!(
        error.message,
        "Invalid TAP line <fine 1 - a> - must start with ok or nok"
    );
    let error = parse_tap_report("1..1\nok 1 a\n").err().unwrap();
    assert_eq!(error.message, "Invalid TAP line < 1 a> - missing '-' separator");
    let error = parse_tap_report("1..1\nok one - a\n").err().unwrap();
    assert_eq!(error.message, "Invalid TAP line < one - a> - missing test number");
    let error = parse_tap_report("1..1\nok - a\n").err().unwrap();
    assert_eq!(error.message, "Invalid TAP line < - a> - missing test number");
}

#[test]
fn tap_first_bad_line_wins() {
    let error = parse_tap_report("1..3\nok 1 - a\nok b\nnope\n").err().unwrap();
    assert_eq!(error.message, "Invalid TAP line < b> - missing '-' separator");
}

#[test]
fn tap_testcase_parse() {
    assert_eq!(
        Testcase::parse("ok 1 - this is the first test").unwrap(),
        Testcase {
            description: "this is the first test".to_string(),
            success: true
        }
    );
    assert_eq!(
        Testcase::parse("not ok 2 - this is the second test").unwrap(),
        Testcase {
            description: "this is the second test".to_string(),
            success: false
        }
    );
    assert_eq!(
        Testcase::parse("nok 3 - a - b").unwrap(),
        Testcase {
            description: "a - b".to_string(),
            success: false
        }
    );
    assert_eq!(
        Testcase::parse("ok 4 -\u{a0}\ttabs and spaces \u{2003}").unwrap(),
        Testcase {
            description: "tabs and spaces".to_string(),
            success: true
        }
    );
    assert_eq!(
        Testcase::parse("ok 5 -").unwrap(),
        Testcase {
            description: String::new(),
            success: true
        }
    );
}

#[test]
fn tap_carriage_returns() {
    let cases = parse_tap_report("1..2\r\nok 1 - a\r\nok 2 - b\r").unwrap();
    assert_eq!(cases.len(), 2);
    assert_eq!(cases[0].description, "a");
    assert_eq!(cases[1].description, "b");
}

#[test]
fn tap_render() {
    let cases = vec![
        Testcase {
            description: "first".to_string(),
            success: true,
        },
        Testcase {
            description: "second".to_string(),
            success: false,
        },
    ];
    assert_eq!(
        render_tap_report(&cases),
        "1..2\nok 1 - first\nnot ok 2 - second\n"
    );
    assert_eq!(render_tap_report(&vec![]), "1..0\n");
}

#[test]
fn tap_render_numbers_with_several_digits() {
    let mut cases = vec![];
    for i in 0..120 {
        cases.push(Testcase {
            description: format!("t{i}"),
            success: i % 7 != 0,
        });
    }
    let text = render_tap_report(&cases);
    assert!(text.starts_with("1..120\nnot ok 1 - t0\nok 2 - t1\n"));
    assert!(text.contains("\nok 10 - t9\n"));
    assert!(text.contains("\nok 100 - t99\n"));
    assert!(text.ends_with("\nnot ok 120 - t119\n"));
}

#[test]
fn tap_render_then_parse() {
    let mut cases = vec![];
    for i in 0..25 {
        cases.push(Testcase {
            description: format!("tests/case-{i}.hurl"),
            success: i % 3 != 0,
        });
    }
    assert_eq!(parse_tap_report(&render_tap_report(&cases)).unwrap(), cases);
}

#[test]
fn tap_appended() {
    let old = vec![Testcase {
        description: "a".to_string(),
        success: true,
    }];
    let new = vec![
        Testcase {
            description: "b".to_string(),
            success: false,
        },
        Testcase {
            description: "c".to_string(),
            success: true,
        },
    ];
    let all = appended(old.clone(), &new);
    assert_eq!(all.len(), 3);
    assert_eq!(all[0], old[0]);
    assert_eq!(all[1], new[0]);
    assert_eq!(all[2], new[1]);
    assert_eq!(appended(vec![], &vec![]), vec![]);
}

#[test]
fn tap_trim_bounds() {
    let (t, f) = (true, false);
    assert_eq!(trim_bounds(&vec![]), (0, 0));
    assert_eq!(trim_bounds(&vec![t, t, t]), (3, 3));
    assert_eq!(trim_bounds(&vec![f]), (0, 1));
    assert_eq!(trim_bounds(&vec![t, f, t, f, t, t]), (1, 4));
    assert_eq!(trim_bounds(&vec![f, t, t]), (0, 1));
    assert_eq!(trim_bounds(&vec![t, t, f]), (2, 3));
}

#[test]
fn tap_a_carriage_return_without_a_line_feed_stays_in_its_line() {
    let error = parse_tap_report("1..3\r").err().unwrap();
    assert_eq!(error.message, "Invalid TAP Header <1..3\r>");
    assert_eq!(parse_tap_report("1..3\r\n").unwrap(), vec![]);
    let error = parse_tap_report("1..3\rok 1 - a\n").err().unwrap();
    assert_eq!(error.message, "Invalid TAP Header <1..3\rok 1 - a>");
    // only one carriage return belongs to the line ending
    let error = parse_tap_report("1..3\r\r\n").err().unwrap();
    assert_eq!(error.message, "Invalid TAP Header <1..3\r>");
}

#[test]
fn tap_lines_end_as_those_of_the_standard_library() {
    for text in ["bad\r", "bad\rx\r\nok 1 - a", "bad x\r\n", "bad\n\r"] {
        let report = format!("1..1\n{text}");
        let line = report.lines().nth(1).unwrap();
        let error = parse_tap_report(&report).err().unwrap();
        assert_eq!(
            error.message,
            format!("Invalid TAP line <{}> - must start with ok or nok", line.trim())
        );
    }
    // a line that is no test is shown as the standard library splits it
    let error = parse_tap_report("1..1\nbad\r").err().unwrap();
    assert_eq!(
        error.message,
        "Invalid TAP line <bad> - must start with ok or nok"
    );
    let error = parse_tap_report("1..1\nbad\rx\r\nok 1 - a").err().unwrap();
    assert_eq!(
        error.message,
        "Invalid TAP line <bad\rx> - must start with ok or nok"
    );
}

#[test]
fn tap_white_space_is_that_of_the_standard_library() {
    for code in 0..=0x10ffffu32 {
        if let Some(c) = char::from_u32(code) {
            assert_eq!(is_whitespace(c), c.is_whitespace(), "U+{code:04X}");
        }
    }
}
