use hurl_core::ast::{Pos, SourceInfo};
use hurl_core::reader::{utf8_width, Reader, ReaderState};

#[test]
fn reader_starts_at_line_one_column_one() {
    let reader = Reader::new("abc");
    assert_eq!(
        reader.state,
        ReaderState {
            cursor: 0,
            index: 0,
            pos: Pos { line: 1, column: 1 }
        }
    );
    assert_eq!(reader.buffer, vec!['a', 'b', 'c']);
    assert!(reader.notices.is_empty());
    assert!(!reader.is_eof());
    assert!(Reader::new("").is_eof());
}

#[test]
fn reader_new_at_keeps_the_given_position() {
    let mut reader = Reader::new_at("ab", Pos { line: 7, column: 30 });
    assert_eq!(reader.state.pos, Pos { line: 7, column: 30 });
    assert_eq!(reader.state.cursor, 0);
    assert_eq!(reader.read(), Some('a'));
    assert_eq!(reader.state.pos, Pos { line: 7, column: 31 });
}

#[test]
fn reader_read_counts_lines_and_columns() {
    let mut reader = Reader::new("ab\nc\n\nd");
    let mut seen = vec![];
    while let Some(c) = reader.read() {
        seen.push((c, reader.state.pos.line, reader.state.pos.column));
    }
    assert_eq!(
        seen,
        vec![
            ('a', 1, 2),
            ('b', 1, 3),
            ('\n', 2, 1),
            ('c', 2, 2),
            ('\n', 3, 1),
            ('\n', 4, 1),
            ('d', 4, 2),
        ]
    );
    assert_eq!(reader.state.index, 7);
    assert_eq!(reader.state.cursor, 7);
}

#[test]
fn reader_read_at_the_end_changes_nothing() {
    let mut reader = Reader::new("x");
    assert_eq!(reader.read(), Some('x'));
    let state = reader.state;
    assert_eq!(reader.read(), None);
    assert_eq!(reader.read(), None);
    assert_eq!(reader.state, state);
    assert_eq!(reader.peek(), None);
    assert!(reader.is_eof());
}

#[test]
fn reader_cursor_counts_bytes_and_index_counts_characters() {
    // two, one, three, four bytes, one
    let text = "\u{e9}a\u{20ac}\u{1F600}z";
    let mut reader = Reader::new(text);
    let mut cursors = vec![];
    while reader.read().is_some() {
        cursors.push((reader.state.index, reader.state.cursor));
    }
    assert_eq!(cursors, vec![(1, 2), (2, 3), (3, 6), (4, 10), (5, 11)]);
    assert_eq!(reader.state.cursor, text.len());
    assert_eq!(reader.state.pos, Pos { line: 1, column: 6 });
}

#[test]
fn reader_utf8_width_is_the_length_in_bytes() {
    for c in ['\0', 'a', '\u{7f}', '\u{80}', '\u{7ff}', '\u{800}', '\u{ffff}', '\u{10000}', '\u{10ffff}'] {
        assert_eq!(utf8_width(c), c.len_utf8());
    }
}

#[test]
fn reader_peek_does_not_move() {
    let mut reader = Reader::new("ab");
    assert_eq!(reader.peek(), Some('a'));
    assert_eq!(reader.peek(), Some('a'));
    assert_eq!(reader.state.index, 0);
    reader.read();
    assert_eq!(reader.peek(), Some('b'));
}

#[test]
fn reader_restore_undoes_every_read_since_the_snapshot() {
    let mut reader = Reader::new("a\nb\u{e9}c");
    reader.read();
    let saved = reader.snapshot();
    assert_eq!(
        saved,
        ReaderState {
            cursor: 1,
            index: 1,
            pos: Pos { line: 1, column: 2 }
        }
    );
    while reader.read().is_some() {}
    assert_eq!(reader.state.pos, Pos { line: 2, column: 4 });
    reader.restore(saved);
    assert_eq!(reader.state, saved);
    assert_eq!(reader.buffer, vec!['a', '\n', 'b', '\u{e9}', 'c']);
    assert_eq!(reader.read(), Some('\n'));
    // a snapshot can be used more than once
    reader.restore(saved);
    assert_eq!(reader.read(), Some('\n'));
}

#[test]
fn reader_read_while_takes_the_longest_run() {
    let mut reader = Reader::new("123abc");
    assert_eq!(reader.read_while(|c| c.is_ascii_digit()), "123");
    assert_eq!(reader.state.index, 3);
    assert_eq!(reader.state.pos, Pos { line: 1, column: 4 });
    assert_eq!(reader.read_while(|c| c.is_ascii_digit()), "");
    assert_eq!(reader.state.index, 3);
    assert_eq!(reader.read_while(|_| true), "abc");
    assert!(reader.is_eof());
    assert_eq!(reader.read_while(|_| true), "");
}

#[test]
fn reader_text_since_gives_the_text_as_written() {
    let mut reader = Reader::new("ab\\u{20}cd");
    reader.read();
    let from = reader.snapshot();
    assert_eq!(reader.text_since(from), "");
    for _ in 0..7 {
        reader.read();
    }
    assert_eq!(reader.text_since(from), "b\\u{20}");
    let later = reader.snapshot();
    reader.restore(from);
    assert_eq!(reader.text_since(later), "");
}

#[test]
fn source_info_new_orders_its_arguments_as_start_and_end() {
    assert_eq!(
        SourceInfo::new(1, 2, 3, 4),
        SourceInfo {
            start: Pos { line: 1, column: 2 },
            end: Pos { line: 3, column: 4 }
        }
    );
}

#[test]
fn reader_try_new_gives_a_reader_for_a_text_of_any_usual_length() {
    let reader = Reader::try_new("not isDate").unwrap();
    assert_eq!(reader.buffer.len(), 10);
    assert_eq!(
        reader.state,
        ReaderState {
            cursor: 0,
            index: 0,
            pos: Pos { line: 1, column: 1 }
        }
    );
    assert!(Reader::try_new("").unwrap().is_eof());
}
