//! Test reports in the TAP format: a header `1..N` and one line for each
//! test, `ok 1 - description` or `not ok 2 - description`.
use crate::primitives::{decimal, is_digit, lemma_decimal_grows};
use vstd::prelude::*;

verus! {

/// One test of a report.
#[derive(Clone, Debug, PartialEq, Eq)]
pub struct Testcase {
    pub description: String,
    pub success: bool,
}

/// The model of `Testcase`.
#[verifier::ext_equal]
pub struct TestcaseView {
    pub description: Seq<char>,
    pub success: bool,
}

impl DeepView for Testcase {
    type V = TestcaseView;

    open spec fn deep_view(&self) -> TestcaseView {
        TestcaseView { description: self.description@, success: self.success }
    }
}

/// A report that cannot be read.
#[derive(Clone, Debug, PartialEq, Eq)]
pub struct Error {
    pub message: String,
}

/// Whether `c` is white space: one of the characters with the Unicode
/// property `White_Space`.
pub open spec fn whitespace(c: char) -> bool {
    ('\u{9}' <= c && c <= '\u{d}') || c == ' ' || c == '\u{85}' || c == '\u{a0}' || c == '\u{1680}'
        || ('\u{2000}' <= c && c <= '\u{200a}') || c == '\u{2028}' || c == '\u{2029}'
        || c == '\u{202f}' || c == '\u{205f}' || c == '\u{3000}'
}

/// Tells whether `c` is white space.
pub fn is_whitespace(c: char) -> (b: bool)
    ensures
        b == whitespace(c),
{
    ('\u{9}' <= c && c <= '\u{d}') || c == ' ' || c == '\u{85}' || c == '\u{a0}' || c == '\u{1680}'
        || ('\u{2000}' <= c && c <= '\u{200a}') || c == '\u{2028}' || c == '\u{2029}'
        || c == '\u{202f}' || c == '\u{205f}' || c == '\u{3000}'
}

/// The index of the first `c` in `s` at or after `from`; the length of `s`
/// if there is none.
pub open spec fn index_of(s: Seq<char>, c: char, from: int) -> int
    decreases s.len() - from,
{
    if from < 0 || from >= s.len() {
        s.len() as int
    } else if s[from] == c {
        from
    } else {
        index_of(s, c, from + 1)
    }
}

/// The index of the first `..` in `s` at or after `from`; the length of `s`
/// if there is none.
pub open spec fn dots_in(s: Seq<char>, from: int) -> int
    decreases s.len() - from,
{
    if from < 0 || from + 1 >= s.len() {
        s.len() as int
    } else if s[from] == '.' && s[from + 1] == '.' {
        from
    } else {
        dots_in(s, from + 1)
    }
}

/// For each character of `s`, whether it is white space.
pub open spec fn spaces_of(s: Seq<char>) -> Seq<bool> {
    Seq::new(s.len(), |i: int| whitespace(s[i]))
}

/// The index of the first character at or after `from` that is not white
/// space, given for each character whether it is; the number of characters
/// if there is none.
pub open spec fn after_space(space: Seq<bool>, from: int) -> int
    decreases space.len() - from,
{
    if from < 0 || from >= space.len() {
        space.len() as int
    } else if !space[from] {
        from
    } else {
        after_space(space, from + 1)
    }
}

/// The index after the last character before `to` that is not white space,
/// and not before `from`, given for each character whether it is.
pub open spec fn before_space(space: Seq<bool>, from: int, to: int) -> int
    decreases to - from,
{
    if to <= from || to > space.len() {
        from
    } else if !space[to - 1] {
        to
    } else {
        before_space(space, from, to - 1)
    }
}

/// `s` without the white space at its ends.
pub open spec fn trimmed(s: Seq<char>) -> Seq<char> {
    let from = after_space(spaces_of(s), 0);
    s.subrange(from, before_space(spaces_of(s), from, s.len() as int))
}

/// `s` without the `+` that it may begin with.
pub open spec fn unsigned(s: Seq<char>) -> Seq<char> {
    if s.len() > 0 && s[0] == '+' {
        s.skip(1)
    } else {
        s
    }
}

/// Every character of `s` is a decimal digit.
pub open spec fn all_digits(s: Seq<char>) -> bool {
    forall|i: int| 0 <= i < s.len() ==> is_digit(#[trigger] s[i])
}

/// `s` writes a number that fits in `usize`: an optional `+`, then one or
/// more decimal digits.
pub open spec fn is_count(s: Seq<char>) -> bool {
    &&& unsigned(s).len() > 0
    &&& all_digits(unsigned(s))
    &&& decimal(unsigned(s)) <= usize::MAX
}

/// `s` begins with `word`.
pub open spec fn begins_with(s: Seq<char>, word: Seq<char>) -> bool {
    word.len() <= s.len() && s.subrange(0, word.len() as int) == word
}

/// The search for a character stays inside the text.
pub proof fn lemma_index_of(s: Seq<char>, c: char, from: int)
    requires
        0 <= from <= s.len(),
    ensures
        from <= index_of(s, c, from) <= s.len(),
        index_of(s, c, from) < s.len() ==> s[index_of(s, c, from)] == c,
        forall|i: int| from <= i < index_of(s, c, from) ==> s[i] != c,
    decreases s.len() - from,
{
    if from < s.len() && s[from] != c {
        lemma_index_of(s, c, from + 1);
    }
}

/// `s` without a carriage return at its end.
pub open spec fn strip_cr(s: Seq<char>) -> Seq<char> {
    if s.len() > 0 && s.last() == '\r' {
        s.drop_last()
    } else {
        s
    }
}

/// The lines of `text` from `from` on. A line ends before a line feed, or
/// before a carriage return and a line feed, or at the end of the text;
/// nothing follows the last line feed. A carriage return that no line feed
/// follows belongs to its line.
pub open spec fn lines_from(text: Seq<char>, from: int) -> Seq<Seq<char>>
    decreases text.len() - from,
    via lines_from_ends
{
    if from < 0 || from >= text.len() {
        Seq::empty()
    } else {
        let end = index_of(text, '\n', from);
        if end >= text.len() {
            seq![text.subrange(from, end)]
        } else {
            seq![strip_cr(text.subrange(from, end))] + lines_from(text, end + 1)
        }
    }
}

/// A line never ends before it begins.
#[via_fn]
proof fn lines_from_ends(text: Seq<char>, from: int) {
    if 0 <= from < text.len() {
        lemma_index_of(text, '\n', from);
    }
}

/// The header of a report is two counts with `..` between them. What
/// follows a second `..` is not looked at.
pub open spec fn is_header(line: Seq<char>) -> bool {
    let first = dots_in(line, 0);
    let second = dots_in(line, first + 2);
    &&& first < line.len()
    &&& is_count(line.subrange(0, first))
    &&& is_count(line.subrange(first + 2, second))
}

/// The message for a header that is none.
pub open spec fn bad_header(line: Seq<char>) -> Seq<char> {
    "Invalid TAP Header <"@ + line + ">"@
}

/// The message for a line that does not say how its test ended.
pub open spec fn bad_start(line: Seq<char>) -> Seq<char> {
    "Invalid TAP line <"@ + line + "> - must start with ok or nok"@
}

/// The message for a line without `-`.
pub open spec fn no_separator(rest: Seq<char>) -> Seq<char> {
    "Invalid TAP line <"@ + rest + "> - missing '-' separator"@
}

/// The message for a line without the number of its test.
pub open spec fn no_number(rest: Seq<char>) -> Seq<char> {
    "Invalid TAP line <"@ + rest + "> - missing test number"@
}

/// What a line says after the word that tells how the test ended: the
/// number of the test, `-`, and the description. The description is what
/// follows the first `-`, trimmed; the number is what stands before it,
/// trimmed, and must be a count.
pub open spec fn described(rest: Seq<char>, success: bool) -> Result<TestcaseView, Seq<char>> {
    let dash = index_of(rest, '-', 0);
    if dash >= rest.len() {
        Err(no_separator(rest))
    } else if !is_count(trimmed(rest.subrange(0, dash))) {
        Err(no_number(rest))
    } else {
        Ok(TestcaseView { description: trimmed(rest.subrange(dash + 1, rest.len() as int)), success })
    }
}

/// The test that a line reports. The line begins with `ok` for a test that
/// passed, and with `not ok` or `nok` for one that failed.
pub open spec fn testcase_of(line: Seq<char>) -> Result<TestcaseView, Seq<char>> {
    if begins_with(line, "ok"@) {
        described(line.subrange(2, line.len() as int), true)
    } else if begins_with(line, "not ok"@) {
        described(line.subrange(6, line.len() as int), false)
    } else if begins_with(line, "nok"@) {
        described(line.subrange(3, line.len() as int), false)
    } else {
        Err(bad_start(line))
    }
}

/// The tests that the lines from `from` on report. Lines of white space
/// only are passed over; the first line that reports no test is the failure
/// of the whole.
pub open spec fn testcases_from(lines: Seq<Seq<char>>, from: int) -> Result<Seq<TestcaseView>, Seq<char>>
    decreases lines.len() - from,
{
    if from < 0 || from >= lines.len() {
        Ok(Seq::empty())
    } else {
        let line = trimmed(lines[from]);
        let rest = testcases_from(lines, from + 1);
        if line.len() == 0 {
            rest
        } else {
            match testcase_of(line) {
                Err(message) => Err(message),
                Ok(testcase) => match rest {
                    Ok(others) => Ok(seq![testcase] + others),
                    Err(message) => Err(message),
                },
            }
        }
    }
}

/// The tests of a report. An empty text is a report without tests;
/// otherwise the first line must be a header, and the other lines report
/// the tests.
pub open spec fn report_of(text: Seq<char>) -> Result<Seq<TestcaseView>, Seq<char>> {
    let lines = lines_from(text, 0);
    if lines.len() == 0 {
        Ok(Seq::empty())
    } else if !is_header(lines[0]) {
        Err(bad_header(lines[0]))
    } else {
        testcases_from(lines, 1)
    }
}

/// The model of the result of reading a report.
pub open spec fn outcome<T: DeepView>(r: Result<T, Error>) -> Result<T::V, Seq<char>> {
    match r {
        Ok(v) => Ok(v.deep_view()),
        Err(e) => Err(e.message@),
    }
}

/// The characters of `s`.
fn chars_of(s: &str) -> (v: Vec<char>)
    ensures
        v@ == s@,
{
    let mut v: Vec<char> = Vec::new();
    for c in it: s.chars()
        invariant
            v@ == it.seq().take(it.index() as int),
            it.seq() == s@,
    {
        v.push(c);
    }
    v
}

/// The characters `from..to` of `v`, as a string.
fn text_of(v: &Vec<char>, from: usize, to: usize) -> (s: String)
    requires
        from <= to <= v.len(),
    ensures
        s@ == v@.subrange(from as int, to as int),
{
    let mut s = String::new();
    let mut i = from;
    while i < to
        invariant
            from <= i <= to <= v.len(),
            s@ == v@.subrange(from as int, i as int),
        decreases to - i,
    {
        s.push(v[i]);
        i = i + 1;
        assert(s@ =~= v@.subrange(from as int, i as int));
    }
    s
}

/// The characters `from..to` of `v`.
fn part_of(v: &Vec<char>, from: usize, to: usize) -> (part: Vec<char>)
    requires
        from <= to <= v.len(),
    ensures
        part@ == v@.subrange(from as int, to as int),
{
    let mut part: Vec<char> = Vec::new();
    let mut i = from;
    while i < to
        invariant
            from <= i <= to <= v.len(),
            part@ == v@.subrange(from as int, i as int),
        decreases to - i,
    {
        part.push(v[i]);
        i = i + 1;
        assert(part@ =~= v@.subrange(from as int, i as int));
    }
    part
}

/// Finds the first `c` at or after `from`.
fn find(v: &Vec<char>, c: char, from: usize) -> (i: usize)
    requires
        from <= v.len(),
    ensures
        i == index_of(v@, c, from as int),
        from <= i <= v.len(),
{
    let mut i = from;
    while i < v.len() && v[i] != c
        invariant
            from <= i <= v.len(),
            index_of(v@, c, from as int) == index_of(v@, c, i as int),
        decreases v.len() - i,
    {
        i = i + 1;
    }
    i
}

/// Finds the first `..` at or after `from`.
fn find_dots(v: &Vec<char>, from: usize) -> (i: usize)
    requires
        from <= v.len(),
    ensures
        i == dots_in(v@, from as int),
        from <= i <= v.len(),
        i < v.len() ==> i + 2 <= v.len(),
{
    let mut i = from;
    loop
        invariant
            from <= i <= v.len(),
            dots_in(v@, from as int) == dots_in(v@, i as int),
        decreases v.len() - i,
    {
        if i >= v.len() || v.len() - i < 2 {
            return v.len();
        }
        if v[i] == '.' && v[i + 1] == '.' {
            return i;
        }
        i = i + 1;
    }
}

/// Tells of each character whether it is white space.
fn classify(v: &Vec<char>) -> (space: Vec<bool>)
    ensures
        space@ == spaces_of(v@),
{
    let mut space: Vec<bool> = Vec::new();
    let mut i: usize = 0;
    while i < v.len()
        invariant
            i <= v.len(),
            space@.len() == i,
            forall|k: int| 0 <= k < i ==> space@[k] == whitespace(v@[k]),
        decreases v.len() - i,
    {
        space.push(is_whitespace(v[i]));
        i = i + 1;
    }
    assert(space@ =~= spaces_of(v@));
    space
}

/// Finds where a text begins and ends without the white space at its
/// ends, given for each character whether it is white space.
pub fn trim_bounds(space: &Vec<bool>) -> (bounds: (usize, usize))
    ensures
        bounds.0 == after_space(space@, 0),
        bounds.1 == before_space(space@, bounds.0 as int, space@.len() as int),
        bounds.0 <= bounds.1 <= space@.len(),
{
    let mut from: usize = 0;
    while from < space.len() && space[from]
        invariant
            from <= space.len(),
            after_space(space@, 0) == after_space(space@, from as int),
        decreases space.len() - from,
    {
        from = from + 1;
    }
    let mut to = space.len();
    while to > from && space[to - 1]
        invariant
            from <= to <= space.len(),
            before_space(space@, from as int, space@.len() as int) == before_space(
                space@,
                from as int,
                to as int,
            ),
        decreases to - from,
    {
        to = to - 1;
    }
    (from, to)
}

/// `v` without the white space at its ends.
fn trim(v: &Vec<char>) -> (t: Vec<char>)
    ensures
        t@ == trimmed(v@),
{
    let space = classify(v);
    let (from, to) = trim_bounds(&space);
    part_of(v, from, to)
}

/// Whether `v` writes a count.
fn count(v: &Vec<char>) -> (b: bool)
    ensures
        b == is_count(v@),
{
    let start: usize = if v.len() > 0 && v[0] == '+' {
        1
    } else {
        0
    };
    let ghost digits = unsigned(v@);
    if v.len() == start {
        return false;
    }
    let mut value: usize = 0;
    let mut i = start;
    while i < v.len()
        invariant
            start <= i <= v.len(),
            digits == unsigned(v@),
            digits.len() == v.len() - start,
            forall|j: int| 0 <= j < digits.len() ==> digits[j] == v@[start + j],
            forall|j: int| 0 <= j < i - start ==> is_digit(#[trigger] digits[j]),
            value == decimal(digits.take(i - start)),
        decreases v.len() - i,
    {
        let c = v[i];
        assert(digits[i - start] == c);
        if !('0' <= c && c <= '9') {
            assert(!is_digit(digits[i - start]));
            return false;
        }
        proof {
            assert(digits.take(i + 1 - start).drop_last() =~= digits.take(i - start));
            assert(digits.take(i + 1 - start).last() == c);
            lemma_decimal_grows(digits, i + 1 - start);
        }
        let d: usize = (c as u32 - '0' as u32) as usize;
        if value > (usize::MAX - d) / 10 {
            return false;
        }
        value = value * 10 + d;
        i = i + 1;
    }
    assert(digits.take(i - start) =~= digits);
    true
}

/// Whether `v` begins with `word`.
fn starts_with(v: &Vec<char>, word: &str) -> (b: bool)
    ensures
        b == begins_with(v@, word@),
{
    let mut i: usize = 0;
    for c in it: word.chars()
        invariant
            it.seq() == word@,
            i == it.index(),
            i <= v.len(),
            v@.subrange(0, i as int) == word@.subrange(0, i as int),
    {
        if i >= v.len() || v[i] != c {
            proof {
                if begins_with(v@, word@) {
                    assert(v@.subrange(0, word@.len() as int)[i as int] == word@[i as int]);
                }
            }
            return false;
        }
        i = i + 1;
        assert(v@.subrange(0, i as int) =~= word@.subrange(0, i as int));
    }
    assert(word@.subrange(0, i as int) =~= word@);
    true
}

/// The message `before`, `text`, `after`.
fn message(before: &str, text: &Vec<char>, after: &str) -> (e: Error)
    ensures
        e.message@ == before@ + text@ + after@,
{
    let mut message = before.to_owned();
    let shown = text_of(text, 0, text.len());
    assert(text@.subrange(0, text@.len() as int) =~= text@);
    message.append(shown.as_str());
    message.append(after);
    Error { message }
}

/// Reads the number and the description of a test.
fn describe(rest: &Vec<char>, success: bool) -> (r: Result<Testcase, Error>)
    ensures
        outcome(r) == described(rest@, success),
{
    let dash = find(rest, '-', 0);
    if dash >= rest.len() {
        return Err(message("Invalid TAP line <", rest, "> - missing '-' separator"));
    }
    let number = trim(&part_of(rest, 0, dash));
    if !count(&number) {
        return Err(message("Invalid TAP line <", rest, "> - missing test number"));
    }
    let words = trim(&part_of(rest, dash + 1, rest.len()));
    let description = text_of(&words, 0, words.len());
    assert(words@.subrange(0, words@.len() as int) =~= words@);
    Ok(Testcase { description, success })
}

/// Reads the line of one test.
fn testcase(line: &Vec<char>) -> (r: Result<Testcase, Error>)
    ensures
        outcome(r) == testcase_of(line@),
{
    proof {
        reveal_strlit("ok");
        reveal_strlit("not ok");
        reveal_strlit("nok");
    }
    if starts_with(line, "ok") {
        describe(&part_of(line, 2, line.len()), true)
    } else if starts_with(line, "not ok") {
        describe(&part_of(line, 6, line.len()), false)
    } else if starts_with(line, "nok") {
        describe(&part_of(line, 3, line.len()), false)
    } else {
        Err(message("Invalid TAP line <", line, "> - must start with ok or nok"))
    }
}

impl Testcase {
    /// Reads a test from its line in a report.
    pub fn parse(line: &str) -> (r: Result<Testcase, Error>)
        ensures
            outcome(r) == testcase_of(line@),
    {
        testcase(&chars_of(line))
    }
}

/// Whether `line` is the header of a report.
fn header(line: &Vec<char>) -> (b: bool)
    ensures
        b == is_header(line@),
{
    let first = find_dots(line, 0);
    if first >= line.len() {
        return false;
    }
    let second = find_dots(line, first + 2);
    count(&part_of(line, 0, first)) && count(&part_of(line, first + 2, second))
}

/// Splits a text into its lines.
fn lines_of(text: &Vec<char>) -> (lines: Vec<Vec<char>>)
    ensures
        lines.deep_view() == lines_from(text@, 0),
{
    let mut lines: Vec<Vec<char>> = Vec::new();
    let mut from: usize = 0;
    assert(lines.deep_view() =~= Seq::empty());
    assert(Seq::<Seq<char>>::empty() + lines_from(text@, 0) =~= lines_from(text@, 0));
    while from < text.len()
        invariant
            lines_from(text@, 0) == lines.deep_view() + lines_from(text@, from as int),
        decreases text.len() - from,
    {
        let end = find(text, '\n', from);
        let stop = if end < text.len() && end > from && text[end - 1] == '\r' {
            end - 1
        } else {
            end
        };
        let line = part_of(text, from, stop);
        let ghost before = lines.deep_view();
        proof {
            let whole = text@.subrange(from as int, end as int);
            if end < text.len() {
                assert(line@ =~= strip_cr(whole));
                let rest = lines_from(text@, end + 1);
                assert(before + (seq![line@] + rest) =~= before.push(line@) + rest);
            } else {
                assert(before + seq![line@] =~= before.push(line@));
            }
        }
        lines.push(line);
        assert(lines.deep_view() =~~= before.push(line@));
        if end >= text.len() {
            return lines;
        }
        from = end + 1;
    }
    assert(lines.deep_view() + Seq::<Seq<char>>::empty() =~= lines.deep_view());
    lines
}

/// Reads a report.
pub fn parse_tap_report(s: &str) -> (r: Result<Vec<Testcase>, Error>)
    ensures
        outcome(r) == report_of(s@),
{
    let text = chars_of(s);
    let lines = lines_of(&text);
    let mut testcases: Vec<Testcase> = Vec::new();
    assert(testcases.deep_view() =~= Seq::empty());
    if lines.len() == 0 {
        return Ok(testcases);
    }
    assert(lines.deep_view()[0] =~= lines@[0]@);
    if !header(&lines[0]) {
        return Err(message("Invalid TAP Header <", &lines[0], ">"));
    }
    let ghost all = lines.deep_view();
    let mut i: usize = 1;
    proof {
        lemma_prefix(Seq::empty(), testcases_from(all, 1));
    }
    while i < lines.len()
        invariant
            1 <= i <= lines.len(),
            all == lines.deep_view(),
            report_of(s@) == testcases_from(all, 1),
            testcases_from(all, 1) == with_prefix(testcases.deep_view(), testcases_from(all, i as int)),
        decreases lines.len() - i,
    {
        assert(all[i as int] =~= lines@[i as int]@);
        let line = trim(&lines[i]);
        let ghost before = testcases.deep_view();
        let ghost rest = testcases_from(all, i + 1);
        if line.len() > 0 {
            match testcase(&line) {
                Ok(found) => {
                    testcases.push(found);
                    proof {
                        assert(testcases.deep_view() =~= before.push(found.deep_view()));
                        if rest is Ok {
                            assert(before + (seq![found.deep_view()] + rest->Ok_0) =~= before.push(
                                found.deep_view(),
                            ) + rest->Ok_0);
                        }
                    }
                },
                Err(e) => {
                    return Err(e);
                },
            }
        }
        i = i + 1;
    }
    assert(testcases.deep_view() + Seq::<TestcaseView>::empty() =~= testcases.deep_view());
    Ok(testcases)
}

/// `rest`, with `found` before its tests.
pub open spec fn with_prefix(found: Seq<TestcaseView>, rest: Result<Seq<TestcaseView>, Seq<char>>) -> Result<
    Seq<TestcaseView>,
    Seq<char>,
> {
    match rest {
        Ok(others) => Ok(found + others),
        Err(message) => Err(message),
    }
}

/// Nothing before the tests changes nothing.
proof fn lemma_prefix(found: Seq<TestcaseView>, rest: Result<Seq<TestcaseView>, Seq<char>>)
    requires
        found.len() == 0,
    ensures
        with_prefix(found, rest) == rest,
{
    if rest is Ok {
        assert(found + rest->Ok_0 =~= rest->Ok_0);
    }
}

/// The decimal digit for `d`.
pub open spec fn digit_char(d: nat) -> char {
    if d == 0 {
        '0'
    } else if d == 1 {
        '1'
    } else if d == 2 {
        '2'
    } else if d == 3 {
        '3'
    } else if d == 4 {
        '4'
    } else if d == 5 {
        '5'
    } else if d == 6 {
        '6'
    } else if d == 7 {
        '7'
    } else if d == 8 {
        '8'
    } else {
        '9'
    }
}

/// `n` in base 10, without leading zeros.
pub open spec fn decimal_digits(n: nat) -> Seq<char>
    decreases n,
{
    if n < 10 {
        seq![digit_char(n)]
    } else {
        decimal_digits(n / 10).push(digit_char(n % 10))
    }
}

/// The line that reports test number `number`.
pub open spec fn line_of(number: nat, testcase: TestcaseView) -> Seq<char> {
    (if testcase.success {
        Seq::empty()
    } else {
        "not "@
    }) + "ok "@ + decimal_digits(number) + " - "@ + testcase.description + "\n"@
}

/// The lines that report the first `n` tests, numbered from 1.
pub open spec fn lines_for(testcases: Seq<TestcaseView>, n: nat) -> Seq<char>
    decreases n,
{
    if n == 0 {
        Seq::empty()
    } else {
        lines_for(testcases, (n - 1) as nat) + line_of(n, testcases[n - 1])
    }
}

/// The report of the tests: the header `1..N`, then one line for each test.
pub open spec fn rendered(testcases: Seq<TestcaseView>) -> Seq<char> {
    "1.."@ + decimal_digits(testcases.len()) + "\n"@ + lines_for(testcases, testcases.len())
}

/// Appends `n` in base 10.
fn push_decimal(s: &mut String, n: usize)
    ensures
        final(s)@ == old(s)@ + decimal_digits(n as nat),
    decreases n,
{
    if n >= 10 {
        push_decimal(s, n / 10);
    }
    let d = n % 10;
    let c = if d == 0 {
        '0'
    } else if d == 1 {
        '1'
    } else if d == 2 {
        '2'
    } else if d == 3 {
        '3'
    } else if d == 4 {
        '4'
    } else if d == 5 {
        '5'
    } else if d == 6 {
        '6'
    } else if d == 7 {
        '7'
    } else if d == 8 {
        '8'
    } else {
        '9'
    };
    s.push(c);
    proof {
        if n >= 10 {
            assert(final(s)@ =~= old(s)@ + decimal_digits((n / 10) as nat).push(c));
        } else {
            assert(final(s)@ =~= old(s)@ + seq![c]);
        }
    }
}

/// Appends the line that reports test number `number`.
fn push_line(s: &mut String, number: usize, testcase: &Testcase)
    ensures
        final(s)@ == old(s)@ + line_of(number as nat, testcase.deep_view()),
{
    if !testcase.success {
        s.append("not ");
    }
    s.append("ok ");
    push_decimal(s, number);
    s.append(" - ");
    s.append(testcase.description.as_str());
    s.append("\n");
    assert(final(s)@ =~= old(s)@ + line_of(number as nat, testcase.deep_view()));
}

/// Writes the report of the tests.
pub fn render_tap_report(testcases: &Vec<Testcase>) -> (s: String)
    ensures
        s@ == rendered(testcases.deep_view()),
{
    let ghost all = testcases.deep_view();
    let mut s = "1..".to_owned();
    push_decimal(&mut s, testcases.len());
    s.append("\n");
    let ghost head = s@;
    let mut i: usize = 0;
    assert(s@ =~= head + lines_for(all, 0));
    while i < testcases.len()
        invariant
            i <= testcases.len(),
            all == testcases.deep_view(),
            s@ == head + lines_for(all, i as nat),
        decreases testcases.len() - i,
    {
        let ghost before = lines_for(all, i as nat);
        push_line(&mut s, i + 1, &testcases[i]);
        proof {
            let line = line_of((i + 1) as nat, all[i as int]);
            assert(lines_for(all, (i + 1) as nat) == before + line);
            assert((head + before) + line =~= head + (before + line));
        }
        i = i + 1;
    }
    s
}

/// The tests of a report that grows: those it held, then the new ones.
pub fn appended(existing: Vec<Testcase>, new_testcases: &Vec<Testcase>) -> (all: Vec<Testcase>)
    ensures
        all.deep_view() == existing.deep_view() + new_testcases.deep_view(),
{
    let mut all = existing;
    let mut i: usize = 0;
    assert(all.deep_view() =~= existing.deep_view() + new_testcases.deep_view().take(0));
    while i < new_testcases.len()
        invariant
            i <= new_testcases.len(),
            all.deep_view() == existing.deep_view() + new_testcases.deep_view().take(i as int),
        decreases new_testcases.len() - i,
    {
        let ghost before = all.deep_view();
        let description = new_testcases[i].description.clone();
        all.push(Testcase { description, success: new_testcases[i].success });
        assert(all.deep_view() =~= before.push(new_testcases@[i as int].deep_view()));
        assert(all.deep_view() =~= existing.deep_view() + new_testcases.deep_view().take(i + 1));
        i = i + 1;
    }
    assert(new_testcases.deep_view().take(i as int) =~= new_testcases.deep_view());
    all
}

} // verus!
