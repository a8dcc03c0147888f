//! The smallest rules: fixed words, blanks, hexadecimal digits.
use crate::ast::{Pos, SourceInfo, Whitespace, WhitespaceView};
use crate::combinators::Rule;
use crate::error::{
    done, failed, never_gives_way, Error, ErrorView, Outcome, ParseError, ParseErrorView,
    ParseResult,
};
use crate::reader::{lemma_run_len, lemma_walk_fits, run_len, Reader, ReaderState};
use vstd::prelude::*;

verus! {

/// `input` holds the word `s` at `from`.
pub open spec fn looking_at(input: Seq<char>, from: int, s: Seq<char>) -> bool {
    &&& 0 <= from
    &&& from + s.len() <= input.len()
    &&& input.subrange(from, from + s.len()) == s
}

/// How far `input` at `from` and `s` agree, given that they agree on the
/// first `i` characters.
pub open spec fn agree(s: Seq<char>, input: Seq<char>, from: int, i: int) -> int
    decreases s.len() - i,
{
    if 0 <= i < s.len() && 0 <= from + i < input.len() && input[from + i] == s[i] {
        agree(s, input, from, i + 1)
    } else {
        i
    }
}

/// `agree` stops at the first place where the word and the text differ or
/// the text ends.
pub proof fn lemma_agree(s: Seq<char>, input: Seq<char>, from: int, i: int)
    requires
        0 <= from,
        0 <= i <= s.len(),
    ensures
        i <= agree(s, input, from, i) <= s.len(),
        from + agree(s, input, from, i) <= input.len() || agree(s, input, from, i) == i,
        forall|j: int|
            i <= j < agree(s, input, from, i) ==> from + j < input.len() && input[from + j]
                == #[trigger] s[j],
        agree(s, input, from, i) < s.len() ==> from + agree(s, input, from, i) >= input.len()
            || input[from + agree(s, input, from, i)] != s[agree(s, input, from, i)],
    decreases s.len() - i,
{
    if i < s.len() && from + i < input.len() && input[from + i] == s[i] {
        lemma_agree(s, input, from, i + 1);
    }
}

/// The text holds the word exactly when they agree on all of it.
pub proof fn lemma_looking_at(s: Seq<char>, input: Seq<char>, from: int)
    requires
        0 <= from <= input.len(),
    ensures
        looking_at(input, from, s) <==> agree(s, input, from, 0) == s.len(),
{
    lemma_agree(s, input, from, 0);
    let k = agree(s, input, from, 0);
    if k == s.len() {
        assert(input.subrange(from, from + s.len()) =~= s);
    } else if looking_at(input, from, s) {
        assert(input.subrange(from, from + s.len())[k] == s[k]);
    }
}

/// The failure that says `what` was expected at `pos`.
pub fn expecting(what: &str, pos: Pos, recoverable: bool) -> (e: Error)
    ensures
        e.deep_view() == (ErrorView { pos, recoverable, inner: ParseErrorView::Expecting { value: what@ } }),
{
    Error { pos, recoverable, inner: ParseError::Expecting { value: what.to_owned() } }
}

/// The word `s` must stand here. On success the reader is past it. On
/// failure, which is fatal, the reader has passed what agreed and the
/// character that did not.
pub open spec fn spec_literal(s: Seq<char>, input: Seq<char>, st: ReaderState) -> Outcome<()> {
    let k = agree(s, input, st.index as int, 0);
    if k == s.len() {
        done((), st.walk(input, k as nat))
    } else {
        failed(
            st.pos,
            false,
            ParseErrorView::Expecting { value: s },
            st.walk(input, if st.index + k < input.len() { (k + 1) as nat } else { k as nat }),
        )
    }
}

/// Reads the word `s`, or fails fatally.
pub fn literal(s: &str, reader: &mut Reader) -> (r: ParseResult<()>)
    requires
        old(reader).wf(),
    ensures
        final(reader).ran(*old(reader), r, spec_literal(s@, old(reader).input(), old(reader).state)),
        never_gives_way(r),
{
    let start = reader.snapshot();
    let ghost input = reader.buffer@;
    for c in it: s.chars()
        invariant
            it.seq() == s@,
            reader.moved_from(*old(reader)),
            old(reader).state.index <= reader.state.index,
            old(reader).state.pos.le(reader.state.pos),
            input == old(reader).buffer@,
            start == old(reader).state,
            start.fits(input),
            start.index + it.index() <= input.len(),
            reader.state == start.walk(input, it.index() as nat),
            agree(s@, input, start.index as int, 0) == agree(s@, input, start.index as int, it.index() as int),
    {
        proof {
            lemma_walk_fits(start, input, it.index() as nat);
            lemma_agree(s@, input, start.index as int, it.index() + 1);
        }
        match reader.read() {
            None => {
                return Err(expecting(s, start.pos, false));
            },
            Some(x) => {
                if x != c {
                    return Err(expecting(s, start.pos, false));
                }
            },
        }
    }
    Ok(())
}

/// The word `s` may stand here: on success the reader is past it, on
/// failure, which is recoverable, the reader has not moved.
pub open spec fn spec_try_literal(s: Seq<char>, input: Seq<char>, st: ReaderState) -> Outcome<()> {
    if looking_at(input, st.index as int, s) {
        done((), st.walk(input, s.len()))
    } else {
        failed(st.pos, true, ParseErrorView::Expecting { value: s }, st)
    }
}

/// Reads the word `s` if it stands here; otherwise fails recoverably without
/// moving.
pub fn try_literal(s: &str, reader: &mut Reader) -> (r: ParseResult<()>)
    requires
        old(reader).wf(),
    ensures
        final(reader).ran(*old(reader), r, spec_try_literal(s@, old(reader).input(), old(reader).state)),
{
    let start = reader.snapshot();
    proof {
        lemma_looking_at(s@, reader.input(), start.index as int);
    }
    match literal(s, reader) {
        Ok(_) => Ok(()),
        Err(e) => {
            reader.restore(start);
            Err(Error { pos: e.pos, recoverable: true, inner: e.inner })
        },
    }
}

/// The text of the failure of `try_literals`.
pub open spec fn either(s1: Seq<char>, s2: Seq<char>) -> Seq<char> {
    "<"@ + s1 + "> or <"@ + s2 + ">"@
}

/// One of two words may stand here, the first tried first. The result is
/// the word found; if neither is, the failure is recoverable and the reader
/// has not moved.
pub open spec fn spec_try_literals(s1: Seq<char>, s2: Seq<char>, input: Seq<char>, st: ReaderState) -> Outcome<
    Seq<char>,
> {
    if looking_at(input, st.index as int, s1) {
        done(s1, st.walk(input, s1.len()))
    } else if looking_at(input, st.index as int, s2) {
        done(s2, st.walk(input, s2.len()))
    } else {
        failed(st.pos, true, ParseErrorView::Expecting { value: either(s1, s2) }, st)
    }
}

/// Reads `s1` or else `s2` and returns the one it read.
pub fn try_literals(s1: &str, s2: &str, reader: &mut Reader) -> (r: ParseResult<String>)
    requires
        old(reader).wf(),
    ensures
        final(reader).ran(
            *old(reader),
            r,
            spec_try_literals(s1@, s2@, old(reader).input(), old(reader).state),
        ),
{
    let start = reader.snapshot();
    match try_literal(s1, reader) {
        Ok(_) => Ok(s1.to_owned()),
        Err(_) => match try_literal(s2, reader) {
            Ok(_) => Ok(s2.to_owned()),
            Err(_) => {
                let mut what = "<".to_owned();
                what.append(s1);
                what.append("> or <");
                what.append(s2);
                what.append(">");
                Err(Error { pos: start.pos, recoverable: true, inner: ParseError::Expecting { value: what } })
            },
        },
    }
}

/// A blank is a space or a tab.
pub open spec fn is_blank(c: char) -> bool {
    c == ' ' || c == '\t'
}

/// `is_blank`, as a value.
pub open spec fn blank() -> spec_fn(char) -> bool {
    |c: char| is_blank(c)
}

/// The run of blanks at `st`, as a node.
pub open spec fn blanks_at(input: Seq<char>, st: ReaderState) -> WhitespaceView {
    let n = run_len(input, st.index as int, blank());
    WhitespaceView {
        value: input.subrange(st.index as int, st.index + n),
        source_info: SourceInfo { start: st.pos, end: st.walk(input, n).pos },
    }
}

/// The state after the run of blanks at `st`.
pub open spec fn past_blanks(input: Seq<char>, st: ReaderState) -> ReaderState {
    st.walk(input, run_len(input, st.index as int, blank()))
}

/// All the blanks that stand here, possibly none. Never fails.
pub open spec fn spec_zero_or_more_spaces(input: Seq<char>, st: ReaderState) -> Outcome<WhitespaceView> {
    done(blanks_at(input, st), past_blanks(input, st))
}

/// All the blanks that stand here; fails fatally, without moving, if there
/// is none.
pub open spec fn spec_one_or_more_spaces(input: Seq<char>, st: ReaderState) -> Outcome<WhitespaceView> {
    if run_len(input, st.index as int, blank()) == 0 {
        failed(st.pos, false, ParseErrorView::Space, st)
    } else {
        done(blanks_at(input, st), past_blanks(input, st))
    }
}

/// Reads the run of blanks at the cursor.
pub fn zero_or_more_spaces(reader: &mut Reader) -> (r: ParseResult<Whitespace>)
    requires
        old(reader).wf(),
    ensures
        final(reader).ran(*old(reader), r, spec_zero_or_more_spaces(old(reader).input(), old(reader).state)),
        r is Ok ==> r->Ok_0.source_info.ordered(),
        never_gives_way(r),
{
    let start = reader.snapshot();
    let accept = |c: &char| -> (b: bool)
        ensures
            b == is_blank(*c),
        { *c == ' ' || *c == '\t' };
    let value = reader.read_while(accept);
    proof {
        let input = reader.input();
        assert forall|i: int| start.index <= i < start.index + value@.len() implies is_blank(
            #[trigger] input[i],
        ) by {
            assert(input[i] == value@[i - start.index]);
        }
        lemma_run_len(input, start.index as int, blank(), value@.len());
    }
    Ok(Whitespace { value, source_info: SourceInfo { start: start.pos, end: reader.state.pos } })
}

/// Reads the run of blanks at the cursor, which must not be empty.
pub fn one_or_more_spaces(reader: &mut Reader) -> (r: ParseResult<Whitespace>)
    requires
        old(reader).wf(),
    ensures
        final(reader).ran(*old(reader), r, spec_one_or_more_spaces(old(reader).input(), old(reader).state)),
        r is Ok ==> r->Ok_0.source_info.ordered(),
        never_gives_way(r),
{
    let start = reader.snapshot();
    let found = match reader.peek() {
        Some(c) => c == ' ' || c == '\t',
        None => false,
    };
    proof {
        let input = reader.input();
        if start.index < input.len() {
            assert(blank()(input[start.index as int]) == is_blank(input[start.index as int]));
        }
        assert(found <==> run_len(input, start.index as int, blank()) != 0);
    }
    if found {
        zero_or_more_spaces(reader)
    } else {
        Err(Error { pos: start.pos, recoverable: false, inner: ParseError::Space })
    }
}

/// The rule of a run of blanks, which matches everywhere: where no blank
/// stands, it matches without reading.
pub struct Blanks;

impl Rule for Blanks {
    type Output = Whitespace;

    open spec fn parse(&self, input: Seq<char>, st: ReaderState) -> Outcome<WhitespaceView> {
        spec_zero_or_more_spaces(input, st)
    }

    fn apply(&self, reader: &mut Reader) -> (r: Result<Whitespace, Error>) {
        zero_or_more_spaces(reader)
    }
}

/// The number that a hexadecimal digit stands for.
pub open spec fn hex_digit_value(c: char) -> Option<u32> {
    if '0' <= c <= '9' {
        Some((c as u32 - '0' as u32) as u32)
    } else if 'a' <= c <= 'f' {
        Some((c as u32 - 'a' as u32 + 10) as u32)
    } else if 'A' <= c <= 'F' {
        Some((c as u32 - 'A' as u32 + 10) as u32)
    } else {
        None
    }
}

/// One hexadecimal digit. If the next character is no digit, or the text
/// has ended, the failure is recoverable and the reader has not moved.
pub open spec fn spec_hex_digit(input: Seq<char>, st: ReaderState) -> Outcome<u32> {
    if st.index < input.len() {
        let c = input[st.index as int];
        match hex_digit_value(c) {
            Some(d) => done(d, st.step(c)),
            None => failed(st.pos, true, ParseErrorView::HexDigit, st),
        }
    } else {
        failed(st.pos, true, ParseErrorView::HexDigit, st)
    }
}

/// Reads one hexadecimal digit and returns its number, 0 to 15.
pub fn hex_digit(reader: &mut Reader) -> (r: ParseResult<u32>)
    requires
        old(reader).wf(),
    ensures
        final(reader).ran(*old(reader), r, spec_hex_digit(old(reader).input(), old(reader).state)),
{
    let start = reader.snapshot();
    match reader.read() {
        Some(c) => {
            if '0' <= c && c <= '9' {
                Ok(c as u32 - '0' as u32)
            } else if 'a' <= c && c <= 'f' {
                Ok(c as u32 - 'a' as u32 + 10)
            } else if 'A' <= c && c <= 'F' {
                Ok(c as u32 - 'A' as u32 + 10)
            } else {
                reader.restore(start);
                Err(Error { pos: start.pos, recoverable: true, inner: ParseError::HexDigit })
            }
        },
        None => Err(Error { pos: start.pos, recoverable: true, inner: ParseError::HexDigit }),
    }
}

/// The rule of one hexadecimal digit, for the repetition combinators.
pub struct HexDigit;

impl Rule for HexDigit {
    type Output = u32;

    open spec fn parse(&self, input: Seq<char>, st: ReaderState) -> Outcome<u32> {
        spec_hex_digit(input, st)
    }

    fn apply(&self, reader: &mut Reader) -> (r: Result<u32, Error>) {
        hex_digit(reader)
    }
}

/// A decimal digit.
pub open spec fn is_digit(c: char) -> bool {
    '0' <= c && c <= '9'
}

/// `is_digit`, as a value.
pub open spec fn digit() -> spec_fn(char) -> bool {
    |c: char| is_digit(c)
}

/// The number that the decimal digits `digits` write.
pub open spec fn decimal(digits: Seq<char>) -> nat
    decreases digits.len(),
{
    if digits.len() == 0 {
        0
    } else {
        decimal(digits.drop_last()) * 10 + (digits.last() as u32 - '0' as u32) as nat
    }
}

/// More digits make a number no smaller.
pub proof fn lemma_decimal_grows(digits: Seq<char>, k: int)
    requires
        0 <= k <= digits.len(),
    ensures
        decimal(digits.take(k)) <= decimal(digits),
    decreases digits.len() - k,
{
    if k < digits.len() {
        lemma_decimal_grows(digits, k + 1);
        assert(digits.take(k + 1).drop_last() =~= digits.take(k));
    } else {
        assert(digits.take(k) =~= digits);
    }
}

} // verus!
