//! The operand of a predicate: `null`, a boolean, a number, bytes, an
//! expression, a template or a regular expression.
use crate::ast::{
    Base64, Base64View, ExprView, Float, FloatView, Hex, HexView, PredicateValue,
    PredicateValueView, Regex, RegexView, TemplateView,
};
use crate::combinators::{
    choice, first_of, lemma_first_of_fatal, lemma_first_of_quiet, lemma_many_quiet, many, quiet,
    zero_or_more, Rule,
};
use crate::error::{
    done, failed, never_gives_way, Error, Notice, Outcome, ParseError, ParseErrorView, ParseResult,
};
use crate::expr;
use crate::expr::spec_expr;
use crate::primitives::{
    blanks_at, decimal, digit, expecting, is_digit, lemma_decimal_grows, literal, past_blanks,
    spec_literal, spec_try_literal, try_literal, zero_or_more_spaces, HexDigit,
};
use crate::reader::{lemma_run_len, lemma_walk_add, lemma_walk_fits, run_len, Reader, ReaderState};
use crate::string::{
    backtick_template, carry, lemma_templates_quiet, quoted_template, spec_backtick_template,
    spec_quoted_template, unmoved,
};
use vstd::prelude::*;

verus! {

/// `null`, or a recoverable failure.
pub open spec fn spec_null(input: Seq<char>, st: ReaderState) -> Outcome<()> {
    spec_try_literal("null"@, input, st)
}

/// Reads `null`.
pub fn null(reader: &mut Reader) -> (r: ParseResult<()>)
    requires
        old(reader).wf(),
    ensures
        final(reader).ran(*old(reader), r, spec_null(old(reader).input(), old(reader).state)),
{
    try_literal("null", reader)
}

/// `true` or `false`; anything else is a recoverable failure and the reader
/// has not moved.
pub open spec fn spec_boolean(input: Seq<char>, st: ReaderState) -> Outcome<bool> {
    let yes = spec_try_literal("true"@, input, st);
    let no = spec_try_literal("false"@, input, st);
    if yes.result is Ok {
        done(true, yes.state)
    } else if no.result is Ok {
        done(false, no.state)
    } else {
        failed(st.pos, true, ParseErrorView::Expecting { value: "true|false"@ }, st)
    }
}

/// Reads `true` or `false`.
pub fn boolean(reader: &mut Reader) -> (r: ParseResult<bool>)
    requires
        old(reader).wf(),
    ensures
        final(reader).ran(*old(reader), r, spec_boolean(old(reader).input(), old(reader).state)),
{
    let start = reader.snapshot();
    match try_literal("true", reader) {
        Ok(_) => Ok(true),
        Err(_) => match try_literal("false", reader) {
            Ok(_) => Ok(false),
            Err(_) => Err(expecting("true|false", start.pos, true)),
        },
    }
}

/// The digits at `st`.
pub open spec fn digits_at(input: Seq<char>, st: ReaderState) -> Seq<char> {
    input.subrange(st.index as int, st.index + run_len(input, st.index as int, digit()))
}

/// A natural number: the longest run of decimal digits.
///
/// Without a digit the failure is recoverable and the reader has not moved.
/// A number of several digits that starts with `0`, and one that does not
/// fit in `u64`, are fatal failures at the second digit, with the reader
/// after the digits.
pub open spec fn spec_natural(input: Seq<char>, st: ReaderState) -> Outcome<u64> {
    let n = run_len(input, st.index as int, digit());
    if n == 0 {
        failed(st.pos, true, ParseErrorView::Expecting { value: "natural"@ }, st)
    } else if (input[st.index as int] == '0' && n > 1) || decimal(digits_at(input, st)) > u64::MAX {
        failed(
            st.walk(input, 1).pos,
            false,
            ParseErrorView::Expecting { value: "natural"@ },
            st.walk(input, n),
        )
    } else {
        done(decimal(digits_at(input, st)) as u64, st.walk(input, n))
    }
}

/// Reads a natural number.
pub fn natural(reader: &mut Reader) -> (r: ParseResult<u64>)
    requires
        old(reader).wf(),
    ensures
        final(reader).ran(*old(reader), r, spec_natural(old(reader).input(), old(reader).state)),
{
    let start = reader.snapshot();
    let accept = |c: &char| -> (b: bool)
        ensures
            b == digit()(*c),
        { '0' <= *c && *c <= '9' };
    let text = reader.read_while(accept);
    let ghost input = reader.input();
    proof {
        assert forall|i: int| start.index <= i < start.index + text@.len() implies digit()(
            #[trigger] input[i],
        ) by {
            assert(input[i] == text@[i - start.index]);
        }
        lemma_run_len(input, start.index as int, digit(), text@.len());
    }
    if text.as_str().is_empty() {
        return Err(expecting("natural", start.pos, true));
    }
    proof {
        lemma_walk_fits(start, input, 1);
        lemma_walk_fits(start, input, text@.len());
    }
    let end = reader.snapshot();
    reader.restore(start);
    reader.read();
    let second = reader.state.pos;
    reader.restore(end);
    assert(second == start.walk(input, 1).pos) by {
        assert(start.walk(input, 0) == start);
    }
    let mut value: u64 = 0;
    let mut fits = true;
    for c in it: text.as_str().chars()
        invariant
            it.seq() == text@,
            forall|i: int| 0 <= i < text@.len() ==> is_digit(#[trigger] text@[i]),
            fits ==> value == decimal(text@.take(it.index() as int)),
            !fits ==> decimal(text@) > u64::MAX,
    {
        proof {
            assert(text@.take(it.index() + 1).drop_last() =~= text@.take(it.index() as int));
            assert(is_digit(text@[it.index() as int]));
            lemma_decimal_grows(text@, it.index() + 1);
        }
        if fits {
            let d: u64 = (c as u32 - '0' as u32) as u64;
            if value > (u64::MAX - d) / 10 {
                fits = false;
            } else {
                value = value * 10 + d;
            }
        }
    }
    assert(text@.take(text@.len() as int) =~= text@);
    if (reader.buffer[start.index] == '0' && reader.state.index - start.index > 1) || !fits {
        return Err(expecting("natural", second, false));
    }
    Ok(value)
}

/// An integer: an optional `-` and a natural number.
///
/// The failures of the natural number are those of the integer; after a
/// recoverable one the reader is back at `st`, before the `-`. A number that
/// does not fit in `i64` is a fatal failure at `st`.
pub open spec fn spec_integer(input: Seq<char>, st: ReaderState) -> Outcome<i64> {
    let sign = spec_try_literal("-"@, input, st);
    let number = spec_natural(input, sign.state);
    match number.result {
        Err(_) => unmoved(carry(number), st),
        Ok(n) => if sign.result is Ok && n <= 0x8000_0000_0000_0000u64 {
            done((0 - n) as i64, number.state)
        } else if sign.result is Err && n <= i64::MAX {
            done(n as i64, number.state)
        } else {
            failed(st.pos, false, ParseErrorView::Expecting { value: "integer"@ }, number.state)
        },
    }
}

/// Reads an integer.
pub fn integer(reader: &mut Reader) -> (r: ParseResult<i64>)
    requires
        old(reader).wf(),
    ensures
        final(reader).ran(*old(reader), r, spec_integer(old(reader).input(), old(reader).state)),
{
    let start = reader.snapshot();
    let negative = try_literal("-", reader).is_ok();
    let n = match natural(reader) {
        Ok(n) => n,
        Err(e) => {
            if e.recoverable {
                reader.restore(start);
            }
            return Err(e);
        },
    };
    if negative && n <= 0x7fff_ffff_ffff_ffff {
        Ok(0 - (n as i64))
    } else if negative && n == 0x8000_0000_0000_0000 {
        Ok(i64::MIN)
    } else if !negative && n <= 0x7fff_ffff_ffff_ffff {
        Ok(n as i64)
    } else {
        Err(expecting("integer", start.pos, false))
    }
}

/// A number with a decimal point: an optional `-`, digits, `.`, digits.
///
/// Up to the point every failure is recoverable, and the reader is back at
/// `st`: no digit, or no point after the digits. After the point a digit
/// must follow, or the failure is fatal. The result is the number as
/// written.
pub open spec fn spec_float(input: Seq<char>, st: ReaderState) -> Outcome<FloatView> {
    let sign = spec_try_literal("-"@, input, st).state;
    let n = run_len(input, sign.index as int, digit());
    let point = spec_try_literal("."@, input, sign.walk(input, n));
    let m = run_len(input, point.state.index as int, digit());
    if n == 0 {
        failed(sign.pos, true, ParseErrorView::Expecting { value: "natural"@ }, st)
    } else if point.result is Err {
        unmoved(carry(point), st)
    } else if m == 0 {
        failed(point.state.pos, false, ParseErrorView::Expecting { value: "natural"@ }, point.state)
    } else {
        done(
            FloatView { encoded: input.subrange(st.index as int, point.state.index + m) },
            point.state.walk(input, m),
        )
    }
}

/// Reads the run of decimal digits at the cursor and returns how many there
/// are.
fn skip_digits(reader: &mut Reader) -> (n: usize)
    requires
        old(reader).wf(),
    ensures
        final(reader).moved_from(*old(reader)),
        n == run_len(old(reader).input(), old(reader).state.index as int, digit()),
        final(reader).state == old(reader).state.walk(old(reader).input(), n as nat),
        final(reader).state.index == old(reader).state.index + n,
        old(reader).state.pos.le(final(reader).state.pos),
{
    let start = reader.snapshot();
    let accept = |c: &char| -> (b: bool)
        ensures
            b == digit()(*c),
        { '0' <= *c && *c <= '9' };
    let text = reader.read_while(accept);
    proof {
        let input = reader.input();
        assert forall|i: int| start.index <= i < start.index + text@.len() implies digit()(
            #[trigger] input[i],
        ) by {
            assert(input[i] == text@[i - start.index]);
        }
        lemma_run_len(input, start.index as int, digit(), text@.len());
    }
    reader.state.index - start.index
}

/// Reads a number with a decimal point.
pub fn float(reader: &mut Reader) -> (r: ParseResult<Float>)
    requires
        old(reader).wf(),
    ensures
        final(reader).ran(*old(reader), r, spec_float(old(reader).input(), old(reader).state)),
{
    let start = reader.snapshot();
    let _ = try_literal("-", reader);
    let n = skip_digits(reader);
    if n == 0 {
        let at = reader.state.pos;
        reader.restore(start);
        return Err(expecting("natural", at, true));
    }
    match try_literal(".", reader) {
        Ok(_) => {},
        Err(e) => {
            reader.restore(start);
            return Err(e);
        },
    }
    let m = skip_digits(reader);
    if m == 0 {
        return Err(expecting("natural", reader.state.pos, false));
    }
    let encoded = reader.text_since(start);
    Ok(Float { encoded })
}

/// The byte that two hexadecimal digits write.
pub open spec fn byte_of(high: u32, low: u32) -> u8 {
    if high < 16 && low < 16 {
        (high * 16 + low) as u8
    } else {
        0
    }
}

/// The bytes that an even number of hexadecimal digits write.
pub open spec fn bytes_of(digits: Seq<u32>) -> Seq<u8> {
    Seq::new(digits.len() / 2, |i: int| byte_of(digits[2 * i], digits[2 * i + 1]))
}

/// Bytes in hexadecimal: `hex,` blanks, digits, blanks, `;`.
///
/// Without `hex` the failure is recoverable and the reader has not moved.
/// After it every failure is fatal: a missing `,` or `;`, and an odd number of
/// digits, which fails at the place after the digits.
pub open spec fn spec_hex(input: Seq<char>, st: ReaderState) -> Outcome<HexView> {
    let word = spec_try_literal("hex"@, input, st);
    let comma = spec_literal(","@, input, word.state);
    let inner = past_blanks(input, comma.state);
    let digits = many(&HexDigit, input, inner);
    let close = spec_literal(";"@, input, past_blanks(input, digits.state));
    if word.result is Err {
        carry(word)
    } else if comma.result is Err {
        carry(comma)
    } else {
        match digits.result {
            Err(_) => carry(digits),
            Ok(ds) => if ds.len() % 2 == 1 {
                failed(digits.state.pos, false, ParseErrorView::OddNumberOfHexDigits, digits.state)
            } else if close.result is Err {
                carry(close)
            } else {
                done(
                    HexView {
                        space0: blanks_at(input, comma.state),
                        value: bytes_of(ds),
                        encoded: input.subrange(inner.index as int, digits.state.index as int),
                        space1: blanks_at(input, digits.state),
                    },
                    close.state,
                )
            },
        }
    }
}

/// Reads bytes written in hexadecimal.
pub fn hex(reader: &mut Reader) -> (r: ParseResult<Hex>)
    requires
        old(reader).wf(),
    ensures
        final(reader).ran(*old(reader), r, spec_hex(old(reader).input(), old(reader).state)),
{
    match try_literal("hex", reader) {
        Ok(_) => {},
        Err(e) => {
            return Err(e);
        },
    }
    match literal(",", reader) {
        Ok(_) => {},
        Err(e) => {
            return Err(e);
        },
    }
    let space0 = match zero_or_more_spaces(reader) {
        Ok(w) => w,
        Err(e) => {
            return Err(e);
        },
    };
    let inner = reader.snapshot();
    proof {
        lemma_many_quiet(&HexDigit, reader.input(), reader.state);
    }
    let digits = match zero_or_more(&HexDigit, reader) {
        Ok(digits) => digits,
        Err(e) => {
            return Err(e);
        },
    };
    assert(digits.deep_view() =~= digits@);
    if digits.len() % 2 == 1 {
        return Err(Error { pos: reader.state.pos, recoverable: false, inner: ParseError::OddNumberOfHexDigits });
    }
    let mut value: Vec<u8> = Vec::new();
    let mut i: usize = 0;
    while i < digits.len()
        invariant
            i <= digits.len(),
            i % 2 == 0,
            digits.len() % 2 == 0,
            value@.len() == i / 2,
            forall|k: int| 0 <= k < value@.len() ==> value@[k] == byte_of(digits@[2 * k], digits@[2 * k + 1]),
        decreases digits.len() - i,
    {
        let high = digits[i];
        let low = digits[i + 1];
        let byte: u8 = if high < 16 && low < 16 {
            (high * 16 + low) as u8
        } else {
            0
        };
        value.push(byte);
        i = i + 2;
    }
    assert(value@ =~= bytes_of(digits@));
    let encoded = reader.text_since(inner);
    let space1 = match zero_or_more_spaces(reader) {
        Ok(w) => w,
        Err(e) => {
            return Err(e);
        },
    };
    match literal(";", reader) {
        Ok(_) => {},
        Err(e) => {
            return Err(e);
        },
    }
    Ok(Hex { space0, value, encoded, space1 })
}

/// The pattern of a regular expression whose text starts at `from`, after
/// the opening `/`, and the index after its closing `/`; `None` if the text
/// ends before a closing `/`. `\/` stands for `/`; every other character, a
/// backslash too, stands for itself.
pub open spec fn pattern_at(input: Seq<char>, from: int) -> Option<(Seq<char>, int)>
    decreases input.len() - from,
{
    if from < 0 || from >= input.len() {
        None
    } else if input[from] == '/' {
        Some((Seq::empty(), from + 1))
    } else if input[from] == '\\' && from + 1 < input.len() && input[from + 1] == '/' {
        pattern_after('/', pattern_at(input, from + 2))
    } else {
        pattern_after(input[from], pattern_at(input, from + 1))
    }
}

/// `rest`, with `c` before its pattern.
pub open spec fn pattern_after(c: char, rest: Option<(Seq<char>, int)>) -> Option<(Seq<char>, int)> {
    match rest {
        Some((pattern, end)) => Some((seq![c] + pattern, end)),
        None => None,
    }
}

/// `rest`, with `text` before its pattern.
pub open spec fn pattern_with(text: Seq<char>, rest: Option<(Seq<char>, int)>) -> Option<(Seq<char>, int)> {
    match rest {
        Some((pattern, end)) => Some((text + pattern, end)),
        None => None,
    }
}

/// A regular expression between slashes. Without the opening `/` the
/// failure is recoverable and the reader has not moved. Without a closing
/// `/` the failure is fatal, at the end of the text.
pub open spec fn spec_regex(input: Seq<char>, st: ReaderState) -> Outcome<RegexView> {
    let open = spec_try_literal("/"@, input, st);
    if open.result is Err {
        carry(open)
    } else {
        match pattern_at(input, open.state.index as int) {
            Some((pattern, end)) => done(
                RegexView { pattern },
                open.state.walk(input, (end - open.state.index) as nat),
            ),
            None => {
                let last = open.state.walk(input, (input.len() - open.state.index) as nat);
                failed(last.pos, false, ParseErrorView::Expecting { value: "/"@ }, last)
            },
        }
    }
}

/// Reads a regular expression between slashes and returns its pattern.
pub fn regex(reader: &mut Reader) -> (r: ParseResult<Regex>)
    requires
        old(reader).wf(),
    ensures
        final(reader).ran(*old(reader), r, spec_regex(old(reader).input(), old(reader).state)),
{
    match try_literal("/", reader) {
        Ok(_) => {},
        Err(e) => {
            return Err(e);
        },
    }
    let start = reader.snapshot();
    let ghost input = reader.input();
    let mut pattern = String::new();
    proof {
        assert(start.walk(input, 0) == start);
        assert(pattern_at(input, start.index as int) =~~= pattern_with(
            pattern@,
            pattern_at(input, start.index as int),
        ));
    }
    loop
        invariant
            reader.wf(),
            reader.buffer@ == old(reader).buffer@,
            reader.notices@ == old(reader).notices@,
            input == old(reader).input(),
            start.fits(input),
            spec_try_literal("/"@, input, old(reader).state).result is Ok,
            spec_try_literal("/"@, input, old(reader).state).state == start,
            old(reader).state.index <= start.index <= reader.state.index,
            old(reader).state.pos.le(reader.state.pos),
            reader.state == start.walk(input, (reader.state.index - start.index) as nat),
            pattern_at(input, start.index as int) =~~= pattern_with(
                pattern@,
                pattern_at(input, reader.state.index as int),
            ),
        decreases input.len() - reader.state.index,
    {
        let at = reader.snapshot();
        let ghost text = pattern@;
        proof {
            lemma_walk_fits(start, input, (at.index - start.index) as nat);
        }
        match reader.read() {
            None => {
                return Err(expecting("/", at.pos, false));
            },
            Some(c) => {
                assert(reader.state == start.walk(input, (reader.state.index - start.index) as nat));
                if c == '/' {
                    assert(text + Seq::<char>::empty() =~= text);
                    return Ok(Regex { pattern });
                }
                let found = if c == '\\' {
                    match reader.peek() {
                        Some(d) => d == '/',
                        None => false,
                    }
                } else {
                    false
                };
                if found {
                    reader.read();
                    pattern.push('/');
                } else {
                    pattern.push(c);
                }
                proof {
                    let rest = pattern_at(input, reader.state.index as int);
                    if rest is Some {
                        let p = rest->Some_0.0;
                        assert(text + (seq![if found { '/' } else { c }] + p) =~= pattern@ + p);
                    }
                }
            },
        }
    }
}

/// The number that a character of the base 64 alphabet stands for.
pub open spec fn sextet(c: char) -> Option<u8> {
    if 'A' <= c && c <= 'Z' {
        Some((c as u32 - 'A' as u32) as u8)
    } else if 'a' <= c && c <= 'z' {
        Some((c as u32 - 'a' as u32 + 26) as u8)
    } else if '0' <= c && c <= '9' {
        Some((c as u32 - '0' as u32 + 52) as u8)
    } else if c == '+' {
        Some(62)
    } else if c == '/' {
        Some(63)
    } else {
        None
    }
}

/// A character that may stand in base 64 text: one of the alphabet, or a
/// space, a tab or a line feed, which count for nothing.
pub open spec fn is_base64_char(c: char) -> bool {
    sextet(c) is Some || c == ' ' || c == '\t' || c == '\n'
}

/// `is_base64_char`, as a value.
pub open spec fn base64_char() -> spec_fn(char) -> bool {
    |c: char| is_base64_char(c)
}

/// The padding character of base 64.
pub open spec fn padding() -> spec_fn(char) -> bool {
    |c: char| c == '='
}

/// The numbers of the characters of `text` that are of the alphabet.
pub open spec fn sextets(text: Seq<char>) -> Seq<u8>
    decreases text.len(),
{
    if text.len() == 0 {
        Seq::empty()
    } else {
        match sextet(text.last()) {
            Some(v) => sextets(text.drop_last()).push(v),
            None => sextets(text.drop_last()),
        }
    }
}

/// The bytes that the numbers `v` write, six bits each, most significant
/// first: three bytes for every four numbers, one byte for two numbers left
/// over, two for three; a single number left over writes nothing.
pub open spec fn decoded(v: Seq<u8>) -> Seq<u8>
    decreases v.len(),
{
    if v.len() >= 4 {
        seq![first_byte(v[0], v[1]), second_byte(v[1], v[2]), third_byte(v[2], v[3])] + decoded(
            v.skip(4),
        )
    } else if v.len() == 3 {
        seq![first_byte(v[0], v[1]), second_byte(v[1], v[2])]
    } else if v.len() == 2 {
        seq![first_byte(v[0], v[1])]
    } else {
        Seq::empty()
    }
}

/// The six bits of `a` and the upper two of `b`.
pub open spec fn first_byte(a: u8, b: u8) -> u8 {
    ((a % 64) * 4 + (b % 64) / 16) as u8
}

/// The lower four bits of `b` and the upper four of `c`.
pub open spec fn second_byte(b: u8, c: u8) -> u8 {
    ((b % 16) * 16 + (c % 64) / 4) as u8
}

/// The lower two bits of `c` and the six of `d`.
pub open spec fn third_byte(c: u8, d: u8) -> u8 {
    ((c % 4) * 64 + d % 64) as u8
}

/// Bytes in base 64: `base64,` blanks, text, blanks, `;`.
///
/// The text is the longest run of characters of the alphabet, spaces, tabs
/// and line feeds, and the padding `=` after it. Without `base64` the
/// failure is recoverable and the reader has not moved; a missing `,` or `;`
/// is fatal.
pub open spec fn spec_base64(input: Seq<char>, st: ReaderState) -> Outcome<Base64View> {
    let word = spec_try_literal("base64"@, input, st);
    let comma = spec_literal(","@, input, word.state);
    let inner = past_blanks(input, comma.state);
    let n = run_len(input, inner.index as int, base64_char());
    let pad = run_len(input, inner.index + n, padding());
    let end = inner.walk(input, n + pad);
    let close = spec_literal(";"@, input, past_blanks(input, end));
    if word.result is Err {
        carry(word)
    } else if comma.result is Err {
        carry(comma)
    } else if close.result is Err {
        carry(close)
    } else {
        done(
            Base64View {
                space0: blanks_at(input, comma.state),
                value: decoded(sextets(input.subrange(inner.index as int, inner.index + n))),
                encoded: input.subrange(inner.index as int, inner.index + n + pad),
                space1: blanks_at(input, end),
            },
            close.state,
        )
    }
}

/// The bytes that base 64 text writes.
fn decode(text: &String) -> (bytes: Vec<u8>)
    ensures
        bytes@ == decoded(sextets(text@)),
{
    let mut values: Vec<u8> = Vec::new();
    assert(text@.take(0) =~= Seq::empty());
    for c in it: text.as_str().chars()
        invariant
            it.seq() == text@,
            values@ == sextets(text@.take(it.index() as int)),
    {
        proof {
            assert(text@.take(it.index() + 1).drop_last() =~= text@.take(it.index() as int));
            assert(text@.take(it.index() + 1).last() == c);
        }
        if 'A' <= c && c <= 'Z' {
            values.push((c as u32 - 'A' as u32) as u8);
        } else if 'a' <= c && c <= 'z' {
            values.push((c as u32 - 'a' as u32 + 26) as u8);
        } else if '0' <= c && c <= '9' {
            values.push((c as u32 - '0' as u32 + 52) as u8);
        } else if c == '+' {
            values.push(62);
        } else if c == '/' {
            values.push(63);
        }
    }
    assert(text@.take(text@.len() as int) =~= text@);
    let mut bytes: Vec<u8> = Vec::new();
    let mut i: usize = 0;
    assert(values@.skip(0) =~= values@);
    assert(bytes@ + decoded(values@) =~= decoded(values@));
    while values.len() - i >= 4
        invariant
            i <= values.len(),
            decoded(values@) == bytes@ + decoded(values@.skip(i as int)),
        decreases values.len() - i,
    {
        let ghost rest = values@.skip(i as int);
        let ghost before = bytes@;
        bytes.push(first(values[i], values[i + 1]));
        bytes.push(second(values[i + 1], values[i + 2]));
        bytes.push(third(values[i + 2], values[i + 3]));
        proof {
            assert(rest.skip(4) =~= values@.skip(i + 4));
            assert(bytes@ + decoded(values@.skip(i + 4)) =~= before + decoded(rest));
        }
        i = i + 4;
    }
    let ghost rest = values@.skip(i as int);
    let ghost before = bytes@;
    if values.len() - i >= 2 {
        bytes.push(first(values[i], values[i + 1]));
        if values.len() - i == 3 {
            bytes.push(second(values[i + 1], values[i + 2]));
        }
    }
    assert(bytes@ =~= before + decoded(rest));
    bytes
}

/// The six bits of `a` and the upper two of `b`.
fn first(a: u8, b: u8) -> (byte: u8)
    ensures
        byte == first_byte(a, b),
{
    (a % 64) * 4 + (b % 64) / 16
}

/// The lower four bits of `b` and the upper four of `c`.
fn second(b: u8, c: u8) -> (byte: u8)
    ensures
        byte == second_byte(b, c),
{
    (b % 16) * 16 + (c % 64) / 4
}

/// The lower two bits of `c` and the six of `d`.
fn third(c: u8, d: u8) -> (byte: u8)
    ensures
        byte == third_byte(c, d),
{
    (c % 4) * 64 + d % 64
}

/// Reads base 64 text and the padding after it, and returns the text
/// without the padding.
fn base64_text(reader: &mut Reader) -> (text: String)
    requires
        old(reader).wf(),
    ensures
        final(reader).moved_from(*old(reader)),
        old(reader).state.pos.le(final(reader).state.pos),
        text@.len() == run_len(old(reader).input(), old(reader).state.index as int, base64_char()),
        text@ == old(reader).input().subrange(
            old(reader).state.index as int,
            old(reader).state.index + text@.len(),
        ),
        final(reader).state.index == old(reader).state.index + text@.len() + run_len(
            old(reader).input(),
            old(reader).state.index + text@.len(),
            padding(),
        ),
        final(reader).state == old(reader).state.walk(
            old(reader).input(),
            (final(reader).state.index - old(reader).state.index) as nat,
        ),
{
    let inner = reader.snapshot();
    let ghost input = reader.input();
    let accept = |c: &char| -> (b: bool)
        ensures
            b == base64_char()(*c),
        {
            ('A' <= *c && *c <= 'Z') || ('a' <= *c && *c <= 'z') || ('0' <= *c && *c <= '9') || *c == '+'
                || *c == '/' || *c == ' ' || *c == '\t' || *c == '\n'
        };
    let text = reader.read_while(accept);
    let middle = reader.snapshot();
    proof {
        assert forall|i: int| inner.index <= i < inner.index + text@.len() implies base64_char()(
            #[trigger] input[i],
        ) by {
            assert(input[i] == text@[i - inner.index]);
        }
        lemma_run_len(input, inner.index as int, base64_char(), text@.len());
    }
    let pad = |c: &char| -> (b: bool)
        ensures
            b == padding()(*c),
        { *c == '=' };
    let filler = reader.read_while(pad);
    proof {
        assert forall|i: int| middle.index <= i < middle.index + filler@.len() implies padding()(
            #[trigger] input[i],
        ) by {
            assert(input[i] == filler@[i - middle.index]);
        }
        lemma_run_len(input, middle.index as int, padding(), filler@.len());
        lemma_walk_add(inner, input, text@.len(), filler@.len());
    }
    text
}

/// Reads bytes written in base 64.
pub fn base64(reader: &mut Reader) -> (r: ParseResult<Base64>)
    requires
        old(reader).wf(),
    ensures
        final(reader).ran(*old(reader), r, spec_base64(old(reader).input(), old(reader).state)),
{
    match try_literal("base64", reader) {
        Ok(_) => {},
        Err(e) => {
            return Err(e);
        },
    }
    match literal(",", reader) {
        Ok(_) => {},
        Err(e) => {
            return Err(e);
        },
    }
    let space0 = match zero_or_more_spaces(reader) {
        Ok(w) => w,
        Err(e) => {
            return Err(e);
        },
    };
    let inner = reader.snapshot();
    let text = base64_text(reader);
    let value = decode(&text);
    let encoded = reader.text_since(inner);
    let space1 = match zero_or_more_spaces(reader) {
        Ok(w) => w,
        Err(e) => {
            return Err(e);
        },
    };
    match literal(";", reader) {
        Ok(_) => {},
        Err(e) => {
            return Err(e);
        },
    }
    Ok(Base64 { space0, value, encoded, space1 })
}

/// The kinds of value, each with the rule that reads it.
#[derive(Clone, Copy, Debug, PartialEq, Eq, Structural)]
pub enum ValueKind {
    Null,
    Bool,
    Float,
    Integer,
    Hex,
    Base64,
    Expression,
    Quoted,
    Backtick,
    Regex,
}

/// `o`, with its result turned into a value by `f`.
pub open spec fn as_value<A>(o: Outcome<A>, f: spec_fn(A) -> PredicateValueView) -> Outcome<
    PredicateValueView,
> {
    Outcome {
        result: match o.result {
            Ok(a) => Ok(f(a)),
            Err(e) => Err(e),
        },
        state: o.state,
        notices: o.notices,
    }
}

/// The value of the given kind that stands at `st`.
pub open spec fn spec_value_of(kind: ValueKind, input: Seq<char>, st: ReaderState) -> Outcome<
    PredicateValueView,
> {
    match kind {
        ValueKind::Null => as_value(spec_null(input, st), |u: ()| PredicateValueView::Null),
        ValueKind::Bool => as_value(spec_boolean(input, st), |b: bool| PredicateValueView::Bool(b)),
        ValueKind::Float => as_value(spec_float(input, st), |f: FloatView| PredicateValueView::Float(f)),
        ValueKind::Integer => as_value(spec_integer(input, st), |i: i64| PredicateValueView::Integer(i)),
        ValueKind::Hex => as_value(spec_hex(input, st), |h: HexView| PredicateValueView::Hex(h)),
        ValueKind::Base64 => as_value(
            spec_base64(input, st),
            |b: Base64View| PredicateValueView::Base64(b),
        ),
        ValueKind::Expression => as_value(
            spec_expr(input, st),
            |e: ExprView| PredicateValueView::Expression(e),
        ),
        ValueKind::Quoted => as_value(
            spec_quoted_template(input, st),
            |t: TemplateView| PredicateValueView::String(t),
        ),
        ValueKind::Backtick => as_value(
            spec_backtick_template(input, st),
            |t: TemplateView| PredicateValueView::String(t),
        ),
        ValueKind::Regex => as_value(spec_regex(input, st), |r: RegexView| PredicateValueView::Regex(r)),
    }
}

impl Rule for ValueKind {
    type Output = PredicateValue;

    open spec fn parse(&self, input: Seq<char>, st: ReaderState) -> Outcome<PredicateValueView> {
        spec_value_of(*self, input, st)
    }

    fn apply(&self, reader: &mut Reader) -> (r: Result<PredicateValue, Error>) {
        match self {
            ValueKind::Null => match null(reader) {
                Ok(_) => Ok(PredicateValue::Null),
                Err(e) => Err(e),
            },
            ValueKind::Bool => match boolean(reader) {
                Ok(b) => Ok(PredicateValue::Bool(b)),
                Err(e) => Err(e),
            },
            ValueKind::Float => match float(reader) {
                Ok(f) => Ok(PredicateValue::Float(f)),
                Err(e) => Err(e),
            },
            ValueKind::Integer => match integer(reader) {
                Ok(i) => Ok(PredicateValue::Integer(i)),
                Err(e) => Err(e),
            },
            ValueKind::Hex => match hex(reader) {
                Ok(h) => Ok(PredicateValue::Hex(h)),
                Err(e) => Err(e),
            },
            ValueKind::Base64 => match base64(reader) {
                Ok(b) => Ok(PredicateValue::Base64(b)),
                Err(e) => Err(e),
            },
            ValueKind::Expression => match expr::parse(reader) {
                Ok(e) => Ok(PredicateValue::Expression(e)),
                Err(e) => Err(e),
            },
            ValueKind::Quoted => match quoted_template(reader) {
                Ok(t) => Ok(PredicateValue::String(t)),
                Err(e) => Err(e),
            },
            ValueKind::Backtick => match backtick_template(reader) {
                Ok(t) => Ok(PredicateValue::String(t)),
                Err(e) => Err(e),
            },
            ValueKind::Regex => match regex(reader) {
                Ok(r) => Ok(PredicateValue::Regex(r)),
                Err(e) => Err(e),
            },
        }
    }
}

/// The kinds of value in the order in which they are tried. A float is
/// tried before an integer, so that the digits before a point are not taken
/// for a whole number.
pub open spec fn value_table() -> Seq<ValueKind> {
    seq![
        ValueKind::Null,
        ValueKind::Bool,
        ValueKind::Float,
        ValueKind::Integer,
        ValueKind::Hex,
        ValueKind::Base64,
        ValueKind::Expression,
        ValueKind::Quoted,
        ValueKind::Backtick,
        ValueKind::Regex,
    ]
}

/// A value: the first kind of `value_table` that stands here. If none does,
/// the failure is fatal, of kind `PredicateValue`, at `st`.
#[verifier::opaque]
pub open spec fn spec_predicate_value(input: Seq<char>, st: ReaderState) -> Outcome<PredicateValueView> {
    first_of(value_table(), 0, input, st, ParseErrorView::PredicateValue)
}

/// No rule of a value emits a notice.
pub proof fn lemma_value_quiet(input: Seq<char>)
    ensures
        forall|kind: ValueKind| quiet(&kind, input),
        forall|st: ReaderState|
            (#[trigger] spec_predicate_value(input, st)).notices == Seq::<Notice>::empty(),
{
    reveal(spec_predicate_value);
    assert forall|kind: ValueKind, st: ReaderState|
        (#[trigger] kind.parse(input, st)).notices == Seq::<Notice>::empty() by {
        lemma_templates_quiet(input);
        let comma = spec_literal(","@, input, spec_try_literal("hex"@, input, st).state);
        lemma_many_quiet(&HexDigit, input, past_blanks(input, comma.state));
    }
    assert forall|st: ReaderState|
        (#[trigger] spec_predicate_value(input, st)).notices == Seq::<Notice>::empty() by {
        lemma_first_of_quiet(value_table(), 0, input, st, ParseErrorView::PredicateValue);
    }
}

/// A value that cannot be read is a fatal failure.
pub proof fn lemma_value_fatal(input: Seq<char>, st: ReaderState)
    ensures
        spec_predicate_value(input, st).result is Err ==> !spec_predicate_value(
            input,
            st,
        ).result->Err_0.recoverable,
{
    reveal(spec_predicate_value);
    lemma_first_of_fatal(value_table(), 0, input, st, ParseErrorView::PredicateValue);
}

/// Reads a value of any kind.
pub fn predicate_value(reader: &mut Reader) -> (r: ParseResult<PredicateValue>)
    requires
        old(reader).wf(),
    ensures
        final(reader).ran(*old(reader), r, spec_predicate_value(old(reader).input(), old(reader).state)),
        never_gives_way(r),
{
    let table = vec![
        ValueKind::Null,
        ValueKind::Bool,
        ValueKind::Float,
        ValueKind::Integer,
        ValueKind::Hex,
        ValueKind::Base64,
        ValueKind::Expression,
        ValueKind::Quoted,
        ValueKind::Backtick,
        ValueKind::Regex,
    ];
    proof {
        reveal(spec_predicate_value);
        assert(table@ =~= value_table());
    }
    choice(table.as_slice(), reader, ParseError::PredicateValue)
}

} // verus!
