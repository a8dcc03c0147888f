//! Strings as they are written: escape sequences, and the three forms of
//! template (bare, in double quotes, in backticks).
use crate::ast::{EncodedString, EncodedStringView, Pos, SourceInfo, Template, TemplateView};
use crate::combinators::{
    at_least_one, lemma_at_least_one_quiet, lemma_many_quiet, many, one_or_more, quiet,
    zero_or_more, Rule,
};
use crate::error::{
    done, failed, never_gives_way, Error, Notice, Outcome, ParseError, ParseErrorView, ParseResult,
};
use crate::expr::alphanumeric;
use crate::primitives::{expecting, literal, spec_literal, spec_try_literal, try_literal, HexDigit};
use crate::reader::{lemma_run_len, run_len, Reader, ReaderState};
use crate::template;
use crate::template::{single, spec_templatize, templatize, written_as, Item};
use vstd::prelude::*;

verus! {

/// The failure of `o`, as the outcome of a rule with another result type.
pub open spec fn carry<A, B>(o: Outcome<A>) -> Outcome<B>
    recommends
        o.result is Err,
{
    Outcome { result: Err(o.result->Err_0), state: o.state, notices: o.notices }
}

/// `o`, with the reader back at `st` if `o` is a recoverable failure: a rule
/// that gives way to another leaves the reader where it found it.
pub open spec fn unmoved<T>(o: Outcome<T>, st: ReaderState) -> Outcome<T> {
    if o.result is Err && o.result->Err_0.recoverable {
        Outcome { result: o.result, state: st, notices: o.notices }
    } else {
        o
    }
}

/// The number that `digits` write in base 16, most significant digit first.
pub open spec fn hex_number(digits: Seq<u32>) -> nat
    decreases digits.len(),
{
    if digits.len() == 0 {
        0
    } else {
        hex_number(digits.drop_last()) * 16 + digits.last() as nat
    }
}

/// `n`, or the largest `u32` if `n` is larger.
pub open spec fn clip(n: nat) -> u32 {
    if n > u32::MAX {
        u32::MAX
    } else {
        n as u32
    }
}

/// One or more hexadecimal digits, read as one number. A number that does
/// not fit in `u32` is given as `u32::MAX`. Without a first digit the failure
/// is fatal.
pub open spec fn spec_hex_value(input: Seq<char>, st: ReaderState) -> Outcome<u32> {
    let digits = at_least_one(&HexDigit, input, st);
    match digits.result {
        Ok(ds) => done(clip(hex_number(ds)), digits.state),
        Err(_) => carry(digits),
    }
}

/// The rules of this module emit no notice.
pub proof fn lemma_quiet(input: Seq<char>)
    ensures
        forall|st: ReaderState| (#[trigger] spec_hex_value(input, st)).notices == Seq::<Notice>::empty(),
        forall|st: ReaderState| (#[trigger] spec_unicode(input, st)).notices == Seq::<Notice>::empty(),
        forall|st: ReaderState|
            (#[trigger] spec_escape_char(input, st)).notices == Seq::<Notice>::empty(),
        forall|except: Seq<char>, st: ReaderState|
            (#[trigger] spec_any_char(except, input, st)).notices == Seq::<Notice>::empty(),
{
    reveal(spec_any_char);
    reveal(spec_escape_char);
    assert forall|st: ReaderState|
        (#[trigger] spec_hex_value(input, st)).notices == Seq::<Notice>::empty() by {
        lemma_at_least_one_quiet(&HexDigit, input, st);
    }
}

/// Reads a run of hexadecimal digits and returns the number they write.
pub fn hex_value(reader: &mut Reader) -> (r: ParseResult<u32>)
    requires
        old(reader).wf(),
    ensures
        final(reader).ran(*old(reader), r, spec_hex_value(old(reader).input(), old(reader).state)),
        never_gives_way(r),
{
    proof {
        lemma_at_least_one_quiet(&HexDigit, reader.input(), reader.state);
    }
    let digits = match one_or_more(&HexDigit, reader) {
        Ok(digits) => digits,
        Err(e) => {
            return Err(e);
        },
    };
    let mut v: u32 = 0;
    let mut i: usize = 0;
    assert(digits@.take(0) =~= Seq::empty());
    while i < digits.len()
        invariant
            i <= digits.len(),
            v == clip(hex_number(digits@.take(i as int))),
        decreases digits.len() - i,
    {
        let wide: u64 = (v as u64) * 16 + digits[i] as u64;
        proof {
            assert(digits@.take(i + 1).drop_last() =~= digits@.take(i as int));
            assert(digits@.take(i + 1).last() == digits@[i as int]);
        }
        v = if wide > u32::MAX as u64 {
            u32::MAX
        } else {
            wide as u32
        };
        i = i + 1;
    }
    assert(digits@.take(i as int) =~= digits@);
    assert(digits.deep_view() =~= digits@);
    Ok(v)
}

/// The character with the number `v`, if `v` is a Unicode scalar value:
/// at most 0x10FFFF and no surrogate.
pub open spec fn scalar(v: u32) -> Option<char> {
    if v <= 0xD7FF || (0xE000 <= v && v <= 0x10FFFF) {
        Some(v as char)
    } else {
        None
    }
}

/// `char::from_u32` gives the character with the given number, and `None`
/// exactly when the number is not that of a Unicode scalar value.
pub assume_specification[ std::char::from_u32 ](i: u32) -> (r: Option<char>)
    ensures
        r == scalar(i),
;

/// What follows `\u`: `{`, hexadecimal digits, `}`. The result is the
/// character with that number. Every failure is fatal; a number that is no
/// scalar value fails with `Unicode` at the place after the digits.
pub open spec fn spec_unicode(input: Seq<char>, st: ReaderState) -> Outcome<char> {
    let open = spec_literal("{"@, input, st);
    if open.result is Err {
        carry(open)
    } else {
        let number = spec_hex_value(input, open.state);
        match number.result {
            Err(_) => carry(number),
            Ok(v) => match scalar(v) {
                None => failed(number.state.pos, false, ParseErrorView::Unicode, number.state),
                Some(c) => {
                    let close = spec_literal("}"@, input, number.state);
                    if close.result is Err {
                        carry(close)
                    } else {
                        done(c, close.state)
                    }
                },
            },
        }
    }
}

/// Reads `{`, hexadecimal digits and `}`, and returns the character with
/// that number.
pub fn unicode(reader: &mut Reader) -> (r: ParseResult<char>)
    requires
        old(reader).wf(),
    ensures
        final(reader).ran(*old(reader), r, spec_unicode(old(reader).input(), old(reader).state)),
        never_gives_way(r),
{
    match literal("{", reader) {
        Ok(_) => {},
        Err(e) => {
            return Err(e);
        },
    }
    let v = match hex_value(reader) {
        Ok(v) => v,
        Err(e) => {
            return Err(e);
        },
    };
    let c = match std::char::from_u32(v) {
        None => {
            return Err(Error { pos: reader.state.pos, recoverable: false, inner: ParseError::Unicode });
        },
        Some(c) => c,
    };
    match literal("}", reader) {
        Ok(_) => {},
        Err(e) => {
            return Err(e);
        },
    }
    Ok(c)
}

/// The character that a backslash and `c` stand for, for the escapes of one
/// character.
pub open spec fn simple_escape(c: char) -> Option<char> {
    if c == '#' {
        Some('#')
    } else if c == '"' {
        Some('"')
    } else if c == '`' {
        Some('`')
    } else if c == '\\' {
        Some('\\')
    } else if c == '/' {
        Some('/')
    } else if c == 'b' {
        Some('\x08')
    } else if c == 'n' {
        Some('\n')
    } else if c == 'f' {
        Some('\x0c')
    } else if c == 'r' {
        Some('\r')
    } else if c == 't' {
        Some('\t')
    } else {
        None
    }
}

/// An escape sequence: a backslash, then one of `# " ` \ / b n f r t` or
/// `u{..}`. Without a backslash the failure is recoverable and the reader
/// has not moved; after the backslash anything else, or the end of the text,
/// is fatal, with `EscapeChar` at the place after the backslash.
#[verifier::opaque]
pub open spec fn spec_escape_char(input: Seq<char>, st: ReaderState) -> Outcome<char> {
    let open = spec_try_literal("\\"@, input, st);
    if open.result is Err {
        carry(open)
    } else if open.state.index >= input.len() {
        failed(open.state.pos, false, ParseErrorView::EscapeChar, open.state)
    } else {
        let c = input[open.state.index as int];
        let next = open.state.step(c);
        if c == 'u' {
            spec_unicode(input, next)
        } else {
            match simple_escape(c) {
                Some(d) => done(d, next),
                None => failed(open.state.pos, false, ParseErrorView::EscapeChar, next),
            }
        }
    }
}

/// Reads one escape sequence and returns the character it stands for.
pub fn escape_char(reader: &mut Reader) -> (r: ParseResult<char>)
    requires
        old(reader).wf(),
    ensures
        final(reader).ran(*old(reader), r, spec_escape_char(old(reader).input(), old(reader).state)),
{
    proof {
        reveal(spec_escape_char);
    }
    match try_literal("\\", reader) {
        Ok(_) => {},
        Err(e) => {
            return Err(e);
        },
    }
    let start = reader.snapshot();
    match reader.read() {
        Some('#') => Ok('#'),
        Some('"') => Ok('"'),
        Some('`') => Ok('`'),
        Some('\\') => Ok('\\'),
        Some('/') => Ok('/'),
        Some('b') => Ok('\x08'),
        Some('n') => Ok('\n'),
        Some('f') => Ok('\x0c'),
        Some('r') => Ok('\r'),
        Some('t') => Ok('\t'),
        Some('u') => unicode(reader),
        _ => Err(Error { pos: start.pos, recoverable: false, inner: ParseError::EscapeChar }),
    }
}

/// A character that may not stand for itself in a string: the backslash,
/// backspace, line feed, form feed, carriage return and tab.
pub open spec fn is_reserved(c: char) -> bool {
    c == '\\' || c == '\x08' || c == '\n' || c == '\x0c' || c == '\r' || c == '\t'
}

/// One character of a string, with the text it was written as: an escape
/// sequence, or a character that stands for itself. The end of the text, a
/// character of `except` and a reserved character are recoverable failures
/// at `st`, and the reader has not moved.
#[verifier::opaque]
pub open spec fn spec_any_char(except: Seq<char>, input: Seq<char>, st: ReaderState) -> Outcome<
    (char, Seq<char>),
> {
    let escape = spec_escape_char(input, st);
    match escape.result {
        Ok(c) => done((c, input.subrange(st.index as int, escape.state.index as int)), escape.state),
        Err(e) => if !e.recoverable {
            carry(escape)
        } else if st.index >= input.len() {
            failed(st.pos, true, ParseErrorView::Expecting { value: "char"@ }, st)
        } else {
            let c = input[st.index as int];
            if except.contains(c) || is_reserved(c) {
                failed(st.pos, true, ParseErrorView::Expecting { value: "char"@ }, st)
            } else {
                done((c, seq![c]), st.step(c))
            }
        },
    }
}

/// `c` occurs in `v`.
fn occurs(v: &Vec<char>, c: char) -> (b: bool)
    ensures
        b == v@.contains(c),
{
    let mut i: usize = 0;
    while i < v.len()
        invariant
            i <= v.len(),
            forall|j: int| 0 <= j < i ==> v@[j] != c,
        decreases v.len() - i,
    {
        if v[i] == c {
            return true;
        }
        i = i + 1;
    }
    false
}

/// Reads one character of a string, escaped or not, and returns it with the
/// text it was written as.
pub fn any_char(except: Vec<char>, reader: &mut Reader) -> (r: ParseResult<(char, String)>)
    requires
        old(reader).wf(),
    ensures
        final(reader).ran(
            *old(reader),
            r,
            spec_any_char(except@, old(reader).input(), old(reader).state),
        ),
{
    let start = reader.snapshot();
    proof {
        reveal(spec_any_char);
        lemma_quiet(reader.input());
    }
    match escape_char(reader) {
        Ok(c) => {
            let encoded = reader.text_since(start);
            Ok((c, encoded))
        },
        Err(e) => {
            if e.recoverable {
                reader.restore(start);
                match reader.read() {
                    None => Err(expecting("char", start.pos, true)),
                    Some(c) => {
                        if occurs(&except, c) || c == '\\' || c == '\x08' || c == '\n' || c == '\x0c'
                            || c == '\r' || c == '\t' {
                            reader.restore(start);
                            Err(expecting("char", start.pos, true))
                        } else {
                            let encoded = reader.text_since(start);
                            assert(encoded@ =~= seq![c]);
                            Ok((c, encoded))
                        }
                    },
                }
            } else {
                Err(e)
            }
        },
    }
}

/// A character that may stand inside a one-line string in double quotes.
pub open spec fn unquoted() -> spec_fn(char) -> bool {
    |c: char| c != '"' && c != '\n'
}

/// A double quote, the characters up to the next double quote or line feed,
/// taken as they are, and a double quote. The result is what stands between
/// the quotes. Both quotes are required: without one the failure is fatal.
pub open spec fn spec_quoted_oneline_string(input: Seq<char>, st: ReaderState) -> Outcome<Seq<char>> {
    let open = spec_literal("\""@, input, st);
    if open.result is Err {
        carry(open)
    } else {
        let n = run_len(input, open.state.index as int, unquoted());
        let close = spec_literal("\""@, input, open.state.walk(input, n));
        if close.result is Err {
            carry(close)
        } else {
            done(input.subrange(open.state.index as int, open.state.index + n), close.state)
        }
    }
}

/// Reads a string in double quotes that holds no escape sequence, and
/// returns what stands between the quotes.
pub fn quoted_oneline_string(reader: &mut Reader) -> (r: ParseResult<String>)
    requires
        old(reader).wf(),
    ensures
        final(reader).ran(
            *old(reader),
            r,
            spec_quoted_oneline_string(old(reader).input(), old(reader).state),
        ),
        never_gives_way(r),
{
    match literal("\"", reader) {
        Ok(_) => {},
        Err(e) => {
            return Err(e);
        },
    }
    let ghost inner = reader.state;
    let accept = |c: &char| -> (b: bool)
        ensures
            b == unquoted()(*c),
        { *c != '"' && *c != '\n' };
    let s = reader.read_while(accept);
    proof {
        let input = reader.input();
        assert forall|i: int| inner.index <= i < inner.index + s@.len() implies unquoted()(
            #[trigger] input[i],
        ) by {
            assert(input[i] == s@[i - inner.index]);
        }
        lemma_run_len(input, inner.index as int, unquoted(), s@.len());
    }
    match literal("\"", reader) {
        Ok(_) => {},
        Err(e) => {
            return Err(e);
        },
    }
    Ok(s)
}

/// The three ways to write a template.
#[derive(Clone, Copy, Debug, PartialEq, Eq, Structural)]
pub enum StringKind {
    /// Without delimiters: up to the end of the line or a `#`.
    Bare,
    /// Between double quotes.
    Quoted,
    /// Between backticks.
    Backtick,
}

impl StringKind {
    /// The characters that end the string unless they are escaped.
    pub open spec fn except(self) -> Seq<char> {
        match self {
            StringKind::Bare => seq!['#'],
            StringKind::Quoted => seq!['"'],
            StringKind::Backtick => seq!['`', '\n'],
        }
    }

    /// The delimiter, as text.
    pub open spec fn fence(self) -> Seq<char> {
        match self {
            StringKind::Bare => Seq::empty(),
            StringKind::Quoted => "\""@,
            StringKind::Backtick => "`"@,
        }
    }

    /// The delimiter that the template records.
    pub open spec fn delimiter(self) -> Option<char> {
        match self {
            StringKind::Bare => None,
            StringKind::Quoted => Some('"'),
            StringKind::Backtick => Some('`'),
        }
    }
}

/// One character of a string of the given kind, as an item of the stream
/// that the template decoder takes: `spec_any_char`, with the place where the
/// character begins.
pub open spec fn spec_string_item(kind: StringKind, input: Seq<char>, st: ReaderState) -> Outcome<Item> {
    let o = spec_any_char(kind.except(), input, st);
    match o.result {
        Ok(found) => done((found.0, found.1, st.pos), o.state),
        Err(_) => carry(o),
    }
}

impl Rule for StringKind {
    type Output = (char, String, Pos);

    open spec fn parse(&self, input: Seq<char>, st: ReaderState) -> Outcome<Item> {
        spec_string_item(*self, input, st)
    }

    fn apply(&self, reader: &mut Reader) -> (r: Result<(char, String, Pos), Error>) {
        let pos = reader.state.pos;
        let except = match self {
            StringKind::Bare => vec!['#'],
            StringKind::Quoted => vec!['"'],
            StringKind::Backtick => vec!['`', '\n'],
        };
        assert(except@ =~= self.except());
        proof {
            lemma_quiet(reader.input());
        }
        match any_char(except, reader) {
            Ok((c, s)) => {
                assert((c, s, pos).deep_view() == (c, s.deep_view(), pos));
                Ok((c, s, pos))
            },
            Err(e) => Err(e),
        }
    }
}

/// A template between delimiters: the opening delimiter, the characters of
/// the string up to the first that `kind` refuses, the closing delimiter.
///
/// Without the opening delimiter the failure is recoverable and the reader
/// has not moved. After it every failure is fatal: a bad escape sequence, a
/// missing closing delimiter (so also a line feed inside the string), a
/// marker that is not closed or holds no name. The span of the template runs
/// from the opening delimiter to after the closing one; the span handed to
/// the decoder ends before the closing delimiter.
pub open spec fn spec_delimited_template(kind: StringKind, input: Seq<char>, st: ReaderState) -> Outcome<
    TemplateView,
> {
    let open = spec_try_literal(kind.fence(), input, st);
    if open.result is Err {
        carry(open)
    } else {
        let chars = many(&kind, input, open.state);
        match chars.result {
            Err(_) => carry(chars),
            Ok(items) => {
                let close = spec_literal(kind.fence(), input, chars.state);
                if close.result is Err {
                    carry(close)
                } else {
                    match spec_templatize(
                        template::EncodedStringView {
                            source_info: SourceInfo { start: st.pos, end: chars.state.pos },
                            chars: items,
                        },
                    ) {
                        Err(e) => Outcome { result: Err(e), state: close.state, notices: Seq::empty() },
                        Ok(elements) => done(
                            TemplateView {
                                delimiter: kind.delimiter(),
                                elements,
                                source_info: SourceInfo { start: st.pos, end: close.state.pos },
                            },
                            close.state,
                        ),
                    }
                }
            },
        }
    }
}

/// Reads a template between the delimiters of `kind`, which is `Quoted` or
/// `Backtick`.
fn delimited_template(kind: StringKind, reader: &mut Reader) -> (r: ParseResult<Template>)
    requires
        old(reader).wf(),
        kind != StringKind::Bare,
    ensures
        final(reader).ran(
            *old(reader),
            r,
            spec_delimited_template(kind, old(reader).input(), old(reader).state),
        ),
        r is Ok ==> r->Ok_0.source_info.ordered(),
{
    let start = reader.state.pos;
    let fence = match kind {
        StringKind::Backtick => "`",
        _ => "\"",
    };
    let delimiter = match kind {
        StringKind::Backtick => Some('`'),
        _ => Some('"'),
    };
    proof {
        lemma_items_quiet(kind, reader.input());
    }
    match try_literal(fence, reader) {
        Ok(_) => {},
        Err(e) => {
            return Err(e);
        },
    }
    proof {
        lemma_many_quiet(&kind, reader.input(), reader.state);
    }
    let chars = match zero_or_more(&kind, reader) {
        Ok(chars) => chars,
        Err(e) => {
            return Err(e);
        },
    };
    let end = reader.state.pos;
    match literal(fence, reader) {
        Ok(_) => {},
        Err(e) => {
            return Err(e);
        },
    }
    let encoded_string = template::EncodedString {
        source_info: SourceInfo { start, end },
        chars,
    };
    let elements = match templatize(encoded_string) {
        Ok(elements) => elements,
        Err(e) => {
            return Err(e);
        },
    };
    Ok(Template { delimiter, elements, source_info: SourceInfo { start, end: reader.state.pos } })
}

/// The rule of one string character emits no notice.
pub proof fn lemma_items_quiet(kind: StringKind, input: Seq<char>)
    ensures
        quiet(&kind, input),
{
    lemma_quiet(input);
}

/// The templates emit no notice.
pub proof fn lemma_templates_quiet(input: Seq<char>)
    ensures
        forall|st: ReaderState|
            (#[trigger] spec_quoted_template(input, st)).notices == Seq::<Notice>::empty(),
        forall|st: ReaderState|
            (#[trigger] spec_backtick_template(input, st)).notices == Seq::<Notice>::empty(),
        forall|st: ReaderState|
            (#[trigger] spec_unquoted_template(input, st)).notices == Seq::<Notice>::empty(),
{
    assert forall|kind: StringKind, st: ReaderState|
        (#[trigger] spec_delimited_template(kind, input, st)).notices == Seq::<Notice>::empty() by {
        lemma_items_quiet(kind, input);
        lemma_many_quiet(&kind, input, spec_try_literal(kind.fence(), input, st).state);
    }
    assert forall|st: ReaderState|
        (#[trigger] spec_unquoted_template(input, st)).notices == Seq::<Notice>::empty() by {
        lemma_bare_items(input, st);
    }
}

/// A template between double quotes.
pub open spec fn spec_quoted_template(input: Seq<char>, st: ReaderState) -> Outcome<TemplateView> {
    spec_delimited_template(StringKind::Quoted, input, st)
}

/// Reads a template between double quotes.
pub fn quoted_template(reader: &mut Reader) -> (r: ParseResult<Template>)
    requires
        old(reader).wf(),
    ensures
        final(reader).ran(*old(reader), r, spec_quoted_template(old(reader).input(), old(reader).state)),
        r is Ok ==> r->Ok_0.source_info.ordered(),
{
    delimited_template(StringKind::Quoted, reader)
}

/// A template between backticks. A double quote may stand in it unescaped; a
/// line feed may not.
pub open spec fn spec_backtick_template(input: Seq<char>, st: ReaderState) -> Outcome<TemplateView> {
    spec_delimited_template(StringKind::Backtick, input, st)
}

/// Reads a template between backticks.
pub fn backtick_template(reader: &mut Reader) -> (r: ParseResult<Template>)
    requires
        old(reader).wf(),
    ensures
        final(reader).ran(
            *old(reader),
            r,
            spec_backtick_template(old(reader).input(), old(reader).state),
        ),
        r is Ok ==> r->Ok_0.source_info.ordered(),
{
    delimited_template(StringKind::Backtick, reader)
}

/// The characters of a bare string from `st` on, and the state after the
/// last of them.
///
/// The string runs up to the first character that is refused: the end of
/// the text, a line break, an unescaped `#`. Unescaped spaces that only
/// spaces follow up to that point do not belong to it. A bad escape
/// sequence is a fatal failure, wherever the string would have ended.
pub open spec fn bare_items(input: Seq<char>, st: ReaderState) -> Outcome<Seq<Item>>
    decreases input.len() - st.index,
{
    let o = spec_string_item(StringKind::Bare, input, st);
    match o.result {
        Err(e) => if e.recoverable {
            done(Seq::empty(), st)
        } else {
            carry(o)
        },
        Ok(item) => if st.index < o.state.index <= input.len() {
            let rest = bare_items(input, o.state);
            match rest.result {
                Err(_) => rest,
                Ok(items) => if items.len() == 0 && written_as(item, ' ') {
                    done(Seq::empty(), st)
                } else {
                    done(seq![item] + items, rest.state)
                },
            }
        } else {
            done(Seq::empty(), st)
        },
    }
}

/// A bare string without characters ends where it began, and a bare string
/// emits no notice.
pub proof fn lemma_bare_items(input: Seq<char>, st: ReaderState)
    ensures
        bare_items(input, st).result is Ok && bare_items(input, st).result->Ok_0.len() == 0
            ==> bare_items(input, st).state == st,
        bare_items(input, st).notices == Seq::<Notice>::empty(),
    decreases input.len() - st.index,
{
    lemma_quiet(input);
    let o = spec_string_item(StringKind::Bare, input, st);
    if o.result is Ok && st.index < o.state.index <= input.len() {
        lemma_bare_items(input, o.state);
    }
}

/// What a bare string is, given the characters `chars` that belong to it,
/// the spaces `spaces` read after them, the state `end` after the last of
/// `chars`, and what follows.
pub open spec fn bare_with(chars: Seq<Item>, spaces: Seq<Item>, end: ReaderState, rest: Outcome<Seq<Item>>) -> Outcome<
    Seq<Item>,
> {
    match rest.result {
        Err(_) => rest,
        Ok(items) => if items.len() == 0 {
            done(chars, end)
        } else {
            done(chars + spaces + items, rest.state)
        },
    }
}

/// A template without delimiters: the characters of the bare string at
/// `st`, decoded. The reader ends after the last of them, before trailing
/// spaces and whatever ended the string; the span is from `st` to there.
/// An empty string gives a template without elements and nothing is read.
/// Every failure is fatal.
pub open spec fn spec_unquoted_template(input: Seq<char>, st: ReaderState) -> Outcome<TemplateView> {
    let chars = bare_items(input, st);
    match chars.result {
        Err(_) => carry(chars),
        Ok(items) => {
            let source_info = SourceInfo { start: st.pos, end: chars.state.pos };
            match spec_templatize(template::EncodedStringView { source_info, chars: items }) {
                Err(e) => Outcome { result: Err(e), state: chars.state, notices: Seq::empty() },
                Ok(elements) => done(TemplateView { delimiter: None, elements, source_info }, chars.state),
            }
        },
    }
}

/// Reads a template that runs to the end of the line or to a `#`.
pub fn unquoted_template(reader: &mut Reader) -> (r: ParseResult<Template>)
    requires
        old(reader).wf(),
    ensures
        final(reader).ran(
            *old(reader),
            r,
            spec_unquoted_template(old(reader).input(), old(reader).state),
        ),
        r is Ok ==> r->Ok_0.source_info.ordered(),
        never_gives_way(r),
{
    let start = reader.snapshot();
    let mut chars: Vec<(char, String, Pos)> = Vec::new();
    let mut spaces: Vec<(char, String, Pos)> = Vec::new();
    let mut end = start;
    let ghost input = reader.input();
    let ghost goal = bare_items(input, start);
    proof {
        lemma_bare_items(input, start);
        assert(chars.deep_view() =~= Seq::empty());
        assert(spaces.deep_view() =~= Seq::empty());
        assert(goal =~~= bare_with(chars.deep_view(), spaces.deep_view(), end, bare_items(input, start)));
    }
    loop
        invariant_except_break
            goal =~~= bare_with(chars.deep_view(), spaces.deep_view(), end, bare_items(input, reader.state)),
        invariant
            reader.moved_from(*old(reader)),
            input == old(reader).input(),
            start == old(reader).state,
            goal == bare_items(input, start),
            goal.notices == Seq::<Notice>::empty(),
            start.pos.le(reader.state.pos),
            end.fits(input),
            start.index <= end.index,
            start.pos.le(end.pos),
            end.index <= reader.state.index,
        ensures
            goal =~~= done(chars.deep_view(), end),
        decreases input.len() - reader.state.index,
    {
        let before = reader.snapshot();
        let ghost kept = chars.deep_view();
        let ghost held = spaces.deep_view();
        proof {
            lemma_quiet(input);
        }
        match StringKind::Bare.apply(reader) {
            Err(e) => {
                if e.recoverable {
                    break ;
                } else {
                    return Err(e);
                }
            },
            Ok(item) => {
                if reader.state.index <= before.index {
                    break ;
                }
                proof {
                    lemma_bare_items(input, reader.state);
                }
                let ghost it = item.deep_view();
                let ghost rest = bare_items(input, reader.state);
                if single(&item.1) == Some(' ') {
                    spaces.push(item);
                    proof {
                        assert(spaces.deep_view() =~= held.push(it));
                        if rest.result is Ok {
                            let items = rest.result->Ok_0;
                            assert(kept + held + (seq![it] + items) =~= kept + held.push(it) + items);
                        }
                    }
                } else {
                    chars.append(&mut spaces);
                    chars.push(item);
                    end = reader.state;
                    proof {
                        assert(chars.deep_view() =~= kept + held + seq![it]);
                        assert(spaces.deep_view() =~= Seq::empty());
                        if rest.result is Ok {
                            let items = rest.result->Ok_0;
                            assert(kept + held + (seq![it] + items) =~= (kept + held + seq![it])
                                + Seq::<Item>::empty() + items);
                        }
                    }
                }
            },
        }
    }
    reader.restore(end);
    let encoded_string = template::EncodedString {
        source_info: SourceInfo { start: start.pos, end: end.pos },
        chars,
    };
    let elements = match templatize(encoded_string) {
        Ok(elements) => elements,
        Err(e) => {
            return Err(e);
        },
    };
    Ok(Template { delimiter: None, elements, source_info: SourceInfo { start: start.pos, end: end.pos } })
}

/// Whether `c` may stand for itself in a key, given whether it is a
/// letter or a number: such a character may, and `_ - . [ ] @ $`.
pub open spec fn in_key(c: char, alphanumeric: bool) -> bool {
    alphanumeric || c == '_' || c == '-' || c == '.' || c == '[' || c == ']' || c == '@' || c == '$'
}

/// Tells whether `c` may stand for itself in a key, given whether it is a
/// letter or a number.
pub fn key_char_of(c: char, alphanumeric: bool) -> (b: bool)
    ensures
        b == in_key(c, alphanumeric),
{
    alphanumeric || c == '_' || c == '-' || c == '.' || c == '[' || c == ']' || c == '@' || c == '$'
}

/// A character that may stand for itself in a key: a letter, a number, or
/// one of `_ - . [ ] @ $`.
pub open spec fn is_key_char(c: char) -> bool {
    in_key(c, alphanumeric(c))
}

/// One character of a key: an escape sequence, or a key character that
/// stands for itself. Anything else is a recoverable failure and the reader
/// has not moved.
pub open spec fn spec_key_char(input: Seq<char>, st: ReaderState) -> Outcome<char> {
    let escape = spec_escape_char(input, st);
    match escape.result {
        Ok(_) => escape,
        Err(e) => if !e.recoverable {
            escape
        } else if st.index < input.len() && is_key_char(input[st.index as int]) {
            done(input[st.index as int], st.step(input[st.index as int]))
        } else {
            failed(st.pos, true, ParseErrorView::Expecting { value: "key string"@ }, st)
        },
    }
}

/// The rule of one character of a key.
pub struct KeyChar;

impl Rule for KeyChar {
    type Output = char;

    open spec fn parse(&self, input: Seq<char>, st: ReaderState) -> Outcome<char> {
        spec_key_char(input, st)
    }

    fn apply(&self, reader: &mut Reader) -> (r: Result<char, Error>) {
        let start = reader.snapshot();
        match escape_char(reader) {
            Ok(c) => Ok(c),
            Err(e) => {
                if !e.recoverable {
                    return Err(e);
                }
                proof {
                    lemma_quiet(reader.input());
                }
                reader.restore(start);
                let ok = match reader.peek() {
                    Some(c) => key_char_of(c, c.is_alphanumeric()),
                    None => false,
                };
                if ok {
                    match reader.read() {
                        Some(c) => Ok(c),
                        None => Err(expecting("key string", start.pos, true)),
                    }
                } else {
                    Err(expecting("key string", start.pos, true))
                }
            },
        }
    }
}

/// A key: the longest run of key characters and escape sequences.
///
/// `value` is what the run stands for and `encoded` the run as written. A
/// run that is empty, or written with `[` as its first character, is a
/// recoverable failure at `st`, and the reader is back at `st`. A bad escape
/// sequence is fatal.
pub open spec fn spec_unquoted_string_key(input: Seq<char>, st: ReaderState) -> Outcome<EncodedStringView> {
    let chars = many(&KeyChar, input, st);
    match chars.result {
        Err(_) => carry(chars),
        Ok(value) => if value.len() == 0 || (st.index < chars.state.index && input[st.index as int]
            == '[') {
            failed(st.pos, true, ParseErrorView::Expecting { value: "key string"@ }, st)
        } else {
            done(
                EncodedStringView {
                    value,
                    encoded: input.subrange(st.index as int, chars.state.index as int),
                    quotes: false,
                    source_info: SourceInfo { start: st.pos, end: chars.state.pos },
                },
                chars.state,
            )
        },
    }
}

/// Reads a key.
pub fn unquoted_string_key(reader: &mut Reader) -> (r: ParseResult<EncodedString>)
    requires
        old(reader).wf(),
    ensures
        final(reader).ran(
            *old(reader),
            r,
            spec_unquoted_string_key(old(reader).input(), old(reader).state),
        ),
        r is Ok ==> r->Ok_0.source_info.ordered(),
{
    let start = reader.snapshot();
    proof {
        lemma_quiet(reader.input());
        lemma_many_quiet(&KeyChar, reader.input(), reader.state);
    }
    let chars = match zero_or_more(&KeyChar, reader) {
        Ok(chars) => chars,
        Err(e) => {
            return Err(e);
        },
    };
    assert(chars.deep_view() =~= chars@);
    if chars.len() == 0 || (start.index < reader.state.index && reader.buffer[start.index] == '[') {
        reader.restore(start);
        return Err(expecting("key string", start.pos, true));
    }
    let mut value = String::new();
    let mut i: usize = 0;
    while i < chars.len()
        invariant
            i <= chars.len(),
            value@ == chars@.take(i as int),
        decreases chars.len() - i,
    {
        value.push(chars[i]);
        i = i + 1;
        assert(value@ =~= chars@.take(i as int));
    }
    assert(value@ =~= chars@);
    let encoded = reader.text_since(start);
    Ok(
        EncodedString {
            value,
            encoded,
            quotes: false,
            source_info: SourceInfo { start: start.pos, end: reader.state.pos },
        },
    )
}

} // verus!
