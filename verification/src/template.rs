//! From a stream of decoded characters to the elements of a template.
//!
//! The stream gives each character of a string three ways: what it stands
//! for, the text it was written as, and where that text begins. A fragment
//! written as a single `{` or `}` can be part of an interpolation marker; an
//! escaped brace cannot.
use crate::ast::{
    Expr, ExprView, Pos, SourceInfo, TemplateElement, TemplateElementView, Variable, VariableView,
    Whitespace, WhitespaceView,
};
use crate::error::{
    model, never_gives_way, Error, ErrorView, ParseError, ParseErrorView, ParseResult,
};
use crate::expr::{name_char, name_char_of};
use crate::laws::templates::lemma_decoder_fails_fatally;
use crate::primitives::{blank, expecting};
use vstd::prelude::*;

verus! {

/// A string before its markers are resolved: the characters in order, each
/// with its written form and its place, and the span of the whole.
#[derive(Clone, Debug, PartialEq, Eq)]
pub struct EncodedString {
    pub source_info: SourceInfo,
    pub chars: Vec<(char, String, Pos)>,
}

/// One character of the stream: what it stands for, how it was written,
/// where it begins.
pub type Item = (char, Seq<char>, Pos);

/// The model of `EncodedString`.
#[verifier::ext_equal]
pub struct EncodedStringView {
    pub source_info: SourceInfo,
    pub chars: Seq<Item>,
}

impl DeepView for EncodedString {
    type V = EncodedStringView;

    open spec fn deep_view(&self) -> EncodedStringView {
        EncodedStringView { source_info: self.source_info, chars: self.chars.deep_view() }
    }
}

/// The item is written as the single character `c`.
pub open spec fn written_as(item: Item, c: char) -> bool {
    item.1.len() == 1 && item.1[0] == c
}

/// The number of items from `from` on, before `to`, that are each written
/// as a single character that `accept` holds of.
pub open spec fn item_run(chars: Seq<Item>, from: int, to: int, accept: spec_fn(char) -> bool) -> nat
    decreases to - from,
{
    if 0 <= from < to && from < chars.len() && chars[from].1.len() == 1 && accept(chars[from].1[0]) {
        1 + item_run(chars, from + 1, to, accept)
    } else {
        0
    }
}

/// The text written by the `n` items from `from` on, one character each.
pub open spec fn item_text(chars: Seq<Item>, from: int, n: nat) -> Seq<char> {
    Seq::new(n, |k: int| chars[from + k].1[0])
}

/// The expression that the items `from..to` of the stream write, where item
/// `to` is the first brace of the closing `}}`: blanks, a name, blanks, and
/// nothing else. Places are those the stream gives. A missing name is a
/// fatal failure at the place where it should begin; anything after the name
/// and its blanks is a fatal failure at that place, expecting `}}`.
pub open spec fn expression_in(chars: Seq<Item>, from: int, to: int) -> Result<ExprView, ErrorView> {
    let n0 = item_run(chars, from, to, blank());
    let n1 = item_run(chars, from + n0, to, name_char());
    let n2 = item_run(chars, from + n0 + n1, to, blank());
    if n1 == 0 {
        Err(
            ErrorView {
                pos: chars[from + n0].2,
                recoverable: false,
                inner: ParseErrorView::TemplateVariable,
            },
        )
    } else if from + n0 + n1 + n2 != to {
        Err(
            ErrorView {
                pos: chars[from + n0 + n1 + n2].2,
                recoverable: false,
                inner: ParseErrorView::Expecting { value: "}}"@ },
            },
        )
    } else {
        Ok(
            ExprView {
                space0: WhitespaceView {
                    value: item_text(chars, from, n0),
                    source_info: SourceInfo { start: chars[from].2, end: chars[from + n0].2 },
                },
                variable: VariableView {
                    name: item_text(chars, from + n0, n1),
                    source_info: SourceInfo {
                        start: chars[from + n0].2,
                        end: chars[from + n0 + n1].2,
                    },
                },
                space1: WhitespaceView {
                    value: item_text(chars, from + n0 + n1, n2),
                    source_info: SourceInfo {
                        start: chars[from + n0 + n1].2,
                        end: chars[from + n0 + n1 + n2].2,
                    },
                },
            },
        )
    }
}

/// Where the decoder stands in the marker syntax.
#[derive(Clone, Copy, Debug, PartialEq, Eq, Structural)]
pub enum Mode {
    /// In literal text.
    Text,
    /// After a `{` that may open a marker.
    Brace,
    /// Inside a marker, after `{{`.
    Marker,
    /// Inside a marker, after a `}` that may close it.
    Closing,
}

/// The decoder after some items of a stream.
#[verifier::ext_equal]
pub struct Decoder {
    pub mode: Mode,
    /// The elements that are complete.
    pub elements: Seq<TemplateElementView>,
    /// The literal text since the last complete element: what it stands for.
    pub value: Seq<char>,
    /// The same text as it was written.
    pub encoded: Seq<char>,
    /// The index of the first item after the `{{` of the open marker.
    pub from: int,
    /// The failure that ended the decoding, if one did.
    pub failure: Option<ErrorView>,
}

/// `elements`, and the pending literal text after them if there is any.
pub open spec fn flushed(elements: Seq<TemplateElementView>, value: Seq<char>, encoded: Seq<char>) -> Seq<
    TemplateElementView,
> {
    if value.len() == 0 {
        elements
    } else {
        elements.push(TemplateElementView::String { value, encoded })
    }
}

/// The decoder before the first item.
pub open spec fn decoder_start() -> Decoder {
    Decoder {
        mode: Mode::Text,
        elements: Seq::empty(),
        value: Seq::empty(),
        encoded: Seq::empty(),
        from: 0,
        failure: None,
    }
}

/// The decoder `d` after item `i` of `chars`.
///
/// In text, a `{` waits for the next item: a second `{` completes the
/// pending literal and opens a marker, anything else makes the brace literal
/// text. In a marker, `}}` closes it and the items between the braces must
/// be an expression; a single `}` is part of the marker. After a failure
/// nothing changes.
pub open spec fn decoder_step(d: Decoder, chars: Seq<Item>, i: int) -> Decoder {
    let item = chars[i];
    if d.failure is Some {
        d
    } else {
        match d.mode {
            Mode::Text => if written_as(item, '{') {
                Decoder { mode: Mode::Brace, ..d }
            } else {
                Decoder { value: d.value.push(item.0), encoded: d.encoded + item.1, ..d }
            },
            Mode::Brace => if written_as(item, '{') {
                Decoder {
                    mode: Mode::Marker,
                    elements: flushed(d.elements, d.value, d.encoded),
                    value: Seq::empty(),
                    encoded: Seq::empty(),
                    from: i + 1,
                    failure: None,
                }
            } else {
                Decoder {
                    mode: Mode::Text,
                    value: d.value.push('{').push(item.0),
                    encoded: d.encoded.push('{') + item.1,
                    ..d
                }
            },
            Mode::Marker => if written_as(item, '}') {
                Decoder { mode: Mode::Closing, ..d }
            } else {
                d
            },
            Mode::Closing => if written_as(item, '}') {
                match expression_in(chars, d.from, i - 1) {
                    Ok(e) => Decoder {
                        mode: Mode::Text,
                        elements: d.elements.push(TemplateElementView::Expression(e)),
                        ..d
                    },
                    Err(e) => Decoder { failure: Some(e), ..d },
                }
            } else {
                Decoder { mode: Mode::Marker, ..d }
            },
        }
    }
}

/// The decoder after the first `n` items of `chars`.
pub open spec fn decoder_after(chars: Seq<Item>, n: nat) -> Decoder
    decreases n,
{
    if n == 0 {
        decoder_start()
    } else {
        decoder_step(decoder_after(chars, (n - 1) as nat), chars, n - 1)
    }
}

/// The elements of the template that the stream writes.
///
/// What the decoder holds after the last item decides: a failure is the
/// result; a marker still open is a fatal failure at the end of the string's
/// span, expecting `}}`; a `{` still waiting is literal text.
pub open spec fn spec_templatize(s: EncodedStringView) -> Result<Seq<TemplateElementView>, ErrorView> {
    let d = decoder_after(s.chars, s.chars.len());
    match d.failure {
        Some(e) => Err(e),
        None => match d.mode {
            Mode::Text => Ok(flushed(d.elements, d.value, d.encoded)),
            Mode::Brace => Ok(flushed(d.elements, d.value.push('{'), d.encoded.push('{'))),
            _ => Err(
                ErrorView {
                    pos: s.source_info.end,
                    recoverable: false,
                    inner: ParseErrorView::Expecting { value: "}}"@ },
                },
            ),
        },
    }
}

/// The character that `s` consists of, if it is a single one.
pub(crate) fn single(s: &String) -> (r: Option<char>)
    ensures
        r == if s@.len() == 1 {
            Some(s@[0])
        } else {
            None::<char>
        },
{
    let text = s.as_str();
    if text.unicode_len() == 1 {
        Some(text.get_char(0))
    } else {
        None
    }
}

/// Collects the run of items from `from` on, before `to`, that are written
/// as a single blank (or, with `names`, as a single name character), and
/// returns their text and the index after them.
fn take_run(chars: &Vec<(char, String, Pos)>, from: usize, to: usize, names: bool) -> (r: (String, usize))
    requires
        from <= to <= chars.len(),
    ensures
        r.1 == from + item_run(chars.deep_view(), from as int, to as int, if names { name_char() } else { blank() }),
        r.1 <= to,
        r.0@ == item_text(chars.deep_view(), from as int, (r.1 - from) as nat),
{
    let ghost items = chars.deep_view();
    let ghost accept = if names { name_char() } else { blank() };
    let mut text = String::new();
    let mut i = from;
    loop
        invariant
            from <= i <= to <= chars.len(),
            items == chars.deep_view(),
            accept == if names { name_char() } else { blank() },
            item_run(items, from as int, to as int, accept) == (i - from) + item_run(items, i as int, to as int, accept),
            text@ == item_text(items, from as int, (i - from) as nat),
        ensures
            item_run(items, i as int, to as int, accept) == 0,
        decreases to - i,
    {
        if i >= to {
            break ;
        }
        let c = match single(&chars[i].1) {
            Some(c) => c,
            None => {
                break ;
            },
        };
        let ok = if names {
            name_char_of(c, c.is_alphanumeric())
        } else {
            c == ' ' || c == '\t'
        };
        if !ok {
            break ;
        }
        text.push(c);
        i = i + 1;
        assert(text@ =~= item_text(items, from as int, (i - from) as nat));
    }
    (text, i)
}

/// Builds the expression that the items `from..to` write, where item `to`
/// is the first brace of the closing `}}`.
fn expression(chars: &Vec<(char, String, Pos)>, from: usize, to: usize) -> (r: ParseResult<Expr>)
    requires
        from <= to < chars.len(),
    ensures
        model(r) == expression_in(chars.deep_view(), from as int, to as int),
{
    let (blanks0, a) = take_run(chars, from, to, false);
    let (name, b) = take_run(chars, a, to, true);
    if b == a {
        return Err(Error { pos: chars[a].2, recoverable: false, inner: ParseError::TemplateVariable });
    }
    let (blanks1, c) = take_run(chars, b, to, false);
    if c != to {
        return Err(expecting("}}", chars[c].2, false));
    }
    Ok(
        Expr {
            space0: Whitespace {
                value: blanks0,
                source_info: SourceInfo { start: chars[from].2, end: chars[a].2 },
            },
            variable: Variable { name, source_info: SourceInfo { start: chars[a].2, end: chars[b].2 } },
            space1: Whitespace {
                value: blanks1,
                source_info: SourceInfo { start: chars[b].2, end: chars[c].2 },
            },
        },
    )
}

/// Splits a stream of decoded characters into literal text and
/// interpolated expressions.
pub fn templatize(encoded_string: EncodedString) -> (r: ParseResult<Vec<TemplateElement>>)
    ensures
        model(r) == spec_templatize(encoded_string.deep_view()),
        never_gives_way(r),
{
    let chars = &encoded_string.chars;
    let ghost items = chars.deep_view();
    proof {
        lemma_decoder_fails_fatally(items, items.len());
    }
    let mut elements: Vec<TemplateElement> = Vec::new();
    let mut value = String::new();
    let mut encoded = String::new();
    let mut mode = Mode::Text;
    let mut from: usize = 0;
    let mut i: usize = 0;
    assert(elements.deep_view() =~= Seq::empty());
    while i < chars.len()
        invariant
            i <= chars.len(),
            items == chars.deep_view(),
            items == encoded_string.deep_view().chars,
            from <= i,
            (mode == Mode::Closing) ==> from < i,
            decoder_after(items, i as nat) == (Decoder {
                mode,
                elements: elements.deep_view(),
                value: value@,
                encoded: encoded@,
                from: from as int,
                failure: None,
            }),
        decreases chars.len() - i,
    {
        let ghost before = decoder_after(items, i as nat);
        let ghost prev = elements.deep_view();
        let c = chars[i].0;
        let written = single(&chars[i].1);
        assert(items[i as int] == (c, chars[i as int].1@, chars[i as int].2));
        match mode {
            Mode::Text => {
                if written == Some('{') {
                    mode = Mode::Brace;
                } else {
                    value.push(c);
                    encoded.append(chars[i].1.as_str());
                }
            },
            Mode::Brace => {
                if written == Some('{') {
                    if !value.as_str().is_empty() {
                        elements.push(TemplateElement::String { value, encoded });
                        assert(elements.deep_view() =~= prev.push(
                            TemplateElementView::String { value: before.value, encoded: before.encoded },
                        ));
                    }
                    value = String::new();
                    encoded = String::new();
                    mode = Mode::Marker;
                    from = i + 1;
                } else {
                    value.push('{');
                    value.push(c);
                    encoded.push('{');
                    encoded.append(chars[i].1.as_str());
                    mode = Mode::Text;
                }
            },
            Mode::Marker => {
                if written == Some('}') {
                    mode = Mode::Closing;
                }
            },
            Mode::Closing => {
                if written == Some('}') {
                    match expression(chars, from, i - 1) {
                        Ok(e) => {
                            elements.push(TemplateElement::Expression(e));
                            assert(elements.deep_view() =~= prev.push(
                                TemplateElementView::Expression(e.deep_view()),
                            ));
                            mode = Mode::Text;
                        },
                        Err(e) => {
                            proof {
                                assert(decoder_after(items, (i + 1) as nat) == decoder_step(
                                    before,
                                    items,
                                    i as int,
                                ));
                                lemma_failure_stays(items, (i + 1) as nat, items.len());
                            }
                            return Err(e);
                        },
                    }
                } else {
                    mode = Mode::Marker;
                }
            },
        }
        i = i + 1;
    }
    match mode {
        Mode::Text => {},
        Mode::Brace => {
            value.push('{');
            encoded.push('{');
        },
        _ => {
            return Err(expecting("}}", encoded_string.source_info.end, false));
        },
    }
    if !value.as_str().is_empty() {
        let ghost prev = elements.deep_view();
        let ghost v = value@;
        let ghost enc = encoded@;
        elements.push(TemplateElement::String { value, encoded });
        assert(elements.deep_view() =~= prev.push(TemplateElementView::String { value: v, encoded: enc }));
    }
    Ok(elements)
}

/// Once the decoder has failed, later items change nothing.
pub proof fn lemma_failure_stays(chars: Seq<Item>, n: nat, m: nat)
    requires
        n <= m,
        decoder_after(chars, n).failure is Some,
    ensures
        decoder_after(chars, m) == decoder_after(chars, n),
    decreases m - n,
{
    if n < m {
        lemma_failure_stays(chars, n, (m - 1) as nat);
    }
}

} // verus!
