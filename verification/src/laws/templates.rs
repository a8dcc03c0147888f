//! Laws of strings and templates: what a bare string keeps, what the
//! decoder makes of text without markers, where spans begin and end.
use crate::ast::{SourceInfo, TemplateElementView, TemplateView};
use crate::combinators::{many, Rule};
use crate::error::{done, ErrorView};
use crate::expr::{name_char, spec_expr};
use crate::laws::combinators::{
    gives_way_unmoved, goes_onward, lemma_literal_onward, lemma_many_fails_fatally,
    lemma_many_onward, onward,
};
use crate::laws::escapes::{law_characters_give_way_unmoved, lemma_any_char_onward};
use crate::primitives::{blank, lemma_looking_at, looking_at, spec_literal, spec_try_literal};
use crate::reader::{lemma_walk_fits, ReaderState};
use crate::string::{
    bare_items, spec_any_char, spec_delimited_template, spec_escape_char, spec_key_char,
    spec_quoted_oneline_string, spec_string_item, spec_unquoted_string_key, spec_unquoted_template,
    KeyChar, StringKind,
};
use crate::template::{
    decoder_after, decoder_start, expression_in, flushed, item_run, item_text, spec_templatize,
    written_as, Decoder, EncodedStringView, Item, Mode,
};
use vstd::prelude::*;

verus! {

/// The characters that the first `n` items of a stream stand for.
pub open spec fn decoded_text(chars: Seq<Item>, n: nat) -> Seq<char>
    decreases n,
{
    if n == 0 {
        Seq::empty()
    } else {
        decoded_text(chars, (n - 1) as nat).push(chars[n - 1].0)
    }
}

/// The text that the first `n` items of a stream were written as.
pub open spec fn written_text(chars: Seq<Item>, n: nat) -> Seq<char>
    decreases n,
{
    if n == 0 {
        Seq::empty()
    } else {
        written_text(chars, (n - 1) as nat) + chars[n - 1].1
    }
}

/// A stream in which nothing is written as `{` holds no marker: the decoder
/// stays in text and gathers what the items stand for and how they were
/// written.
pub proof fn lemma_text_without_braces(chars: Seq<Item>, n: nat)
    requires
        n <= chars.len(),
        forall|i: int| 0 <= i < chars.len() ==> !written_as(#[trigger] chars[i], '{'),
    ensures
        decoder_after(chars, n) == (Decoder {
            mode: Mode::Text,
            elements: Seq::empty(),
            value: decoded_text(chars, n),
            encoded: written_text(chars, n),
            from: 0,
            failure: None,
        }),
    decreases n,
{
    if n > 0 {
        lemma_text_without_braces(chars, (n - 1) as nat);
        assert(!written_as(chars[n - 1], '{'));
    }
}

/// A string in which nothing is written as `{` is one literal: its value
/// is what the characters stand for, in order, and its encoded text is what
/// they were written as. An empty string has no element.
pub proof fn law_text_without_braces_is_one_literal(s: EncodedStringView)
    requires
        forall|i: int| 0 <= i < s.chars.len() ==> !written_as(#[trigger] s.chars[i], '{'),
    ensures
        spec_templatize(s) == Ok::<Seq<TemplateElementView>, ErrorView>(
            if s.chars.len() == 0 {
                Seq::empty()
            } else {
                seq![
                    TemplateElementView::String {
                        value: decoded_text(s.chars, s.chars.len()),
                        encoded: written_text(s.chars, s.chars.len()),
                    },
                ]
            },
        ),
{
    let n = s.chars.len();
    lemma_text_without_braces(s.chars, n);
    if n > 0 {
        assert(decoded_text(s.chars, n).len() > 0);
        assert(Seq::<TemplateElementView>::empty().push(
            TemplateElementView::String {
                value: decoded_text(s.chars, n),
                encoded: written_text(s.chars, n),
            },
        ) =~= seq![
            TemplateElementView::String {
                value: decoded_text(s.chars, n),
                encoded: written_text(s.chars, n),
            },
        ]);
    }
}

/// The decoder fails fatally or not at all.
pub proof fn lemma_decoder_fails_fatally(chars: Seq<Item>, n: nat)
    ensures
        decoder_after(chars, n).failure is Some ==> !decoder_after(chars, n).failure->Some_0.recoverable,
    decreases n,
{
    if n > 0 {
        lemma_decoder_fails_fatally(chars, (n - 1) as nat);
    }
}

/// After the opening delimiter of a template every failure is fatal: a
/// template is given up for another rule only where its delimiter is
/// missing.
pub proof fn law_committed_after_delimiter(kind: StringKind, input: Seq<char>, st: ReaderState)
    requires
        looking_at(input, st.index as int, kind.fence()),
    ensures
        spec_delimited_template(kind, input, st).result is Err ==> !spec_delimited_template(
            kind,
            input,
            st,
        ).result->Err_0.recoverable,
{
    let open = spec_try_literal(kind.fence(), input, st);
    let chars = many(&kind, input, open.state);
    lemma_many_fails_fatally(&kind, input, open.state);
    if chars.result is Ok {
        lemma_decoder_fails_fatally(chars.result->Ok_0, chars.result->Ok_0.len());
    }
}

/// A bare string that is empty, because the text ends or the next
/// character ends the string, gives a template without elements whose span
/// is empty, and nothing is read.
pub proof fn law_empty_bare_template(input: Seq<char>, st: ReaderState)
    requires
        st.fits(input),
        st.index == input.len() || input[st.index as int] == '#' || input[st.index as int] == '\n',
    ensures
        spec_unquoted_template(input, st) == done(
            TemplateView {
                delimiter: None,
                elements: Seq::empty(),
                source_info: SourceInfo { start: st.pos, end: st.pos },
            },
            st,
        ),
{
    reveal(spec_any_char);
    reveal(spec_escape_char);
    reveal_strlit("\\");
    let from = st.index as int;
    if looking_at(input, from, "\\"@) {
        assert(input.subrange(from, from + 1)[0] == '\\');
    }
    if st.index < input.len() {
        assert(seq!['#'].contains('#')) by {
            assert(seq!['#'][0] == '#');
        }
    }
    assert(bare_items(input, st) == done(Seq::<Item>::empty(), st));
    assert(decoder_after(Seq::<Item>::empty(), 0) == decoder_start());
    assert(flushed(Seq::empty(), Seq::empty(), Seq::empty()) =~= Seq::empty());
}

/// A bare string does not end with a space that was written as a space:
/// trailing spaces are left unread. An escaped space stays.
pub proof fn law_bare_string_is_trimmed(input: Seq<char>, st: ReaderState)
    ensures
        bare_items(input, st).result is Ok && bare_items(input, st).result->Ok_0.len() > 0
            ==> !written_as(bare_items(input, st).result->Ok_0.last(), ' '),
    decreases input.len() - st.index,
{
    let o = spec_string_item(StringKind::Bare, input, st);
    if o.result is Ok && st.index < o.state.index <= input.len() {
        law_bare_string_is_trimmed(input, o.state);
        let rest = bare_items(input, o.state);
        if rest.result is Ok {
            let items = rest.result->Ok_0;
            let item = o.result->Ok_0;
            if !(items.len() == 0 && written_as(item, ' ')) {
                let all = seq![item] + items;
                if items.len() > 0 {
                    assert(all.last() == items.last());
                } else {
                    assert(all.last() == item);
                }
            }
        }
    }
}

/// The written text of the first items of a stream depends on those items
/// only.
pub proof fn lemma_written_text_prefix(a: Seq<Item>, b: Seq<Item>, n: nat)
    requires
        n <= a.len(),
        n <= b.len(),
        forall|i: int| 0 <= i < n ==> a[i] == b[i],
    ensures
        written_text(a, n) == written_text(b, n),
    decreases n,
{
    if n > 0 {
        lemma_written_text_prefix(a, b, (n - 1) as nat);
    }
}

/// The written text of a stream is that of its first item and then that
/// of the others.
pub proof fn lemma_written_text_of(all: Seq<Item>, first: Item, others: Seq<Item>)
    requires
        all == seq![first] + others,
    ensures
        written_text(all, all.len()) == first.1 + written_text(others, others.len()),
    decreases others.len(),
{
    if others.len() == 0 {
        assert(written_text(all, 0) =~= Seq::<char>::empty());
        assert(written_text(all, 1) =~= first.1);
        assert(first.1 + written_text(others, 0) =~= first.1);
    } else {
        let shorter = others.drop_last();
        lemma_written_text_of(seq![first] + shorter, first, shorter);
        lemma_written_text_prefix(all, seq![first] + shorter, (all.len() - 1) as nat);
        lemma_written_text_prefix(others, shorter, shorter.len());
        assert(all[all.len() - 1] == others.last());
        assert((first.1 + written_text(shorter, shorter.len())) + others.last().1 =~= first.1 + (
        written_text(shorter, shorter.len()) + others.last().1));
    }
}

/// The characters of a bare string are the text between the place where the
/// string begins and the place where the reader ends, as it was written:
/// nothing of it is lost, and the reader stands exactly after it.
pub proof fn law_bare_string_is_the_text_read(input: Seq<char>, st: ReaderState)
    requires
        st.fits(input),
    ensures
        onward(st, bare_items(input, st).state, input),
        bare_items(input, st).result is Ok ==> written_text(
            bare_items(input, st).result->Ok_0,
            bare_items(input, st).result->Ok_0.len(),
        ) == input.subrange(st.index as int, bare_items(input, st).state.index as int),
    decreases input.len() - st.index,
{
    let o = spec_string_item(StringKind::Bare, input, st);
    lemma_any_char_onward(StringKind::Bare.except(), input, st);
    let from = st.index as int;
    if o.result is Ok && st.index < o.state.index <= input.len() {
        law_bare_string_is_the_text_read(input, o.state);
        let rest = bare_items(input, o.state);
        let item = o.result->Ok_0;
        if rest.result is Ok {
            let items = rest.result->Ok_0;
            if !(items.len() == 0 && written_as(item, ' ')) {
                lemma_written_text_of(seq![item] + items, item, items);
                assert(input.subrange(from, o.state.index as int) + input.subrange(
                    o.state.index as int,
                    rest.state.index as int,
                ) =~= input.subrange(from, rest.state.index as int));
            } else {
                assert(input.subrange(from, from) =~= Seq::<char>::empty());
            }
        }
    } else if o.result is Ok || o.result->Err_0.recoverable {
        assert(input.subrange(from, from) =~= Seq::<char>::empty());
    }
}

/// The span of a template without delimiters runs from where the string
/// begins to where the reader ends, and does not end before it starts.
pub proof fn law_bare_template_span(input: Seq<char>, st: ReaderState)
    requires
        st.fits(input),
    ensures
        onward(st, spec_unquoted_template(input, st).state, input),
        spec_unquoted_template(input, st).result is Ok ==> spec_unquoted_template(
            input,
            st,
        ).result->Ok_0.source_info == (SourceInfo {
            start: st.pos,
            end: spec_unquoted_template(input, st).state.pos,
        }) && spec_unquoted_template(input, st).result->Ok_0.source_info.ordered(),
{
    law_bare_string_is_the_text_read(input, st);
}

/// The span of a template between delimiters runs from the opening
/// delimiter to where the reader ends, after the closing one, and does not
/// end before it starts.
pub proof fn law_delimited_template_span(kind: StringKind, input: Seq<char>, st: ReaderState)
    requires
        st.fits(input),
    ensures
        onward(st, spec_delimited_template(kind, input, st).state, input),
        spec_delimited_template(kind, input, st).result is Ok ==> spec_delimited_template(
            kind,
            input,
            st,
        ).result->Ok_0.source_info == (SourceInfo {
            start: st.pos,
            end: spec_delimited_template(kind, input, st).state.pos,
        }) && spec_delimited_template(kind, input, st).result->Ok_0.source_info.ordered(),
{
    assert(goes_onward(&kind, input)) by {
        assert forall|s: ReaderState| s.fits(input) implies onward(
            s,
            (#[trigger] kind.parse(input, s)).state,
            input,
        ) by {
            lemma_any_char_onward(kind.except(), input, s);
        }
    }
    let open = spec_try_literal(kind.fence(), input, st);
    lemma_literal_onward(kind.fence(), input, st);
    lemma_many_onward(&kind, input, open.state);
    let chars = many(&kind, input, open.state);
    lemma_literal_onward(kind.fence(), input, chars.state);
}

/// The text that the items `from..to` of a stream were written as.
pub open spec fn written_range(chars: Seq<Item>, from: int, to: int) -> Seq<char>
    decreases to - from,
{
    if to <= from {
        Seq::empty()
    } else {
        written_range(chars, from, to - 1) + chars[to - 1].1
    }
}

/// The text that an element of a template was written as: that of a
/// literal, and for an expression its braces with blanks, name and blanks
/// between them.
pub open spec fn element_text(element: TemplateElementView) -> Seq<char> {
    match element {
        TemplateElementView::String { encoded, .. } => encoded,
        TemplateElementView::Expression(e) => seq!['{', '{'] + e.space0.value + e.variable.name
            + e.space1.value + seq!['}', '}'],
    }
}

/// The text that the elements of a template were written as.
pub open spec fn elements_text(elements: Seq<TemplateElementView>) -> Seq<char>
    decreases elements.len(),
{
    if elements.len() == 0 {
        Seq::empty()
    } else {
        elements_text(elements.drop_last()) + element_text(elements.last())
    }
}

/// The written text of the first items is that of the items from the first
/// on.
pub proof fn lemma_written_text_is_range(chars: Seq<Item>, n: nat)
    ensures
        written_text(chars, n) == written_range(chars, 0, n as int),
    decreases n,
{
    if n > 0 {
        lemma_written_text_is_range(chars, (n - 1) as nat);
    }
}

/// The written text of a range is that of its two halves.
pub proof fn lemma_written_range_split(chars: Seq<Item>, from: int, mid: int, to: int)
    requires
        from <= mid <= to,
    ensures
        written_range(chars, from, to) == written_range(chars, from, mid) + written_range(chars, mid, to),
    decreases to - mid,
{
    if mid < to {
        lemma_written_range_split(chars, from, mid, to - 1);
        assert(written_range(chars, from, mid) + (written_range(chars, mid, to - 1) + chars[to - 1].1)
            =~= (written_range(chars, from, mid) + written_range(chars, mid, to - 1)) + chars[to
            - 1].1);
    } else {
        assert(written_range(chars, from, mid) + Seq::<char>::empty() =~= written_range(
            chars,
            from,
            mid,
        ));
    }
}

/// The text of a run of items is what they were written as, and the run
/// ends before `to`.
pub proof fn lemma_item_run_text(chars: Seq<Item>, from: int, to: int, accept: spec_fn(char) -> bool)
    requires
        0 <= from <= to <= chars.len(),
    ensures
        from + item_run(chars, from, to, accept) <= to,
        item_text(chars, from, item_run(chars, from, to, accept)) == written_range(
            chars,
            from,
            from + item_run(chars, from, to, accept),
        ),
    decreases to - from,
{
    let n = item_run(chars, from, to, accept);
    if n > 0 {
        lemma_item_run_text(chars, from + 1, to, accept);
        let rest = (n - 1) as nat;
        lemma_written_range_split(chars, from, from + 1, from + n);
        assert(written_range(chars, from, from + 1) =~= chars[from].1) by {
            assert(written_range(chars, from, from) =~= Seq::<char>::empty());
        }
        assert(chars[from].1 =~= seq![chars[from].1[0]]);
        assert(item_text(chars, from, n) =~= seq![chars[from].1[0]] + item_text(chars, from + 1, rest));
    } else {
        assert(item_text(chars, from, 0) =~= Seq::<char>::empty());
    }
}

/// An expression that the items `from..to` write is written as those items
/// were.
pub proof fn lemma_expression_text(chars: Seq<Item>, from: int, to: int)
    requires
        0 <= from <= to <= chars.len(),
        expression_in(chars, from, to) is Ok,
    ensures
        ({
            let e = expression_in(chars, from, to)->Ok_0;
            e.space0.value + e.variable.name + e.space1.value == written_range(chars, from, to)
        }),
{
    let n0 = item_run(chars, from, to, blank());
    lemma_item_run_text(chars, from, to, blank());
    let n1 = item_run(chars, from + n0, to, name_char());
    lemma_item_run_text(chars, from + n0, to, name_char());
    let n2 = item_run(chars, from + n0 + n1, to, blank());
    lemma_item_run_text(chars, from + n0 + n1, to, blank());
    lemma_written_range_split(chars, from, from + n0, from + n0 + n1);
    lemma_written_range_split(chars, from, from + n0 + n1, to);
}

/// The text that the decoder has yet to give an element for: nothing in
/// literal text (what is pending there is kept in `encoded`), the brace that
/// waits, or the braces of the open marker and what stands in it so far.
pub open spec fn pending_text(d: Decoder, chars: Seq<Item>, n: int) -> Seq<char> {
    match d.mode {
        Mode::Text => d.encoded,
        Mode::Brace => d.encoded + seq!['{'],
        _ => seq!['{', '{'] + written_range(chars, d.from, n),
    }
}

/// While it has not failed, the decoder keeps the text: what its elements
/// were written as, and then what is pending, is what the items so far were
/// written as.
pub proof fn lemma_decoder_keeps_text(chars: Seq<Item>, n: nat)
    requires
        n <= chars.len(),
    ensures
        ({
            let d = decoder_after(chars, n);
            d.failure is None ==> {
                &&& elements_text(d.elements) + pending_text(d, chars, n as int) == written_range(
                    chars,
                    0,
                    n as int,
                )
                &&& d.value.len() == 0 ==> d.encoded.len() == 0
                &&& d.mode == Mode::Marker || d.mode == Mode::Closing ==> 0 <= d.from <= n
                    && d.encoded.len() == 0 && d.value.len() == 0
                &&& d.mode == Mode::Closing ==> d.from < n && written_as(chars[n - 1], '}')
            }
        }),
    decreases n,
{
    if n > 0 {
        let i = (n - 1) as int;
        lemma_decoder_keeps_text(chars, i as nat);
        let before = decoder_after(chars, i as nat);
        let d = decoder_after(chars, n);
        let item = chars[i];
        if before.failure is None && d.failure is None {
            let done = elements_text(before.elements);
            let whole = written_range(chars, 0, i);
            assert(written_range(chars, 0, n as int) == whole + item.1);
            match before.mode {
                Mode::Text => {
                    if written_as(item, '{') {
                        assert(item.1 =~= seq!['{']);
                        assert(done + (before.encoded + seq!['{']) =~= (done + before.encoded) + item.1);
                    } else {
                        assert(done + (before.encoded + item.1) =~= (done + before.encoded) + item.1);
                    }
                },
                Mode::Brace => {
                    if written_as(item, '{') {
                        assert(item.1 =~= seq!['{']);
                        assert(written_range(chars, n as int, n as int) =~= Seq::<char>::empty());
                        lemma_elements_text_flushed(before.elements, before.value, before.encoded);
                        assert((done + before.encoded) + (seq!['{', '{'] + Seq::<char>::empty()) =~= (
                        done + (before.encoded + seq!['{'])) + item.1);
                    } else {
                        assert(done + (before.encoded.push('{') + item.1) =~= (done + (before.encoded
                            + seq!['{'])) + item.1);
                    }
                },
                _ => {
                    assert(written_range(chars, before.from, n as int) == written_range(
                        chars,
                        before.from,
                        i,
                    ) + item.1);
                    if before.mode == Mode::Closing && written_as(item, '}') {
                        let e = expression_in(chars, before.from, i - 1)->Ok_0;
                        lemma_expression_text(chars, before.from, i - 1);
                        let inner = written_range(chars, before.from, i - 1);
                        assert(item.1 =~= seq!['}']);
                        assert(chars[i - 1].1 =~= seq!['}']);
                        assert(written_range(chars, before.from, i) == inner + chars[i - 1].1);
                        lemma_elements_text_push(before.elements, TemplateElementView::Expression(e));
                        assert(element_text(TemplateElementView::Expression(e)) =~= seq!['{', '{'] + inner
                            + seq!['}', '}']);
                        assert((done + (seq!['{', '{'] + inner + seq!['}', '}'])) + Seq::<char>::empty()
                            =~= (done + (seq!['{', '{'] + (inner + chars[i - 1].1))) + item.1);
                    } else {
                        assert(done + (seq!['{', '{'] + (written_range(chars, before.from, i) + item.1))
                            =~= (done + (seq!['{', '{'] + written_range(chars, before.from, i)))
                            + item.1);
                    }
                },
            }
        }
    } else {
        assert(elements_text(Seq::empty()) + Seq::<char>::empty() =~= written_range(chars, 0, 0));
    }
}

/// The written text of elements with one more is that of the elements and
/// then that of the one.
pub proof fn lemma_elements_text_push(elements: Seq<TemplateElementView>, element: TemplateElementView)
    ensures
        elements_text(elements.push(element)) == elements_text(elements) + element_text(element),
{
    assert(elements.push(element).drop_last() =~= elements);
}

/// Completing the pending literal keeps the text.
pub proof fn lemma_elements_text_flushed(
    elements: Seq<TemplateElementView>,
    value: Seq<char>,
    encoded: Seq<char>,
)
    requires
        value.len() == 0 ==> encoded.len() == 0,
    ensures
        elements_text(flushed(elements, value, encoded)) == elements_text(elements) + encoded,
{
    if value.len() == 0 {
        assert(elements_text(elements) + encoded =~= elements_text(elements));
    } else {
        lemma_elements_text_push(elements, TemplateElementView::String { value, encoded });
    }
}

/// The elements of a template keep the text of the string: written one
/// after the other, literals as they were written and expressions between
/// their braces, they are the text that the string was written as.
pub proof fn law_elements_are_the_text_of_the_string(s: EncodedStringView)
    requires
        spec_templatize(s) is Ok,
    ensures
        elements_text(spec_templatize(s)->Ok_0) == written_text(s.chars, s.chars.len()),
{
    let n = s.chars.len();
    let d = decoder_after(s.chars, n);
    lemma_decoder_keeps_text(s.chars, n);
    lemma_written_text_is_range(s.chars, n);
    if d.mode == Mode::Text {
        lemma_elements_text_flushed(d.elements, d.value, d.encoded);
    } else {
        lemma_elements_text_flushed(d.elements, d.value.push('{'), d.encoded.push('{'));
        assert(d.encoded.push('{') =~= d.encoded + seq!['{']);
    }
}

/// The elements of a template without delimiters are the text that was
/// read: nothing between the place where the string began and the place
/// where the reader ends is missing from them.
pub proof fn law_bare_template_is_the_text_read(input: Seq<char>, st: ReaderState)
    requires
        st.fits(input),
        spec_unquoted_template(input, st).result is Ok,
    ensures
        elements_text(spec_unquoted_template(input, st).result->Ok_0.elements) == input.subrange(
            st.index as int,
            spec_unquoted_template(input, st).state.index as int,
        ),
{
    let chars = bare_items(input, st);
    law_bare_string_is_the_text_read(input, st);
    law_elements_are_the_text_of_the_string(
        EncodedStringView {
            source_info: SourceInfo { start: st.pos, end: chars.state.pos },
            chars: chars.result->Ok_0,
        },
    );
}

/// The characters of a string between delimiters are the text between the
/// place where they begin and the place where the reader ends, as it was
/// written.
pub proof fn lemma_string_items_are_the_text_read(kind: StringKind, input: Seq<char>, st: ReaderState)
    requires
        st.fits(input),
    ensures
        onward(st, many(&kind, input, st).state, input),
        many(&kind, input, st).result is Ok ==> written_text(
            many(&kind, input, st).result->Ok_0,
            many(&kind, input, st).result->Ok_0.len(),
        ) == input.subrange(st.index as int, many(&kind, input, st).state.index as int),
    decreases input.len() - st.index,
{
    let o = kind.parse(input, st);
    lemma_any_char_onward(kind.except(), input, st);
    let from = st.index as int;
    if o.result is Ok && st.index < o.state.index <= input.len() {
        lemma_string_items_are_the_text_read(kind, input, o.state);
        let rest = many(&kind, input, o.state);
        let item = o.result->Ok_0;
        if rest.result is Ok {
            let items = rest.result->Ok_0;
            lemma_written_text_of(seq![item] + items, item, items);
            assert(input.subrange(from, o.state.index as int) + input.subrange(
                o.state.index as int,
                rest.state.index as int,
            ) =~= input.subrange(from, rest.state.index as int));
        }
    } else if o.result is Ok || o.result->Err_0.recoverable {
        assert(input.subrange(from, from) =~= Seq::<char>::empty());
    }
}

/// A word that was read is the text that the reader passed.
pub proof fn lemma_word_is_the_text_read(s: Seq<char>, input: Seq<char>, st: ReaderState)
    requires
        st.fits(input),
    ensures
        spec_try_literal(s, input, st).result is Ok ==> spec_try_literal(s, input, st).state.index
            == st.index + s.len() <= input.len() && input.subrange(
            st.index as int,
            st.index + s.len(),
        ) == s,
        spec_literal(s, input, st).result is Ok ==> spec_literal(s, input, st).state.index == st.index
            + s.len() <= input.len() && input.subrange(st.index as int, st.index + s.len()) == s,
{
    lemma_looking_at(s, input, st.index as int);
    if looking_at(input, st.index as int, s) {
        lemma_walk_fits(st, input, s.len());
    }
}

/// A template between delimiters is the text that was read: its delimiter,
/// its elements as they were written, and its delimiter again.
pub proof fn law_delimited_template_is_the_text_read(kind: StringKind, input: Seq<char>, st: ReaderState)
    requires
        st.fits(input),
        spec_delimited_template(kind, input, st).result is Ok,
    ensures
        kind.fence() + elements_text(spec_delimited_template(kind, input, st).result->Ok_0.elements)
            + kind.fence() == input.subrange(
            st.index as int,
            spec_delimited_template(kind, input, st).state.index as int,
        ),
{
    let fence = kind.fence();
    let open = spec_try_literal(fence, input, st);
    lemma_word_is_the_text_read(fence, input, st);
    lemma_literal_onward(fence, input, st);
    let chars = many(&kind, input, open.state);
    lemma_string_items_are_the_text_read(kind, input, open.state);
    let close = spec_literal(fence, input, chars.state);
    lemma_word_is_the_text_read(fence, input, chars.state);
    law_elements_are_the_text_of_the_string(
        EncodedStringView {
            source_info: SourceInfo { start: st.pos, end: chars.state.pos },
            chars: chars.result->Ok_0,
        },
    );
    let a = st.index as int;
    let b = open.state.index as int;
    let c = chars.state.index as int;
    let d = close.state.index as int;
    assert(open.result is Ok && chars.result is Ok && close.result is Ok);
    assert(a <= b <= c <= d <= input.len());
    assert(input.subrange(a, b) + input.subrange(b, c) + input.subrange(c, d) =~= input.subrange(a, d));
}

/// The rules of strings, keys and expressions leave the reader where it
/// was when they give way to another rule; a template without delimiters
/// and a one-line string never give way.
pub proof fn law_strings_give_way_unmoved(kind: StringKind, input: Seq<char>, st: ReaderState)
    ensures
        gives_way_unmoved(spec_string_item(kind, input, st), st),
        gives_way_unmoved(spec_key_char(input, st), st),
        gives_way_unmoved(spec_unquoted_string_key(input, st), st),
        gives_way_unmoved(spec_delimited_template(kind, input, st), st),
        gives_way_unmoved(spec_expr(input, st), st),
        spec_unquoted_template(input, st).result is Err ==> !spec_unquoted_template(
            input,
            st,
        ).result->Err_0.recoverable,
        spec_quoted_oneline_string(input, st).result is Err ==> !spec_quoted_oneline_string(
            input,
            st,
        ).result->Err_0.recoverable,
{
    law_characters_give_way_unmoved(kind.except(), input, st);
    lemma_many_fails_fatally(&KeyChar, input, st);
    let open = spec_try_literal(kind.fence(), input, st);
    lemma_many_fails_fatally(&kind, input, open.state);
    let chars = many(&kind, input, open.state);
    if chars.result is Ok {
        lemma_decoder_fails_fatally(chars.result->Ok_0, chars.result->Ok_0.len());
    }
    lemma_bare_items_fail_fatally(input, st);
    let bare = bare_items(input, st);
    if bare.result is Ok {
        lemma_decoder_fails_fatally(bare.result->Ok_0, bare.result->Ok_0.len());
    }
}

/// The characters of a bare string fail fatally or not at all.
pub proof fn lemma_bare_items_fail_fatally(input: Seq<char>, st: ReaderState)
    ensures
        bare_items(input, st).result is Err ==> !bare_items(input, st).result->Err_0.recoverable,
    decreases input.len() - st.index,
{
    let o = spec_string_item(StringKind::Bare, input, st);
    if o.result is Ok && st.index < o.state.index <= input.len() {
        lemma_bare_items_fail_fatally(input, o.state);
    }
}

} // verus!
