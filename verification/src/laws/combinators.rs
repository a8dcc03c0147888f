//! Laws of the reader and the combinators: runs, choice, repetition, and
//! that rules leave the reader onward.
use crate::combinators::{at_least_one, first_of, many, Rule};
use crate::error::{done, ErrorView, Outcome, ParseErrorView};
use crate::primitives::{
    agree, lemma_agree, lemma_looking_at, looking_at, spec_hex_digit, spec_literal,
    spec_one_or_more_spaces, spec_try_literal, spec_try_literals, spec_zero_or_more_spaces,
};
use crate::reader::{lemma_step_fits, lemma_walk_fits, run_len, width, ReaderState};
use vstd::prelude::*;

verus! {

/// A run is the longest there is: every character of it is accepted, it
/// stays inside the text, and the character after it, if any, is not
/// accepted.
pub proof fn law_run_is_longest(input: Seq<char>, from: int, accept: spec_fn(char) -> bool)
    requires
        0 <= from <= input.len(),
    ensures
        from + run_len(input, from, accept) <= input.len(),
        forall|i: int| from <= i < from + run_len(input, from, accept) ==> accept(#[trigger] input[i]),
        from + run_len(input, from, accept) < input.len() ==> !accept(
            input[from + run_len(input, from, accept)],
        ),
    decreases input.len() - from,
{
    if from < input.len() && accept(input[from]) {
        law_run_is_longest(input, from + 1, accept);
    }
}

/// In a choice, a rule that succeeds or fails fatally decides, if every rule
/// before it failed recoverably: its result and state are those of the
/// choice, and no later rule is looked at.
pub proof fn law_choice_first_decides<R: Rule>(
    rules: Seq<R>,
    k: int,
    input: Seq<char>,
    st: ReaderState,
    exhausted: ParseErrorView,
)
    requires
        0 <= k < rules.len(),
        forall|i: int|
            0 <= i < k ==> (#[trigger] rules[i].parse(input, st)).result is Err && rules[i].parse(
                input,
                st,
            ).result->Err_0.recoverable,
        !(rules[k].parse(input, st).result is Err && rules[k].parse(input, st).result->Err_0.recoverable),
    ensures
        first_of(rules, 0, input, st, exhausted).result == rules[k].parse(input, st).result,
        first_of(rules, 0, input, st, exhausted).state == rules[k].parse(input, st).state,
{
    lemma_choice_from(rules, 0, k, input, st, exhausted);
}

/// The same, for a choice that starts at rule `from`.
proof fn lemma_choice_from<R: Rule>(
    rules: Seq<R>,
    from: int,
    k: int,
    input: Seq<char>,
    st: ReaderState,
    exhausted: ParseErrorView,
)
    requires
        0 <= from <= k < rules.len(),
        forall|i: int|
            from <= i < k ==> (#[trigger] rules[i].parse(input, st)).result is Err && rules[i].parse(
                input,
                st,
            ).result->Err_0.recoverable,
        !(rules[k].parse(input, st).result is Err && rules[k].parse(input, st).result->Err_0.recoverable),
    ensures
        first_of(rules, from, input, st, exhausted).result == rules[k].parse(input, st).result,
        first_of(rules, from, input, st, exhausted).state == rules[k].parse(input, st).state,
    decreases k - from,
{
    if from < k {
        assert(rules[from].parse(input, st).result is Err);
        lemma_choice_from(rules, from + 1, k, input, st, exhausted);
    }
}

/// A choice whose rules all fail recoverably fails fatally at the place
/// where it started, with the kind it was given, and leaves the reader
/// there.
pub proof fn law_choice_exhausted<R: Rule>(
    rules: Seq<R>,
    input: Seq<char>,
    st: ReaderState,
    exhausted: ParseErrorView,
)
    requires
        forall|i: int|
            0 <= i < rules.len() ==> (#[trigger] rules[i].parse(input, st)).result is Err
                && rules[i].parse(input, st).result->Err_0.recoverable,
    ensures
        first_of(rules, 0, input, st, exhausted).result == Err::<<R::Output as DeepView>::V, ErrorView>(
            ErrorView { pos: st.pos, recoverable: false, inner: exhausted },
        ),
        first_of(rules, 0, input, st, exhausted).state == st,
{
    lemma_exhausted_from(rules, 0, input, st, exhausted);
}

/// The same, for a choice that starts at rule `from`.
proof fn lemma_exhausted_from<R: Rule>(
    rules: Seq<R>,
    from: int,
    input: Seq<char>,
    st: ReaderState,
    exhausted: ParseErrorView,
)
    requires
        0 <= from,
        forall|i: int|
            from <= i < rules.len() ==> (#[trigger] rules[i].parse(input, st)).result is Err
                && rules[i].parse(input, st).result->Err_0.recoverable,
    ensures
        first_of(rules, from, input, st, exhausted).result == Err::<<R::Output as DeepView>::V, ErrorView>(
            ErrorView { pos: st.pos, recoverable: false, inner: exhausted },
        ),
        first_of(rules, from, input, st, exhausted).state == st,
    decreases rules.len() - from,
{
    if from < rules.len() {
        assert(rules[from].parse(input, st).result is Err);
        lemma_exhausted_from(rules, from + 1, input, st, exhausted);
    }
}

/// A repetition never takes a match that read nothing: where the rule
/// matches without moving, the repetition ends with no item and the reader
/// stays.
pub proof fn law_repetition_needs_progress<R: Rule>(rule: &R, input: Seq<char>, st: ReaderState)
    requires
        rule.parse(input, st).result is Ok,
        rule.parse(input, st).state.index <= st.index,
    ensures
        many(rule, input, st).result == Ok::<Seq<<R::Output as DeepView>::V>, ErrorView>(Seq::empty()),
        many(rule, input, st).state == st,
{
}

/// A fatal failure of the rule ends a repetition with that failure.
pub proof fn law_repetition_fatal<R: Rule>(rule: &R, input: Seq<char>, st: ReaderState)
    requires
        rule.parse(input, st).result is Err,
        !rule.parse(input, st).result->Err_0.recoverable,
    ensures
        many(rule, input, st).result == Err::<Seq<<R::Output as DeepView>::V>, ErrorView>(
            rule.parse(input, st).result->Err_0,
        ),
        many(rule, input, st).state == rule.parse(input, st).state,
{
}

/// A repetition fails fatally or not at all.
pub proof fn lemma_many_fails_fatally<R: Rule>(rule: &R, input: Seq<char>, st: ReaderState)
    ensures
        many(rule, input, st).result is Err ==> !many(rule, input, st).result->Err_0.recoverable,
    decreases input.len() - st.index,
{
    let o = rule.parse(input, st);
    if o.result is Ok && st.index < o.state.index <= input.len() {
        lemma_many_fails_fatally(rule, input, o.state);
    }
}

/// `after` is a state that a rule may leave a reader in that stood at
/// `before`: inside the text, and not before `before`.
pub open spec fn onward(before: ReaderState, after: ReaderState, input: Seq<char>) -> bool {
    &&& after.fits(input)
    &&& before.index <= after.index
    &&& before.pos.le(after.pos)
}

/// A rule that leaves the reader onward wherever it is applied.
pub open spec fn goes_onward<R: Rule>(rule: &R, input: Seq<char>) -> bool {
    forall|st: ReaderState| st.fits(input) ==> onward(st, (#[trigger] rule.parse(input, st)).state, input)
}

/// A word, read or not, leaves the reader onward.
pub proof fn lemma_literal_onward(s: Seq<char>, input: Seq<char>, st: ReaderState)
    requires
        st.fits(input),
    ensures
        onward(st, spec_literal(s, input, st).state, input),
        onward(st, spec_try_literal(s, input, st).state, input),
        spec_try_literal(s, input, st).result is Ok ==> spec_try_literal(s, input, st).state.index
            == st.index + s.len(),
{
    let k = agree(s, input, st.index as int, 0);
    lemma_agree(s, input, st.index as int, 0);
    if k > 0 {
        assert(st.index + (k - 1) < input.len());
    }
    lemma_walk_fits(st, input, k as nat);
    if st.index + k < input.len() {
        lemma_walk_fits(st, input, (k + 1) as nat);
    }
    if looking_at(input, st.index as int, s) {
        lemma_walk_fits(st, input, s.len());
    }
}

/// A repetition of a rule that goes onward goes onward.
pub proof fn lemma_many_onward<R: Rule>(rule: &R, input: Seq<char>, st: ReaderState)
    requires
        st.fits(input),
        goes_onward(rule, input),
    ensures
        onward(st, many(rule, input, st).state, input),
        onward(st, at_least_one(rule, input, st).state, input),
    decreases input.len() - st.index,
{
    let o = rule.parse(input, st);
    if o.result is Ok {
        if st.index < o.state.index <= input.len() {
            lemma_many_onward(rule, input, o.state);
        } else {
            lemma_many_stays(rule, input, o.state);
        }
    }
}

/// The repetition after a first match goes onward too.
proof fn lemma_many_stays<R: Rule>(rule: &R, input: Seq<char>, st: ReaderState)
    requires
        st.fits(input),
        goes_onward(rule, input),
    ensures
        onward(st, many(rule, input, st).state, input),
    decreases input.len() - st.index,
{
    let o = rule.parse(input, st);
    if o.result is Ok && st.index < o.state.index <= input.len() {
        lemma_many_stays(rule, input, o.state);
    }
}

/// The number of bytes that `text` takes in UTF-8.
pub open spec fn utf8_len(text: Seq<char>) -> nat
    decreases text.len(),
{
    if text.len() == 0 {
        0
    } else {
        utf8_len(text.drop_last()) + width(text.last())
    }
}

/// The byte offset of a reader grows by the length in UTF-8 of what it
/// reads, and its index by the number of characters.
pub proof fn law_cursor_counts_bytes(st: ReaderState, input: Seq<char>, n: nat)
    requires
        st.fits(input),
        st.index + n <= input.len(),
    ensures
        st.walk(input, n).index == st.index + n,
        st.walk(input, n).cursor == st.cursor + utf8_len(
            input.subrange(st.index as int, st.index + n),
        ),
    decreases n,
{
    if n > 0 {
        let shorter = (n - 1) as nat;
        law_cursor_counts_bytes(st, input, shorter);
        lemma_walk_fits(st, input, shorter);
        lemma_step_fits(st.walk(input, shorter), input);
        let read = input.subrange(st.index as int, st.index + n);
        assert(read.drop_last() =~= input.subrange(st.index as int, st.index + shorter));
        assert(read.last() == input[st.index + shorter]);
        assert(utf8_len(read) <= 4 * n) by {
            lemma_utf8_len_bound(read);
        }
    } else {
        assert(input.subrange(st.index as int, st.index + 0) =~= Seq::<char>::empty());
    }
}

/// A character takes at most four bytes.
proof fn lemma_utf8_len_bound(text: Seq<char>)
    ensures
        utf8_len(text) <= 4 * text.len(),
    decreases text.len(),
{
    if text.len() > 0 {
        lemma_utf8_len_bound(text.drop_last());
    }
}

/// The text holds at `from + k` what the word it holds at `from` has at
/// `k`.
pub proof fn lemma_looking_at_each(input: Seq<char>, from: int, word: Seq<char>)
    requires
        looking_at(input, from, word),
    ensures
        forall|k: int| 0 <= k < word.len() ==> input[from + k] == #[trigger] word[k],
{
    assert forall|k: int| 0 <= k < word.len() implies input[from + k] == #[trigger] word[k] by {
        assert(input.subrange(from, from + word.len())[k] == word[k]);
    }
}

/// A word of one character that stands in the text is read, and one
/// character is passed.
pub proof fn lemma_literal_of_one(word: Seq<char>, input: Seq<char>, st: ReaderState)
    requires
        st.fits(input),
        word.len() == 1,
        st.index < input.len(),
        input[st.index as int] == word[0],
    ensures
        spec_literal(word, input, st) == done((), st.walk(input, 1)),
{
    let from = st.index as int;
    assert(input.subrange(from, from + 1) =~= word);
    lemma_looking_at(word, input, from);
}

/// An outcome of a rule that, if it is a recoverable failure, leaves the
/// reader at `st`, where the rule found it.
pub open spec fn gives_way_unmoved<T>(o: Outcome<T>, st: ReaderState) -> bool {
    o.result is Err && o.result->Err_0.recoverable ==> o.state == st
}

/// The smallest rules leave the reader where it was when they give way to
/// another rule, and the rules that must match never give way.
pub proof fn law_small_rules_give_way_unmoved(s1: Seq<char>, s2: Seq<char>, input: Seq<char>, st: ReaderState)
    ensures
        gives_way_unmoved(spec_try_literal(s1, input, st), st),
        gives_way_unmoved(spec_try_literals(s1, s2, input, st), st),
        gives_way_unmoved(spec_hex_digit(input, st), st),
        spec_literal(s1, input, st).result is Err ==> !spec_literal(s1, input, st).result->Err_0.recoverable,
        spec_zero_or_more_spaces(input, st).result is Ok,
        spec_one_or_more_spaces(input, st).result is Err ==> !spec_one_or_more_spaces(
            input,
            st,
        ).result->Err_0.recoverable,
{
}

/// A repetition that must match at least once fails fatally or not at all.
pub proof fn lemma_at_least_one_fails_fatally<R: Rule>(rule: &R, input: Seq<char>, st: ReaderState)
    ensures
        at_least_one(rule, input, st).result is Err ==> !at_least_one(rule, input, st).result->Err_0.recoverable,
{
    let o = rule.parse(input, st);
    if o.result is Ok {
        lemma_many_fails_fatally(rule, input, o.state);
    }
}

} // verus!
