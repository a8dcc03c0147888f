//! Rules, and the ways to combine them: repetition and ordered choice.
use crate::error::{never_gives_way, Error, ErrorView, Notice, Outcome, ParseError, ParseErrorView};
use crate::laws::combinators::lemma_many_fails_fatally;
use crate::reader::{Reader, ReaderState};
use vstd::prelude::*;

verus! {

/// A grammar rule: a function from a text and a state to an outcome, and the
/// code that runs it on a reader. A rule that fails recoverably leaves the
/// reader where it found it; after a fatal failure the reader stays where the
/// rule stopped.
pub trait Rule {
    type Output: DeepView;

    /// What the rule does on `input` from `st`.
    spec fn parse(&self, input: Seq<char>, st: ReaderState) -> Outcome<<Self::Output as DeepView>::V>;

    /// Runs the rule: the reader ends in the state of the outcome, which is
    /// the state it began in if the rule failed recoverably.
    fn apply(&self, reader: &mut Reader) -> (r: Result<Self::Output, Error>)
        requires
            old(reader).wf(),
        ensures
            final(reader).ran(*old(reader), r, self.parse(old(reader).input(), old(reader).state)),
    ;
}

/// Zero or more runs of `rule`, each from where the one before ended.
///
/// The repetition ends, with the state before the last attempt, when the rule
/// fails recoverably or matches without reading anything; a fatal failure
/// is the outcome of the whole. Notices of every attempt are kept.
pub open spec fn many<R: Rule>(rule: &R, input: Seq<char>, st: ReaderState) -> Outcome<
    Seq<<R::Output as DeepView>::V>,
>
    decreases input.len() - st.index,
{
    let o = rule.parse(input, st);
    match o.result {
        Err(e) => if e.recoverable {
            Outcome { result: Ok(Seq::empty()), state: st, notices: o.notices }
        } else {
            Outcome { result: Err(e), state: o.state, notices: o.notices }
        },
        Ok(v) => if st.index < o.state.index <= input.len() {
            let rest = many(rule, input, o.state);
            Outcome {
                result: match rest.result {
                    Ok(vs) => Ok(seq![v] + vs),
                    Err(e) => Err(e),
                },
                state: rest.state,
                notices: o.notices + rest.notices,
            }
        } else {
            Outcome { result: Ok(Seq::empty()), state: st, notices: o.notices }
        },
    }
}

/// A rule that emits no notice on `input`.
pub open spec fn quiet<R: Rule>(rule: &R, input: Seq<char>) -> bool {
    forall|st: ReaderState| (#[trigger] rule.parse(input, st)).notices == Seq::<Notice>::empty()
}

/// Repeating a rule that emits no notice emits none.
pub proof fn lemma_many_quiet<R: Rule>(rule: &R, input: Seq<char>, st: ReaderState)
    requires
        quiet(rule, input),
    ensures
        many(rule, input, st).notices == Seq::<Notice>::empty(),
    decreases input.len() - st.index,
{
    let o = rule.parse(input, st);
    if o.result is Ok && st.index < o.state.index <= input.len() {
        lemma_many_quiet(rule, input, o.state);
        assert(many(rule, input, st).notices =~= Seq::<Notice>::empty());
    }
}

/// Repeating a rule that emits no notice at least once emits none.
pub proof fn lemma_at_least_one_quiet<R: Rule>(rule: &R, input: Seq<char>, st: ReaderState)
    requires
        quiet(rule, input),
    ensures
        at_least_one(rule, input, st).notices == Seq::<Notice>::empty(),
{
    let o = rule.parse(input, st);
    if o.result is Ok {
        lemma_many_quiet(rule, input, o.state);
        assert(at_least_one(rule, input, st).notices =~= Seq::<Notice>::empty());
    }
}

/// A choice among rules that emit no notice emits none.
pub proof fn lemma_first_of_quiet<R: Rule>(
    rules: Seq<R>,
    from: int,
    input: Seq<char>,
    st: ReaderState,
    exhausted: ParseErrorView,
)
    requires
        forall|i: int| 0 <= i < rules.len() ==> quiet(&#[trigger] rules[i], input),
    ensures
        first_of(rules, from, input, st, exhausted).notices == Seq::<Notice>::empty(),
    decreases rules.len() - from,
{
    if 0 <= from < rules.len() {
        lemma_first_of_quiet(rules, from + 1, input, st, exhausted);
        assert(quiet(&rules[from], input));
        assert(first_of(rules, from, input, st, exhausted).notices =~= Seq::<Notice>::empty());
    }
}

/// A choice never fails recoverably: the failure of a choice is a fatal
/// failure of one of its rules, or the fatal failure that says none matched.
pub proof fn lemma_first_of_fatal<R: Rule>(
    rules: Seq<R>,
    from: int,
    input: Seq<char>,
    st: ReaderState,
    exhausted: ParseErrorView,
)
    ensures
        first_of(rules, from, input, st, exhausted).result is Err ==> !first_of(
            rules,
            from,
            input,
            st,
            exhausted,
        ).result->Err_0.recoverable,
    decreases rules.len() - from,
{
    if 0 <= from < rules.len() {
        lemma_first_of_fatal(rules, from + 1, input, st, exhausted);
    }
}

/// `o`, with `items` before its items and `notices` before its notices.
pub open spec fn after<V>(items: Seq<V>, notices: Seq<Notice>, o: Outcome<Seq<V>>) -> Outcome<Seq<V>> {
    Outcome {
        result: match o.result {
            Ok(vs) => Ok(items + vs),
            Err(e) => Err(e),
        },
        state: o.state,
        notices: notices + o.notices,
    }
}

/// One run of `rule`, which must succeed, then zero or more: a failure of the
/// first run is fatal, whatever the rule said.
pub open spec fn at_least_one<R: Rule>(rule: &R, input: Seq<char>, st: ReaderState) -> Outcome<
    Seq<<R::Output as DeepView>::V>,
> {
    let o = rule.parse(input, st);
    match o.result {
        Err(e) => Outcome {
            result: Err(ErrorView { pos: e.pos, recoverable: false, inner: e.inner }),
            state: o.state,
            notices: o.notices,
        },
        Ok(v) => after(seq![v], o.notices, many(rule, input, o.state)),
    }
}

/// Ordered choice among `rules[from..]`: the first rule that succeeds or
/// fails fatally decides; after a recoverable failure the next rule is tried
/// from `st` again. When none is left, the outcome is a fatal failure at
/// `st`, of kind `exhausted`, with the reader at `st`.
pub open spec fn first_of<R: Rule>(
    rules: Seq<R>,
    from: int,
    input: Seq<char>,
    st: ReaderState,
    exhausted: ParseErrorView,
) -> Outcome<<R::Output as DeepView>::V>
    decreases rules.len() - from,
{
    if 0 <= from < rules.len() {
        let o = rules[from].parse(input, st);
        if o.result is Err && o.result->Err_0.recoverable {
            let rest = first_of(rules, from + 1, input, st, exhausted);
            Outcome { result: rest.result, state: rest.state, notices: o.notices + rest.notices }
        } else {
            o
        }
    } else {
        Outcome {
            result: Err(ErrorView { pos: st.pos, recoverable: false, inner: exhausted }),
            state: st,
            notices: Seq::empty(),
        }
    }
}

/// Applies `rule` as often as it matches and returns the matches in order.
pub fn zero_or_more<R: Rule>(rule: &R, reader: &mut Reader) -> (r: Result<Vec<R::Output>, Error>)
    requires
        old(reader).wf(),
    ensures
        final(reader).ran(*old(reader), r, many(rule, old(reader).input(), old(reader).state)),
        never_gives_way(r),
{
    let v: Vec<R::Output> = Vec::new();
    assert(v.deep_view() =~= Seq::empty());
    assert(reader.notices@ =~= old(reader).notices@ + Seq::<Notice>::empty());
    repeat(rule, reader, v, Ghost(*old(reader)), Ghost(Seq::empty()))
}

/// Applies `rule` once, then as often as it matches; fails fatally if the
/// first application fails.
pub fn one_or_more<R: Rule>(rule: &R, reader: &mut Reader) -> (r: Result<Vec<R::Output>, Error>)
    requires
        old(reader).wf(),
    ensures
        final(reader).ran(
            *old(reader),
            r,
            at_least_one(rule, old(reader).input(), old(reader).state),
        ),
        never_gives_way(r),
{
    match rule.apply(reader) {
        Err(e) => Err(Error { pos: e.pos, recoverable: false, inner: e.inner }),
        Ok(first) => {
            let ghost first_notices = rule.parse(old(reader).input(), old(reader).state).notices;
            let mut v: Vec<R::Output> = Vec::new();
            v.push(first);
            assert(v.deep_view() =~= seq![first.deep_view()]);
            repeat(rule, reader, v, Ghost(*old(reader)), Ghost(first_notices))
        },
    }
}

/// The loop that both repetitions share: `items` holds what was matched so
/// far and `emitted` the notices since `origin`.
fn repeat<R: Rule>(
    rule: &R,
    reader: &mut Reader,
    items: Vec<R::Output>,
    Ghost(origin): Ghost<Reader>,
    Ghost(emitted): Ghost<Seq<Notice>>,
) -> (r: Result<Vec<R::Output>, Error>)
    requires
        old(reader).wf(),
        old(reader).buffer@ == origin.buffer@,
        old(reader).notices@ == origin.notices@ + emitted,
        origin.state.index <= old(reader).state.index,
        origin.state.pos.le(old(reader).state.pos),
    ensures
        final(reader).ran(
            origin,
            r,
            after(items.deep_view(), emitted, many(rule, old(reader).input(), old(reader).state)),
        ),
        never_gives_way(r),
{
    let mut v = items;
    let ghost input = reader.buffer@;
    proof {
        lemma_many_fails_fatally(rule, input, reader.state);
    }
    let ghost mut seen = emitted;
    let ghost goal = after(items.deep_view(), emitted, many(rule, input, reader.state));
    loop
        invariant
            reader.wf(),
            reader.buffer@ == input,
            input == origin.buffer@,
            input == old(reader).buffer@,
            origin.state.index <= reader.state.index,
            origin.state.pos.le(reader.state.pos),
            reader.notices@ == origin.notices@ + seen,
            goal == after(items.deep_view(), emitted, many(rule, input, old(reader).state)),
            goal == after(v.deep_view(), seen, many(rule, input, reader.state)),
        decreases input.len() - reader.state.index,
    {
        let before = reader.snapshot();
        let ghost o = rule.parse(input, before);
        let ghost prev = v.deep_view();
        match rule.apply(reader) {
            Err(e) => {
                assert(origin.notices@ + seen + o.notices =~= origin.notices@ + (seen + o.notices));
                if e.recoverable {
                    reader.restore(before);
                    assert(prev + Seq::empty() =~= prev);
                    return Ok(v);
                } else {
                    return Err(e);
                }
            },
            Ok(item) => {
                assert(origin.notices@ + seen + o.notices =~= origin.notices@ + (seen + o.notices));
                if reader.state.index <= before.index {
                    reader.restore(before);
                    assert(prev + Seq::empty() =~= prev);
                    return Ok(v);
                }
                v.push(item);
                proof {
                    let rest = many(rule, input, reader.state);
                    assert(v.deep_view() =~= prev.push(item.deep_view()));
                    assert forall|vs: Seq<<R::Output as DeepView>::V>|
                        prev + (seq![item.deep_view()] + vs) == #[trigger] (v.deep_view() + vs) by {
                        assert(prev + (seq![item.deep_view()] + vs) =~= v.deep_view() + vs);
                    }
                    assert(seen + (o.notices + rest.notices) =~= (seen + o.notices) + rest.notices);
                    seen = seen + o.notices;
                }
            },
        }
    }
}

/// Tries `rules` in order from the reader's state and returns the first
/// result that is a success or a fatal failure. If every rule fails
/// recoverably, or there is none, the reader is back where it started and the
/// failure is fatal, of kind `exhausted`, at the starting position: what each
/// rule had expected is not kept.
pub fn choice<R: Rule>(rules: &[R], reader: &mut Reader, exhausted: ParseError) -> (r: Result<
    R::Output,
    Error,
>)
    requires
        old(reader).wf(),
    ensures
        final(reader).ran(
            *old(reader),
            r,
            first_of(rules@, 0, old(reader).input(), old(reader).state, exhausted.deep_view()),
        ),
        never_gives_way(r),
{
    let start = reader.snapshot();
    let ghost input = reader.buffer@;
    proof {
        lemma_first_of_fatal(rules@, 0, input, start, exhausted.deep_view());
    }
    let ghost mut seen: Seq<Notice> = Seq::empty();
    let ghost goal = first_of(rules@, 0, input, start, exhausted.deep_view());
    let mut i: usize = 0;
    assert(reader.notices@ =~= old(reader).notices@ + seen);
    while i < rules.len()
        invariant
            i <= rules.len(),
            reader.wf(),
            reader.buffer@ == input,
            input == old(reader).buffer@,
            reader.state == start,
            start == old(reader).state,
            reader.notices@ == old(reader).notices@ + seen,
            goal == first_of(rules@, 0, input, start, exhausted.deep_view()),
            goal.result == first_of(rules@, i as int, input, start, exhausted.deep_view()).result,
            goal.state == first_of(rules@, i as int, input, start, exhausted.deep_view()).state,
            goal.notices == seen + first_of(rules@, i as int, input, start, exhausted.deep_view()).notices,
        decreases rules.len() - i,
    {
        let ghost o = rules@[i as int].parse(input, start);
        let ghost rest = first_of(rules@, i + 1, input, start, exhausted.deep_view());
        assert(old(reader).notices@ + seen + o.notices =~= old(reader).notices@ + (seen + o.notices));
        assert(seen + (o.notices + rest.notices) =~= (seen + o.notices) + rest.notices);
        match rules[i].apply(reader) {
            Err(e) => {
                if e.recoverable {
                    reader.restore(start);
                    proof {
                        seen = seen + o.notices;
                    }
                } else {
                    return Err(e);
                }
            },
            Ok(v) => {
                return Ok(v);
            },
        }
        i = i + 1;
    }
    assert(seen + Seq::<Notice>::empty() =~= seen);
    Err(Error { pos: start.pos, recoverable: false, inner: exhausted })
}

} // verus!
