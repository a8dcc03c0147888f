//! Laws of the predicates: the order of the table, the check of the value,
//! the notices.
use crate::ast::{PredicateFuncValueView, PredicateValueView, WhitespaceView};
use crate::combinators::{lemma_first_of_fatal, Rule};
use crate::error::{done, ErrorView, Notice, ParseErrorView};
use crate::laws::combinators::{
    gives_way_unmoved, law_choice_first_decides, lemma_many_fails_fatally,
};
use crate::laws::templates::law_strings_give_way_unmoved;
use crate::predicate::{
    no_blanks, precedence, spec_operand, spec_predicate, spec_predicate_func_value,
    spec_predicate_not, spec_predicate_of, PredicateKind,
};
use crate::predicate_value::{
    lemma_value_fatal, lemma_value_quiet, spec_base64, spec_boolean, spec_float, spec_hex,
    spec_integer, spec_null, spec_predicate_value, spec_regex, spec_value_of, ValueKind,
};
use crate::primitives::{
    blank, is_blank, looking_at, past_blanks, spec_literal, spec_one_or_more_spaces,
    spec_try_literal, spec_try_literals, spec_zero_or_more_spaces, HexDigit,
};
use crate::reader::{lemma_walk_fits, run_len, ReaderState};
use crate::string::StringKind;
use vstd::prelude::*;

verus! {

/// A value that a predicate cannot take is refused at the place where the
/// value begins, fatally; a value that it can take gives the node. Nothing
/// else comes of a value that was read.
pub proof fn law_value_checked_where_it_begins(
    kind: PredicateKind,
    operator: bool,
    space0: WhitespaceView,
    after_blanks: ReaderState,
    input: Seq<char>,
)
    requires
        spec_predicate_value(input, after_blanks).result is Ok,
    ensures
        ({
            let v = spec_predicate_value(input, after_blanks).result->Ok_0;
            let o = spec_operand(kind, operator, done(space0, after_blanks), input);
            &&& kind.accepts(v) ==> o.result == Ok::<PredicateFuncValueView, ErrorView>(
                kind.node(space0, v, operator),
            )
            &&& !kind.accepts(v) ==> o.result == Err::<PredicateFuncValueView, ErrorView>(
                ErrorView {
                    pos: after_blanks.pos,
                    recoverable: false,
                    inner: ParseErrorView::PredicateValue,
                },
            )
        }),
{
}

/// `matches` takes every regular expression, and no ordering does.
pub proof fn law_regex_only_for_matches(v: PredicateValueView)
    requires
        v is Regex,
    ensures
        PredicateKind::Match.accepts(v),
        !PredicateKind::GreaterThan.accepts(v),
        !PredicateKind::GreaterThanOrEqual.accepts(v),
        !PredicateKind::LessThan.accepts(v),
        !PredicateKind::LessThanOrEqual.accepts(v),
{
}

/// `not` without a blank after it is no negation: nothing is read.
pub proof fn law_not_needs_blank(input: Seq<char>, st: ReaderState)
    requires
        st.fits(input),
        looking_at(input, st.index as int, "not"@),
        st.index + 3 >= input.len() || !is_blank(input[st.index + 3]),
    ensures
        spec_predicate_not(input, st) == done((false, no_blanks(st.pos)), st),
{
    reveal_strlit("not");
    lemma_walk_fits(st, input, 3);
    let after = st.walk(input, 3);
    assert(after.index == st.index + 3);
    if after.index < input.len() {
        assert(!blank()(input[after.index as int]));
    }
    assert(run_len(input, after.index as int, blank()) == 0);
}

/// Once the word or the symbol of a predicate has been read, the predicate
/// succeeds or fails fatally: no other predicate is tried in its place.
pub proof fn law_committed_after_keyword(kind: PredicateKind, input: Seq<char>, st: ReaderState)
    requires
        looking_at(input, st.index as int, kind.word()) || (kind.symbol() is Some && looking_at(
            input,
            st.index as int,
            kind.symbol()->Some_0,
        )),
    ensures
        spec_predicate_of(kind, input, st).result is Err ==> !spec_predicate_of(
            kind,
            input,
            st,
        ).result->Err_0.recoverable,
{
    let found = spec_try_literals(kind.word(), kind.symbol()->Some_0, input, st);
    let word = spec_try_literal(kind.word(), input, st);
    lemma_value_fatal(input, spec_zero_or_more_spaces(input, found.state).state);
    lemma_value_fatal(input, spec_one_or_more_spaces(input, found.state).state);
    lemma_value_fatal(input, spec_one_or_more_spaces(input, word.state).state);
}

/// A predicate whose word and symbol both begin with another character
/// than the text does fails recoverably, and the reader has not moved.
pub proof fn lemma_other_first_character(kind: PredicateKind, input: Seq<char>, st: ReaderState)
    requires
        kind.word().len() > 0,
        st.index >= input.len() || input[st.index as int] != kind.word()[0],
        kind.symbol() is Some ==> kind.symbol()->Some_0.len() > 0 && (st.index >= input.len()
            || input[st.index as int] != kind.symbol()->Some_0[0]),
    ensures
        spec_predicate_of(kind, input, st).result is Err,
        spec_predicate_of(kind, input, st).result->Err_0.recoverable,
        spec_predicate_of(kind, input, st).state == st,
{
    if looking_at(input, st.index as int, kind.word()) {
        assert(input.subrange(st.index as int, st.index + kind.word().len())[0] == kind.word()[0]);
    }
    if kind.symbol() is Some {
        let symbol = kind.symbol()->Some_0;
        if looking_at(input, st.index as int, symbol) {
            assert(input.subrange(st.index as int, st.index + symbol.len())[0] == symbol[0]);
        }
    }
}

/// Where the text holds `greaterThanOrEquals` or `>=`, the predicate
/// function is what the rule of `GreaterThanOrEqual` makes of it, never
/// `GreaterThan` with the rest left unread; and likewise for
/// `lessThanOrEquals` and `<=`.
pub proof fn law_or_equal_comes_first(kind: PredicateKind, input: Seq<char>, st: ReaderState)
    requires
        kind == PredicateKind::GreaterThanOrEqual || kind == PredicateKind::LessThanOrEqual,
        looking_at(input, st.index as int, kind.word()) || looking_at(
            input,
            st.index as int,
            kind.symbol()->Some_0,
        ),
    ensures
        spec_predicate_func_value(input, st).result == spec_predicate_of(kind, input, st).result,
        spec_predicate_func_value(input, st).state == spec_predicate_of(kind, input, st).state,
        !(spec_predicate_func_value(input, st).result is Ok && (spec_predicate_func_value(
            input,
            st,
        ).result->Ok_0 is GreaterThan || spec_predicate_func_value(input, st).result->Ok_0 is LessThan)),
{
    reveal_strlit("equals");
    reveal_strlit("==");
    reveal_strlit("notEquals");
    reveal_strlit("!=");
    reveal_strlit("greaterThanOrEquals");
    reveal_strlit(">=");
    reveal_strlit("greaterThan");
    reveal_strlit(">");
    reveal_strlit("lessThanOrEquals");
    reveal_strlit("<=");
    let first = input[st.index as int];
    if looking_at(input, st.index as int, kind.word()) {
        assert(input.subrange(st.index as int, st.index + kind.word().len())[0] == kind.word()[0]);
    } else {
        let symbol = kind.symbol()->Some_0;
        assert(input.subrange(st.index as int, st.index + symbol.len())[0] == symbol[0]);
    }
    let k: int = if kind == PredicateKind::GreaterThanOrEqual { 2 } else { 4 };
    let rules = precedence();
    assert(rules[k] == kind);
    assert forall|i: int| 0 <= i < k implies (#[trigger] rules[i].parse(input, st)).result is Err
        && rules[i].parse(input, st).result->Err_0.recoverable by {
        lemma_other_first_character(rules[i], input, st);
    }
    law_committed_after_keyword(kind, input, st);
    law_choice_first_decides(rules, k, input, st, ParseErrorView::Predicate);
}

/// A predicate fails fatally or not at all, and so does a predicate
/// function: where no predicate stands, no other reading of the text is
/// tried.
pub proof fn law_predicate_fails_fatally(input: Seq<char>, st: ReaderState)
    ensures
        spec_predicate_func_value(input, st).result is Err ==> !spec_predicate_func_value(
            input,
            st,
        ).result->Err_0.recoverable,
        spec_predicate(input, st).result is Err ==> !spec_predicate(input, st).result->Err_0.recoverable,
{
    lemma_first_of_fatal(precedence(), 0, input, st, ParseErrorView::Predicate);
    lemma_first_of_fatal(precedence(), 0, input, spec_predicate_not(input, st).state, ParseErrorView::Predicate);
}

/// Whether the node of a comparison says that it was written with its
/// symbol.
pub open spec fn written_with_symbol(node: PredicateFuncValueView) -> bool {
    match node {
        PredicateFuncValueView::Equal { operator, .. } => operator,
        PredicateFuncValueView::NotEqual { operator, .. } => operator,
        PredicateFuncValueView::GreaterThan { operator, .. } => operator,
        PredicateFuncValueView::GreaterThanOrEqual { operator, .. } => operator,
        PredicateFuncValueView::LessThan { operator, .. } => operator,
        PredicateFuncValueView::LessThanOrEqual { operator, .. } => operator,
        _ => false,
    }
}

/// A comparison emits its notice exactly when it is written with its word,
/// and then says so in its node; written with its symbol it emits nothing.
/// The other predicates emit nothing.
pub proof fn law_notice_for_the_word_only(kind: PredicateKind, input: Seq<char>, st: ReaderState)
    ensures
        ({
            let o = spec_predicate_of(kind, input, st);
            let word = kind.symbol() is Some && looking_at(input, st.index as int, kind.word());
            &&& word ==> o.notices == seq![kind.notice()]
            &&& !word ==> o.notices == Seq::<Notice>::empty()
            &&& o.result is Ok && kind.symbol() is Some ==> written_with_symbol(o.result->Ok_0) == !word
        }),
{
    reveal_strlit("equals");
    reveal_strlit("==");
    reveal_strlit("notEquals");
    reveal_strlit("!=");
    reveal_strlit("greaterThanOrEquals");
    reveal_strlit(">=");
    reveal_strlit("greaterThan");
    reveal_strlit(">");
    reveal_strlit("lessThanOrEquals");
    reveal_strlit("<=");
    reveal_strlit("lessThan");
    reveal_strlit("<");
    lemma_value_quiet(input);
    let o = spec_predicate_of(kind, input, st);
    if kind.symbol() is Some {
        let symbol = kind.symbol()->Some_0;
        assert(kind.word().len() != symbol.len());
        if looking_at(input, st.index as int, kind.word()) {
            assert(o.notices =~= seq![kind.notice()]);
        }
    }
}

/// Bytes in hexadecimal leave the reader where it was when they give way
/// to another rule.
pub proof fn lemma_hex_gives_way_unmoved(input: Seq<char>, st: ReaderState)
    ensures
        gives_way_unmoved(spec_hex(input, st), st),
{
    let comma = spec_literal(","@, input, spec_try_literal("hex"@, input, st).state);
    lemma_many_fails_fatally(&HexDigit, input, past_blanks(input, comma.state));
}

/// The numbers leave the reader where it was when they give way to another
/// rule.
pub proof fn lemma_numbers_give_way_unmoved(input: Seq<char>, st: ReaderState)
    ensures
        gives_way_unmoved(spec_float(input, st), st),
        gives_way_unmoved(spec_integer(input, st), st),
{
}

/// `null`, the booleans, bytes in base 64 and regular expressions leave the
/// reader where it was when they give way to another rule.
pub proof fn lemma_words_give_way_unmoved(input: Seq<char>, st: ReaderState)
    ensures
        gives_way_unmoved(spec_null(input, st), st),
        gives_way_unmoved(spec_boolean(input, st), st),
        gives_way_unmoved(spec_base64(input, st), st),
        gives_way_unmoved(spec_regex(input, st), st),
{
}

/// Every rule of a value leaves the reader where it was when it gives way
/// to another rule, and a value as a whole never gives way.
pub proof fn law_values_give_way_unmoved(value: ValueKind, input: Seq<char>, st: ReaderState)
    ensures
        gives_way_unmoved(spec_value_of(value, input, st), st),
        spec_predicate_value(input, st).result is Err ==> !spec_predicate_value(input, st).result->Err_0.recoverable,
{
    lemma_value_fatal(input, st);
    match value {
        ValueKind::Hex => {
            lemma_hex_gives_way_unmoved(input, st);
        },
        ValueKind::Float | ValueKind::Integer => {
            lemma_numbers_give_way_unmoved(input, st);
        },
        ValueKind::Quoted => {
            law_strings_give_way_unmoved(StringKind::Quoted, input, st);
        },
        ValueKind::Backtick => {
            law_strings_give_way_unmoved(StringKind::Backtick, input, st);
        },
        ValueKind::Expression => {
            law_strings_give_way_unmoved(StringKind::Quoted, input, st);
        },
        _ => {
            lemma_words_give_way_unmoved(input, st);
        },
    }
}

/// Every rule of a predicate leaves the reader where it was when it gives
/// way to another rule.
pub proof fn law_predicates_give_way_unmoved(kind: PredicateKind, input: Seq<char>, st: ReaderState)
    ensures
        gives_way_unmoved(spec_predicate_of(kind, input, st), st),
{
    if looking_at(input, st.index as int, kind.word()) || (kind.symbol() is Some && looking_at(
        input,
        st.index as int,
        kind.symbol()->Some_0,
    )) {
        law_committed_after_keyword(kind, input, st);
    }
}

} // verus!
