//! Assertion predicates: an optional `not`, a predicate function, and the
//! value it compares with.
use crate::ast::{
    Pos, Predicate, PredicateFunc, PredicateFuncValue, PredicateFuncValueView, PredicateFuncView,
    PredicateValue, PredicateValueView, PredicateView, SourceInfo, Whitespace, WhitespaceView,
};
use crate::combinators::{choice, first_of, Rule};
use crate::error::{
    done, model, never_gives_way, Error, ErrorView, Notice, Outcome, ParseError, ParseErrorView,
    ParseResult,
};
use crate::predicate_value::{lemma_value_quiet, predicate_value, spec_predicate_value};
use crate::primitives::{
    one_or_more_spaces, spec_one_or_more_spaces, spec_try_literal, spec_try_literals,
    spec_zero_or_more_spaces, try_literal, try_literals, zero_or_more_spaces,
};
use crate::reader::{Reader, ReaderState};
use crate::string::carry;
use vstd::prelude::*;

verus! {

impl PredicateValue {
    /// The value is an integer or a float.
    pub fn is_number(&self) -> (b: bool)
        ensures
            b == self.deep_view().is_number(),
    {
        matches!(self, PredicateValue::Integer(_) | PredicateValue::Float(_))
    }

    /// The value is a template.
    pub fn is_string(&self) -> (b: bool)
        ensures
            b == self.deep_view().is_string(),
    {
        matches!(self, PredicateValue::String(_))
    }

    /// The value is bytes, written in hexadecimal or in base 64.
    pub fn is_bytearray(&self) -> (b: bool)
        ensures
            b == self.deep_view().is_bytearray(),
    {
        matches!(self, PredicateValue::Hex(_) | PredicateValue::Base64(_))
    }

    /// The value is an interpolated expression.
    pub fn is_expression(&self) -> (b: bool)
        ensures
            b == self.deep_view().is_expression(),
    {
        matches!(self, PredicateValue::Expression(_))
    }
}

/// The predicate functions.
#[derive(Clone, Copy, Debug, PartialEq, Eq, Structural)]
pub enum PredicateKind {
    Equal,
    NotEqual,
    GreaterThanOrEqual,
    GreaterThan,
    LessThanOrEqual,
    LessThan,
    StartWith,
    EndWith,
    Contain,
    Include,
    Match,
    IsInteger,
    IsFloat,
    IsBoolean,
    IsString,
    IsCollection,
    IsDate,
    Exist,
    IsEmpty,
}

impl PredicateKind {
    /// The word that the predicate is written with. For a comparison it is
    /// the old spelling, which the symbol replaces.
    pub open spec fn word(self) -> Seq<char> {
        match self {
            PredicateKind::Equal => "equals"@,
            PredicateKind::NotEqual => "notEquals"@,
            PredicateKind::GreaterThanOrEqual => "greaterThanOrEquals"@,
            PredicateKind::GreaterThan => "greaterThan"@,
            PredicateKind::LessThanOrEqual => "lessThanOrEquals"@,
            PredicateKind::LessThan => "lessThan"@,
            PredicateKind::StartWith => "startsWith"@,
            PredicateKind::EndWith => "endsWith"@,
            PredicateKind::Contain => "contains"@,
            PredicateKind::Include => "includes"@,
            PredicateKind::Match => "matches"@,
            PredicateKind::IsInteger => "isInteger"@,
            PredicateKind::IsFloat => "isFloat"@,
            PredicateKind::IsBoolean => "isBoolean"@,
            PredicateKind::IsString => "isString"@,
            PredicateKind::IsCollection => "isCollection"@,
            PredicateKind::IsDate => "isDate"@,
            PredicateKind::Exist => "exists"@,
            PredicateKind::IsEmpty => "isEmpty"@,
        }
    }

    /// The symbol of a comparison; `None` for the other predicates.
    pub open spec fn symbol(self) -> Option<Seq<char>> {
        match self {
            PredicateKind::Equal => Some("=="@),
            PredicateKind::NotEqual => Some("!="@),
            PredicateKind::GreaterThanOrEqual => Some(">="@),
            PredicateKind::GreaterThan => Some(">"@),
            PredicateKind::LessThanOrEqual => Some("<="@),
            PredicateKind::LessThan => Some("<"@),
            _ => None,
        }
    }

    /// The notice that the old spelling of a comparison brings.
    pub open spec fn notice(self) -> Notice {
        match self {
            PredicateKind::NotEqual => Notice::NotEquals,
            PredicateKind::GreaterThanOrEqual => Notice::GreaterThanOrEquals,
            PredicateKind::GreaterThan => Notice::GreaterThan,
            PredicateKind::LessThanOrEqual => Notice::LessThanOrEquals,
            PredicateKind::LessThan => Notice::LessThan,
            _ => Notice::Equals,
        }
    }

    /// The predicate takes a value.
    pub open spec fn takes_value(self) -> bool {
        match self {
            PredicateKind::Equal
            | PredicateKind::NotEqual
            | PredicateKind::GreaterThanOrEqual
            | PredicateKind::GreaterThan
            | PredicateKind::LessThanOrEqual
            | PredicateKind::LessThan
            | PredicateKind::StartWith
            | PredicateKind::EndWith
            | PredicateKind::Contain
            | PredicateKind::Include
            | PredicateKind::Match => true,
            _ => false,
        }
    }

    /// The kinds of value that the predicate can be given: an ordering
    /// compares numbers, strings and expressions; `startsWith`, `endsWith`
    /// and `contains` take strings and bytes; `matches` takes a string or a
    /// regular expression; the others take anything.
    pub open spec fn accepts(self, v: PredicateValueView) -> bool {
        match self {
            PredicateKind::GreaterThanOrEqual
            | PredicateKind::GreaterThan
            | PredicateKind::LessThanOrEqual
            | PredicateKind::LessThan => v.is_number() || v.is_string() || v.is_expression(),
            PredicateKind::StartWith | PredicateKind::EndWith | PredicateKind::Contain => v.is_string()
                || v.is_bytearray(),
            PredicateKind::Match => v is String || v is Regex,
            _ => true,
        }
    }

    /// The node of the predicate, with the blanks before its value, the
    /// value, and whether it was written with its symbol.
    pub open spec fn node(self, space0: WhitespaceView, value: PredicateValueView, operator: bool) -> PredicateFuncValueView {
        match self {
            PredicateKind::Equal => PredicateFuncValueView::Equal { space0, value, operator },
            PredicateKind::NotEqual => PredicateFuncValueView::NotEqual { space0, value, operator },
            PredicateKind::GreaterThanOrEqual => PredicateFuncValueView::GreaterThanOrEqual {
                space0,
                value,
                operator,
            },
            PredicateKind::GreaterThan => PredicateFuncValueView::GreaterThan { space0, value, operator },
            PredicateKind::LessThanOrEqual => PredicateFuncValueView::LessThanOrEqual {
                space0,
                value,
                operator,
            },
            PredicateKind::LessThan => PredicateFuncValueView::LessThan { space0, value, operator },
            PredicateKind::StartWith => PredicateFuncValueView::StartWith { space0, value },
            PredicateKind::EndWith => PredicateFuncValueView::EndWith { space0, value },
            PredicateKind::Contain => PredicateFuncValueView::Contain { space0, value },
            PredicateKind::Include => PredicateFuncValueView::Include { space0, value },
            PredicateKind::Match => PredicateFuncValueView::Match { space0, value },
            PredicateKind::IsInteger => PredicateFuncValueView::IsInteger,
            PredicateKind::IsFloat => PredicateFuncValueView::IsFloat,
            PredicateKind::IsBoolean => PredicateFuncValueView::IsBoolean,
            PredicateKind::IsString => PredicateFuncValueView::IsString,
            PredicateKind::IsCollection => PredicateFuncValueView::IsCollection,
            PredicateKind::IsDate => PredicateFuncValueView::IsDate,
            PredicateKind::Exist => PredicateFuncValueView::Exist,
            PredicateKind::IsEmpty => PredicateFuncValueView::IsEmpty,
        }
    }

    /// The node of a predicate that takes no value.
    pub open spec fn plain(self) -> PredicateFuncValueView {
        match self {
            PredicateKind::IsInteger => PredicateFuncValueView::IsInteger,
            PredicateKind::IsFloat => PredicateFuncValueView::IsFloat,
            PredicateKind::IsBoolean => PredicateFuncValueView::IsBoolean,
            PredicateKind::IsString => PredicateFuncValueView::IsString,
            PredicateKind::IsCollection => PredicateFuncValueView::IsCollection,
            PredicateKind::IsDate => PredicateFuncValueView::IsDate,
            PredicateKind::Exist => PredicateFuncValueView::Exist,
            _ => PredicateFuncValueView::IsEmpty,
        }
    }

    /// What the predicate makes of a value found at `at`: its node, or, if
    /// it cannot be given a value of that kind, a fatal failure at `at`.
    pub open spec fn checked(
        self,
        space0: WhitespaceView,
        value: PredicateValueView,
        operator: bool,
        at: Pos,
    ) -> Result<PredicateFuncValueView, ErrorView> {
        if self.accepts(value) {
            Ok(self.node(space0, value, operator))
        } else {
            Err(ErrorView { pos: at, recoverable: false, inner: ParseErrorView::PredicateValue })
        }
    }

    /// The word of the predicate.
    pub fn keyword(self) -> (s: &'static str)
        ensures
            s@ == self.word(),
    {
        match self {
            PredicateKind::Equal => "equals",
            PredicateKind::NotEqual => "notEquals",
            PredicateKind::GreaterThanOrEqual => "greaterThanOrEquals",
            PredicateKind::GreaterThan => "greaterThan",
            PredicateKind::LessThanOrEqual => "lessThanOrEquals",
            PredicateKind::LessThan => "lessThan",
            PredicateKind::StartWith => "startsWith",
            PredicateKind::EndWith => "endsWith",
            PredicateKind::Contain => "contains",
            PredicateKind::Include => "includes",
            PredicateKind::Match => "matches",
            PredicateKind::IsInteger => "isInteger",
            PredicateKind::IsFloat => "isFloat",
            PredicateKind::IsBoolean => "isBoolean",
            PredicateKind::IsString => "isString",
            PredicateKind::IsCollection => "isCollection",
            PredicateKind::IsDate => "isDate",
            PredicateKind::Exist => "exists",
            PredicateKind::IsEmpty => "isEmpty",
        }
    }

    /// The symbol of a comparison.
    pub fn operator(self) -> (s: Option<&'static str>)
        ensures
            s is Some <==> self.symbol() is Some,
            s is Some ==> s->Some_0@ == self.symbol()->Some_0,
    {
        match self {
            PredicateKind::Equal => Some("=="),
            PredicateKind::NotEqual => Some("!="),
            PredicateKind::GreaterThanOrEqual => Some(">="),
            PredicateKind::GreaterThan => Some(">"),
            PredicateKind::LessThanOrEqual => Some("<="),
            PredicateKind::LessThan => Some("<"),
            _ => None,
        }
    }

    /// The notice that the old spelling of a comparison brings.
    pub fn deprecation(self) -> (n: Notice)
        ensures
            n == self.notice(),
    {
        match self {
            PredicateKind::NotEqual => Notice::NotEquals,
            PredicateKind::GreaterThanOrEqual => Notice::GreaterThanOrEquals,
            PredicateKind::GreaterThan => Notice::GreaterThan,
            PredicateKind::LessThanOrEqual => Notice::LessThanOrEquals,
            PredicateKind::LessThan => Notice::LessThan,
            _ => Notice::Equals,
        }
    }

    /// Builds the node of the predicate for a value that was found at `at`,
    /// or refuses the value.
    pub fn with_value(self, space0: Whitespace, value: PredicateValue, operator: bool, at: Pos) -> (r:
        ParseResult<PredicateFuncValue>)
        ensures
            model(r) == self.checked(space0.deep_view(), value.deep_view(), operator, at),
    {
        let accepted = match self {
            PredicateKind::GreaterThanOrEqual
            | PredicateKind::GreaterThan
            | PredicateKind::LessThanOrEqual
            | PredicateKind::LessThan => value.is_number() || value.is_string() || value.is_expression(),
            PredicateKind::StartWith | PredicateKind::EndWith | PredicateKind::Contain => value.is_string()
                || value.is_bytearray(),
            PredicateKind::Match => matches!(value, PredicateValue::String(_)) || matches!(
                value,
                PredicateValue::Regex(_)
            ),
            _ => true,
        };
        if !accepted {
            return Err(Error { pos: at, recoverable: false, inner: ParseError::PredicateValue });
        }
        Ok(
            match self {
                PredicateKind::Equal => PredicateFuncValue::Equal { space0, value, operator },
                PredicateKind::NotEqual => PredicateFuncValue::NotEqual { space0, value, operator },
                PredicateKind::GreaterThanOrEqual => PredicateFuncValue::GreaterThanOrEqual {
                    space0,
                    value,
                    operator,
                },
                PredicateKind::GreaterThan => PredicateFuncValue::GreaterThan { space0, value, operator },
                PredicateKind::LessThanOrEqual => PredicateFuncValue::LessThanOrEqual {
                    space0,
                    value,
                    operator,
                },
                PredicateKind::LessThan => PredicateFuncValue::LessThan { space0, value, operator },
                PredicateKind::StartWith => PredicateFuncValue::StartWith { space0, value },
                PredicateKind::EndWith => PredicateFuncValue::EndWith { space0, value },
                PredicateKind::Contain => PredicateFuncValue::Contain { space0, value },
                PredicateKind::Include => PredicateFuncValue::Include { space0, value },
                PredicateKind::Match => PredicateFuncValue::Match { space0, value },
                PredicateKind::IsInteger => PredicateFuncValue::IsInteger,
                PredicateKind::IsFloat => PredicateFuncValue::IsFloat,
                PredicateKind::IsBoolean => PredicateFuncValue::IsBoolean,
                PredicateKind::IsString => PredicateFuncValue::IsString,
                PredicateKind::IsCollection => PredicateFuncValue::IsCollection,
                PredicateKind::IsDate => PredicateFuncValue::IsDate,
                PredicateKind::Exist => PredicateFuncValue::Exist,
                PredicateKind::IsEmpty => PredicateFuncValue::IsEmpty,
            },
        )
    }
}

/// The value of a predicate of kind `kind`, after the blanks `space` that
/// were read before it: the value is read and then checked against the
/// kind, at the place where the value begins. A failure of the blanks or of
/// the value is the failure of the whole.
pub open spec fn spec_operand(
    kind: PredicateKind,
    operator: bool,
    space: Outcome<WhitespaceView>,
    input: Seq<char>,
) -> Outcome<PredicateFuncValueView> {
    match space.result {
        Err(_) => carry(space),
        Ok(space0) => {
            let value = spec_predicate_value(input, space.state);
            match value.result {
                Err(_) => carry(value),
                Ok(v) => Outcome {
                    result: kind.checked(space0, v, operator, space.state.pos),
                    state: value.state,
                    notices: Seq::empty(),
                },
            }
        },
    }
}

/// `o`, with `notices` before its notices.
pub open spec fn noticed<T>(notices: Seq<Notice>, o: Outcome<T>) -> Outcome<T> {
    Outcome { result: o.result, state: o.state, notices: notices + o.notices }
}

/// The predicate function of kind `kind` that stands at `st`.
///
/// A comparison is written with its word or its symbol, the word tried
/// first. After the word at least one blank must follow, and a notice is
/// emitted; after the symbol blanks may follow. The other predicates with a
/// value are written with their word and at least one blank. The predicates
/// without a value are their word alone.
///
/// If neither word nor symbol stands at `st`, the failure is recoverable and
/// the reader has not moved. After them every failure is fatal.
pub open spec fn spec_predicate_of(kind: PredicateKind, input: Seq<char>, st: ReaderState) -> Outcome<
    PredicateFuncValueView,
> {
    match kind.symbol() {
        Some(symbol) => {
            let found = spec_try_literals(kind.word(), symbol, input, st);
            match found.result {
                Err(_) => carry(found),
                Ok(text) => if text == symbol {
                    spec_operand(kind, true, spec_zero_or_more_spaces(input, found.state), input)
                } else {
                    noticed(
                        seq![kind.notice()],
                        spec_operand(kind, false, spec_one_or_more_spaces(input, found.state), input),
                    )
                },
            }
        },
        None => {
            let word = spec_try_literal(kind.word(), input, st);
            if word.result is Err {
                carry(word)
            } else if kind.takes_value() {
                spec_operand(kind, false, spec_one_or_more_spaces(input, word.state), input)
            } else {
                done(kind.plain(), word.state)
            }
        },
    }
}

/// Reads the value of a predicate, after the blanks `space0`, and builds
/// the node.
fn operand(kind: PredicateKind, operator: bool, space0: Whitespace, reader: &mut Reader) -> (r:
    ParseResult<PredicateFuncValue>)
    requires
        old(reader).wf(),
    ensures
        final(reader).ran(
            *old(reader),
            r,
            spec_operand(
                kind,
                operator,
                done(space0.deep_view(), old(reader).state),
                old(reader).input(),
            ),
        ),
        never_gives_way(r),
{
    let at = reader.state.pos;
    proof {
        lemma_value_quiet(reader.input());
    }
    let value = match predicate_value(reader) {
        Ok(value) => value,
        Err(e) => {
            return Err(e);
        },
    };
    kind.with_value(space0, value, operator, at)
}

/// Reads a comparison, written with its word or its symbol.
fn comparison(kind: PredicateKind, reader: &mut Reader) -> (r: ParseResult<PredicateFuncValue>)
    requires
        old(reader).wf(),
        kind.symbol() is Some,
    ensures
        final(reader).ran(*old(reader), r, spec_predicate_of(kind, old(reader).input(), old(reader).state)),
{
    let symbol = match kind.operator() {
        Some(symbol) => symbol,
        None => "",
    };
    let found = match try_literals(kind.keyword(), symbol, reader) {
        Ok(found) => found,
        Err(e) => {
            return Err(e);
        },
    };
    let operator = found == symbol.to_owned();
    if !operator {
        reader.notices.push(kind.deprecation());
    }
    let space0 = match if operator {
        zero_or_more_spaces(reader)
    } else {
        one_or_more_spaces(reader)
    } {
        Ok(space0) => space0,
        Err(e) => {
            return Err(e);
        },
    };
    operand(kind, operator, space0, reader)
}

/// Reads a predicate that takes a value and has no symbol.
fn worded(kind: PredicateKind, reader: &mut Reader) -> (r: ParseResult<PredicateFuncValue>)
    requires
        old(reader).wf(),
        kind.symbol() is None,
        kind.takes_value(),
    ensures
        final(reader).ran(*old(reader), r, spec_predicate_of(kind, old(reader).input(), old(reader).state)),
{
    match try_literal(kind.keyword(), reader) {
        Ok(_) => {},
        Err(e) => {
            return Err(e);
        },
    }
    let space0 = match one_or_more_spaces(reader) {
        Ok(space0) => space0,
        Err(e) => {
            return Err(e);
        },
    };
    operand(kind, false, space0, reader)
}

/// Reads a predicate that is its word alone.
fn bare_word(kind: PredicateKind, reader: &mut Reader) -> (r: ParseResult<PredicateFuncValue>)
    requires
        old(reader).wf(),
        !kind.takes_value(),
    ensures
        final(reader).ran(*old(reader), r, spec_predicate_of(kind, old(reader).input(), old(reader).state)),
{
    match try_literal(kind.keyword(), reader) {
        Ok(_) => {},
        Err(e) => {
            return Err(e);
        },
    }
    Ok(
        match kind {
            PredicateKind::IsInteger => PredicateFuncValue::IsInteger,
            PredicateKind::IsFloat => PredicateFuncValue::IsFloat,
            PredicateKind::IsBoolean => PredicateFuncValue::IsBoolean,
            PredicateKind::IsString => PredicateFuncValue::IsString,
            PredicateKind::IsCollection => PredicateFuncValue::IsCollection,
            PredicateKind::IsDate => PredicateFuncValue::IsDate,
            PredicateKind::Exist => PredicateFuncValue::Exist,
            _ => PredicateFuncValue::IsEmpty,
        },
    )
}

/// Reads `equals` or `==`, and a value of any kind.
pub fn equal_predicate(reader: &mut Reader) -> (r: ParseResult<PredicateFuncValue>)
    requires
        old(reader).wf(),
    ensures
        final(reader).ran(
            *old(reader),
            r,
            spec_predicate_of(PredicateKind::Equal, old(reader).input(), old(reader).state),
        ),
{
    comparison(PredicateKind::Equal, reader)
}

/// Reads `notEquals` or `!=`, and a value of any kind.
pub fn not_equal_predicate(reader: &mut Reader) -> (r: ParseResult<PredicateFuncValue>)
    requires
        old(reader).wf(),
    ensures
        final(reader).ran(
            *old(reader),
            r,
            spec_predicate_of(PredicateKind::NotEqual, old(reader).input(), old(reader).state),
        ),
{
    comparison(PredicateKind::NotEqual, reader)
}

/// Reads `greaterThan` or `>`, and a number, a string or an expression.
pub fn greater_predicate(reader: &mut Reader) -> (r: ParseResult<PredicateFuncValue>)
    requires
        old(reader).wf(),
    ensures
        final(reader).ran(
            *old(reader),
            r,
            spec_predicate_of(PredicateKind::GreaterThan, old(reader).input(), old(reader).state),
        ),
{
    comparison(PredicateKind::GreaterThan, reader)
}

/// Reads `greaterThanOrEquals` or `>=`, and a number, a string or an expression.
pub fn greater_or_equal_predicate(reader: &mut Reader) -> (r: ParseResult<PredicateFuncValue>)
    requires
        old(reader).wf(),
    ensures
        final(reader).ran(
            *old(reader),
            r,
            spec_predicate_of(PredicateKind::GreaterThanOrEqual, old(reader).input(), old(reader).state),
        ),
{
    comparison(PredicateKind::GreaterThanOrEqual, reader)
}

/// Reads `lessThan` or `<`, and a number, a string or an expression.
pub fn less_predicate(reader: &mut Reader) -> (r: ParseResult<PredicateFuncValue>)
    requires
        old(reader).wf(),
    ensures
        final(reader).ran(
            *old(reader),
            r,
            spec_predicate_of(PredicateKind::LessThan, old(reader).input(), old(reader).state),
        ),
{
    comparison(PredicateKind::LessThan, reader)
}

/// Reads `lessThanOrEquals` or `<=`, and a number, a string or an expression.
pub fn less_or_equal_predicate(reader: &mut Reader) -> (r: ParseResult<PredicateFuncValue>)
    requires
        old(reader).wf(),
    ensures
        final(reader).ran(
            *old(reader),
            r,
            spec_predicate_of(PredicateKind::LessThanOrEqual, old(reader).input(), old(reader).state),
        ),
{
    comparison(PredicateKind::LessThanOrEqual, reader)
}

/// Reads `startsWith`, and a string or bytes.
pub fn start_with_predicate(reader: &mut Reader) -> (r: ParseResult<PredicateFuncValue>)
    requires
        old(reader).wf(),
    ensures
        final(reader).ran(
            *old(reader),
            r,
            spec_predicate_of(PredicateKind::StartWith, old(reader).input(), old(reader).state),
        ),
{
    worded(PredicateKind::StartWith, reader)
}

/// Reads `endsWith`, and a string or bytes.
pub fn end_with_predicate(reader: &mut Reader) -> (r: ParseResult<PredicateFuncValue>)
    requires
        old(reader).wf(),
    ensures
        final(reader).ran(
            *old(reader),
            r,
            spec_predicate_of(PredicateKind::EndWith, old(reader).input(), old(reader).state),
        ),
{
    worded(PredicateKind::EndWith, reader)
}

/// Reads `contains`, and a string or bytes.
pub fn contain_predicate(reader: &mut Reader) -> (r: ParseResult<PredicateFuncValue>)
    requires
        old(reader).wf(),
    ensures
        final(reader).ran(
            *old(reader),
            r,
            spec_predicate_of(PredicateKind::Contain, old(reader).input(), old(reader).state),
        ),
{
    worded(PredicateKind::Contain, reader)
}

/// Reads `includes`, and a value of any kind.
pub fn include_predicate(reader: &mut Reader) -> (r: ParseResult<PredicateFuncValue>)
    requires
        old(reader).wf(),
    ensures
        final(reader).ran(
            *old(reader),
            r,
            spec_predicate_of(PredicateKind::Include, old(reader).input(), old(reader).state),
        ),
{
    worded(PredicateKind::Include, reader)
}

/// Reads `matches`, and a string or a regular expression.
pub fn match_predicate(reader: &mut Reader) -> (r: ParseResult<PredicateFuncValue>)
    requires
        old(reader).wf(),
    ensures
        final(reader).ran(
            *old(reader),
            r,
            spec_predicate_of(PredicateKind::Match, old(reader).input(), old(reader).state),
        ),
{
    worded(PredicateKind::Match, reader)
}

/// Reads `isInteger`.
pub fn integer_predicate(reader: &mut Reader) -> (r: ParseResult<PredicateFuncValue>)
    requires
        old(reader).wf(),
    ensures
        final(reader).ran(
            *old(reader),
            r,
            spec_predicate_of(PredicateKind::IsInteger, old(reader).input(), old(reader).state),
        ),
{
    bare_word(PredicateKind::IsInteger, reader)
}

/// Reads `isFloat`.
pub fn float_predicate(reader: &mut Reader) -> (r: ParseResult<PredicateFuncValue>)
    requires
        old(reader).wf(),
    ensures
        final(reader).ran(
            *old(reader),
            r,
            spec_predicate_of(PredicateKind::IsFloat, old(reader).input(), old(reader).state),
        ),
{
    bare_word(PredicateKind::IsFloat, reader)
}

/// Reads `isBoolean`.
pub fn boolean_predicate(reader: &mut Reader) -> (r: ParseResult<PredicateFuncValue>)
    requires
        old(reader).wf(),
    ensures
        final(reader).ran(
            *old(reader),
            r,
            spec_predicate_of(PredicateKind::IsBoolean, old(reader).input(), old(reader).state),
        ),
{
    bare_word(PredicateKind::IsBoolean, reader)
}

/// Reads `isString`.
pub fn string_predicate(reader: &mut Reader) -> (r: ParseResult<PredicateFuncValue>)
    requires
        old(reader).wf(),
    ensures
        final(reader).ran(
            *old(reader),
            r,
            spec_predicate_of(PredicateKind::IsString, old(reader).input(), old(reader).state),
        ),
{
    bare_word(PredicateKind::IsString, reader)
}

/// Reads `isCollection`.
pub fn collection_predicate(reader: &mut Reader) -> (r: ParseResult<PredicateFuncValue>)
    requires
        old(reader).wf(),
    ensures
        final(reader).ran(
            *old(reader),
            r,
            spec_predicate_of(PredicateKind::IsCollection, old(reader).input(), old(reader).state),
        ),
{
    bare_word(PredicateKind::IsCollection, reader)
}

/// Reads `isDate`.
pub fn date_predicate(reader: &mut Reader) -> (r: ParseResult<PredicateFuncValue>)
    requires
        old(reader).wf(),
    ensures
        final(reader).ran(
            *old(reader),
            r,
            spec_predicate_of(PredicateKind::IsDate, old(reader).input(), old(reader).state),
        ),
{
    bare_word(PredicateKind::IsDate, reader)
}

/// Reads `exists`.
pub fn exist_predicate(reader: &mut Reader) -> (r: ParseResult<PredicateFuncValue>)
    requires
        old(reader).wf(),
    ensures
        final(reader).ran(
            *old(reader),
            r,
            spec_predicate_of(PredicateKind::Exist, old(reader).input(), old(reader).state),
        ),
{
    bare_word(PredicateKind::Exist, reader)
}

/// Reads `isEmpty`.
pub fn is_empty_predicate(reader: &mut Reader) -> (r: ParseResult<PredicateFuncValue>)
    requires
        old(reader).wf(),
    ensures
        final(reader).ran(
            *old(reader),
            r,
            spec_predicate_of(PredicateKind::IsEmpty, old(reader).input(), old(reader).state),
        ),
{
    bare_word(PredicateKind::IsEmpty, reader)
}

impl Rule for PredicateKind {
    type Output = PredicateFuncValue;

    open spec fn parse(&self, input: Seq<char>, st: ReaderState) -> Outcome<PredicateFuncValueView> {
        spec_predicate_of(*self, input, st)
    }

    fn apply(&self, reader: &mut Reader) -> (r: Result<PredicateFuncValue, Error>) {
        match self {
            PredicateKind::Equal => equal_predicate(reader),
            PredicateKind::NotEqual => not_equal_predicate(reader),
            PredicateKind::GreaterThan => greater_predicate(reader),
            PredicateKind::GreaterThanOrEqual => greater_or_equal_predicate(reader),
            PredicateKind::LessThan => less_predicate(reader),
            PredicateKind::LessThanOrEqual => less_or_equal_predicate(reader),
            PredicateKind::StartWith => start_with_predicate(reader),
            PredicateKind::EndWith => end_with_predicate(reader),
            PredicateKind::Contain => contain_predicate(reader),
            PredicateKind::Include => include_predicate(reader),
            PredicateKind::Match => match_predicate(reader),
            PredicateKind::IsInteger => integer_predicate(reader),
            PredicateKind::IsFloat => float_predicate(reader),
            PredicateKind::IsBoolean => boolean_predicate(reader),
            PredicateKind::IsString => string_predicate(reader),
            PredicateKind::IsCollection => collection_predicate(reader),
            PredicateKind::IsDate => date_predicate(reader),
            PredicateKind::Exist => exist_predicate(reader),
            PredicateKind::IsEmpty => is_empty_predicate(reader),
        }
    }
}

/// The predicate functions in the order in which they are tried.
///
/// Where the word or symbol of one is the beginning of another's, the
/// longer stands first: `>=` before `>`, `greaterThanOrEquals` before
/// `greaterThan`, and likewise for `<`. Otherwise the shorter would be taken
/// and the rest of the longer left unread.
pub open spec fn precedence() -> Seq<PredicateKind> {
    seq![
        PredicateKind::Equal,
        PredicateKind::NotEqual,
        PredicateKind::GreaterThanOrEqual,
        PredicateKind::GreaterThan,
        PredicateKind::LessThanOrEqual,
        PredicateKind::LessThan,
        PredicateKind::StartWith,
        PredicateKind::EndWith,
        PredicateKind::Contain,
        PredicateKind::Include,
        PredicateKind::Match,
        PredicateKind::IsInteger,
        PredicateKind::IsFloat,
        PredicateKind::IsBoolean,
        PredicateKind::IsString,
        PredicateKind::IsCollection,
        PredicateKind::IsDate,
        PredicateKind::Exist,
        PredicateKind::IsEmpty,
    ]
}

/// The table of `precedence`.
pub fn precedence_table() -> (table: Vec<PredicateKind>)
    ensures
        table@ == precedence(),
{
    let table = vec![
        PredicateKind::Equal,
        PredicateKind::NotEqual,
        PredicateKind::GreaterThanOrEqual,
        PredicateKind::GreaterThan,
        PredicateKind::LessThanOrEqual,
        PredicateKind::LessThan,
        PredicateKind::StartWith,
        PredicateKind::EndWith,
        PredicateKind::Contain,
        PredicateKind::Include,
        PredicateKind::Match,
        PredicateKind::IsInteger,
        PredicateKind::IsFloat,
        PredicateKind::IsBoolean,
        PredicateKind::IsString,
        PredicateKind::IsCollection,
        PredicateKind::IsDate,
        PredicateKind::Exist,
        PredicateKind::IsEmpty,
    ];
    assert(table@ =~= precedence());
    table
}

/// A predicate function: the first of `precedence` that stands at `st`. If
/// none does, the failure is fatal, of kind `Predicate`, at `st`, and the
/// reader has not moved.
pub open spec fn spec_predicate_func_value(input: Seq<char>, st: ReaderState) -> Outcome<
    PredicateFuncValueView,
> {
    first_of(precedence(), 0, input, st, ParseErrorView::Predicate)
}

/// Reads a predicate function with its value.
pub fn predicate_func_value(reader: &mut Reader) -> (r: ParseResult<PredicateFuncValue>)
    requires
        old(reader).wf(),
    ensures
        final(reader).ran(
            *old(reader),
            r,
            spec_predicate_func_value(old(reader).input(), old(reader).state),
        ),
        never_gives_way(r),
{
    let table = precedence_table();
    choice(table.as_slice(), reader, ParseError::Predicate)
}

/// A predicate function with the span it was read from.
pub open spec fn spec_predicate_func(input: Seq<char>, st: ReaderState) -> Outcome<PredicateFuncView> {
    let value = spec_predicate_func_value(input, st);
    Outcome {
        result: match value.result {
            Ok(v) => Ok(
                PredicateFuncView {
                    source_info: SourceInfo { start: st.pos, end: value.state.pos },
                    value: v,
                },
            ),
            Err(e) => Err(e),
        },
        state: value.state,
        notices: value.notices,
    }
}

/// Reads a predicate function and records where it stands.
pub fn predicate_func(reader: &mut Reader) -> (r: ParseResult<PredicateFunc>)
    requires
        old(reader).wf(),
    ensures
        final(reader).ran(*old(reader), r, spec_predicate_func(old(reader).input(), old(reader).state)),
        r is Ok ==> r->Ok_0.source_info.ordered(),
        never_gives_way(r),
{
    let start = reader.state.pos;
    let value = match predicate_func_value(reader) {
        Ok(value) => value,
        Err(e) => {
            return Err(e);
        },
    };
    let end = reader.state.pos;
    Ok(PredicateFunc { source_info: SourceInfo { start, end }, value })
}

/// The blanks of a predicate that is not negated: none, at `pos`.
pub open spec fn no_blanks(pos: Pos) -> WhitespaceView {
    WhitespaceView { value: Seq::empty(), source_info: SourceInfo { start: pos, end: pos } }
}

/// The negation of a predicate: `not` and at least one blank. The result
/// tells whether both stand at `st`, and gives the blanks. When they do
/// not, `not` without a blank too, nothing is read and there are no blanks.
pub open spec fn spec_predicate_not(input: Seq<char>, st: ReaderState) -> Outcome<(bool, WhitespaceView)> {
    let word = spec_try_literal("not"@, input, st);
    let space = spec_one_or_more_spaces(input, word.state);
    if word.result is Ok && space.result is Ok {
        done((true, space.result->Ok_0), space.state)
    } else {
        done((false, no_blanks(st.pos)), st)
    }
}

/// Reads `not` and the blanks after it, if both are there. Cannot fail.
pub fn predicate_not(reader: &mut Reader) -> (r: (bool, Whitespace))
    requires
        old(reader).wf(),
    ensures
        final(reader).ran(
            *old(reader),
            Ok::<(bool, Whitespace), Error>(r),
            spec_predicate_not(old(reader).input(), old(reader).state),
        ),
{
    let save = reader.snapshot();
    let no_whitespace = Whitespace {
        value: String::new(),
        source_info: SourceInfo { start: save.pos, end: save.pos },
    };
    if try_literal("not", reader).is_ok() {
        match one_or_more_spaces(reader) {
            Ok(space) => (true, space),
            Err(_) => {
                reader.restore(save);
                (false, no_whitespace)
            },
        }
    } else {
        (false, no_whitespace)
    }
}

/// A predicate: a negation, if there is one, and a predicate function.
pub open spec fn spec_predicate(input: Seq<char>, st: ReaderState) -> Outcome<PredicateView> {
    let negation = spec_predicate_not(input, st);
    let func = spec_predicate_func(input, negation.state);
    Outcome {
        result: match func.result {
            Ok(f) => Ok(
                PredicateView {
                    not: negation.result->Ok_0.0,
                    space0: negation.result->Ok_0.1,
                    predicate_func: f,
                },
            ),
            Err(e) => Err(e),
        },
        state: func.state,
        notices: func.notices,
    }
}

/// Reads a predicate.
pub fn predicate(reader: &mut Reader) -> (r: ParseResult<Predicate>)
    requires
        old(reader).wf(),
    ensures
        final(reader).ran(*old(reader), r, spec_predicate(old(reader).input(), old(reader).state)),
        never_gives_way(r),
{
    let (not, space0) = predicate_not(reader);
    let func = match predicate_func(reader) {
        Ok(func) => func,
        Err(e) => {
            return Err(e);
        },
    };
    Ok(Predicate { not, space0, predicate_func: func })
}

} // verus!
