//! Diagnostics: what went wrong, where, and whether another rule may be tried.
use crate::ast::Pos;
use crate::reader::ReaderState;
use vstd::prelude::*;

verus! {

/// The reason a rule gave up.
#[derive(Clone, Debug, PartialEq, Eq)]
pub enum ParseError {
    /// A token was expected and not found; `value` names it.
    Expecting { value: String },
    /// A backslash is followed by a character that no escape sequence starts with.
    EscapeChar,
    /// The digits of `\u{..}` are not the number of a Unicode scalar value.
    Unicode,
    /// A hexadecimal digit was expected.
    HexDigit,
    /// A blank was expected.
    Space,
    /// An interpolation marker holds no variable name.
    TemplateVariable,
    /// Hexadecimal digits must come in pairs.
    OddNumberOfHexDigits,
    /// No predicate starts here.
    Predicate,
    /// There is no value here, or its kind does not suit the predicate.
    PredicateValue,
}

/// The model of `ParseError`.
#[verifier::ext_equal]
pub enum ParseErrorView {
    Expecting { value: Seq<char> },
    EscapeChar,
    Unicode,
    HexDigit,
    Space,
    TemplateVariable,
    OddNumberOfHexDigits,
    Predicate,
    PredicateValue,
}

impl DeepView for ParseError {
    type V = ParseErrorView;

    open spec fn deep_view(&self) -> ParseErrorView {
        match self {
            ParseError::Expecting { value } => ParseErrorView::Expecting { value: value@ },
            ParseError::EscapeChar => ParseErrorView::EscapeChar,
            ParseError::Unicode => ParseErrorView::Unicode,
            ParseError::HexDigit => ParseErrorView::HexDigit,
            ParseError::Space => ParseErrorView::Space,
            ParseError::TemplateVariable => ParseErrorView::TemplateVariable,
            ParseError::OddNumberOfHexDigits => ParseErrorView::OddNumberOfHexDigits,
            ParseError::Predicate => ParseErrorView::Predicate,
            ParseError::PredicateValue => ParseErrorView::PredicateValue,
        }
    }
}

/// A failed rule. A recoverable failure says "not my alternative": the caller
/// may go back and try another rule. A fatal one ends the parse.
#[derive(Clone, Debug, PartialEq, Eq)]
pub struct Error {
    pub pos: Pos,
    pub recoverable: bool,
    pub inner: ParseError,
}

/// The model of `Error`.
#[verifier::ext_equal]
pub struct ErrorView {
    pub pos: Pos,
    pub recoverable: bool,
    pub inner: ParseErrorView,
}

impl DeepView for Error {
    type V = ErrorView;

    open spec fn deep_view(&self) -> ErrorView {
        ErrorView { pos: self.pos, recoverable: self.recoverable, inner: self.inner.deep_view() }
    }
}

pub type ParseResult<T> = Result<T, Error>;

/// The model of a rule's result.
pub open spec fn model<T: DeepView>(r: Result<T, Error>) -> Result<T::V, ErrorView> {
    match r {
        Ok(v) => Ok(v.deep_view()),
        Err(e) => Err(e.deep_view()),
    }
}

/// The result is no recoverable failure: the rule succeeded, or it had
/// committed itself and no other rule is to be tried.
pub open spec fn never_gives_way<T>(r: Result<T, Error>) -> bool {
    r is Err ==> !r->Err_0.recoverable
}

/// An advisory message that accompanies a parse without being part of its
/// result: a predicate was written with its old spelling.
#[derive(Clone, Copy, Debug, PartialEq, Eq, Structural)]
pub enum Notice {
    Equals,
    NotEquals,
    GreaterThan,
    GreaterThanOrEquals,
    LessThan,
    LessThanOrEquals,
}

impl Notice {
    /// The message of the notice.
    pub open spec fn text(self) -> Seq<char> {
        match self {
            Notice::Equals => "'equals' predicate is now deprecated. Use '==' instead"@,
            Notice::NotEquals => "'notEquals' predicate is now deprecated. Use '!=' instead"@,
            Notice::GreaterThan => "'greaterThan' predicate is now deprecated. Use '>' instead"@,
            Notice::GreaterThanOrEquals => "'greaterThanOrEquals' predicate is now deprecated. Use '>=' instead"@,
            Notice::LessThan => "'lessThan' predicate is now deprecated. Use '<' instead"@,
            Notice::LessThanOrEquals => "'lessThanOrEquals' predicate is now deprecated. Use '<=' instead"@,
        }
    }

    /// The message of the notice, for whoever logs it.
    pub fn message(&self) -> (s: String)
        ensures
            s@ == self.text(),
    {
        match self {
            Notice::Equals => "'equals' predicate is now deprecated. Use '==' instead".to_owned(),
            Notice::NotEquals => "'notEquals' predicate is now deprecated. Use '!=' instead".to_owned(),
            Notice::GreaterThan => "'greaterThan' predicate is now deprecated. Use '>' instead".to_owned(),
            Notice::GreaterThanOrEquals => "'greaterThanOrEquals' predicate is now deprecated. Use '>=' instead".to_owned(),
            Notice::LessThan => "'lessThan' predicate is now deprecated. Use '<' instead".to_owned(),
            Notice::LessThanOrEquals => "'lessThanOrEquals' predicate is now deprecated. Use '<=' instead".to_owned(),
        }
    }
}

/// What a rule does on a given text from a given state: its result, the state
/// it leaves the reader in, and the notices it emits.
#[verifier::ext_equal]
pub struct Outcome<T> {
    pub result: Result<T, ErrorView>,
    pub state: ReaderState,
    pub notices: Seq<Notice>,
}

/// The rule succeeds with `value` and leaves the reader in `state`.
pub open spec fn done<T>(value: T, state: ReaderState) -> Outcome<T> {
    Outcome { result: Ok(value), state, notices: Seq::empty() }
}

/// The rule fails at `pos` with `inner` and leaves the reader in `state`.
pub open spec fn failed<T>(pos: Pos, recoverable: bool, inner: ParseErrorView, state: ReaderState) -> Outcome<T> {
    Outcome { result: Err(ErrorView { pos, recoverable, inner }), state, notices: Seq::empty() }
}

} // verus!
