//! The syntax tree that the parser builds, and the mathematical model of each
//! node.
//!
//! Every node that owns text has a model type whose text is a `Seq<char>`; the
//! model of a node is its `deep_view()`. Contracts speak of models only.
use vstd::prelude::*;

verus! {

/// A place in the source text. Lines and columns count from 1.
#[derive(Clone, Copy, Debug, PartialEq, Eq, Structural)]
pub struct Pos {
    pub line: usize,
    pub column: usize,
}

impl Pos {
    /// The place reached from `self` by reading `c`: a line feed opens the next
    /// line at column 1, any other character moves one column to the right.
    pub open spec fn after(self, c: char) -> Pos {
        if c == '\n' {
            Pos { line: (self.line + 1) as usize, column: 1 }
        } else {
            Pos { line: self.line, column: (self.column + 1) as usize }
        }
    }

    /// Lexicographic order on (line, column).
    pub open spec fn le(self, other: Pos) -> bool {
        self.line < other.line || (self.line == other.line && self.column <= other.column)
    }
}

impl DeepView for Pos {
    type V = Pos;

    open spec fn deep_view(&self) -> Pos {
        *self
    }
}

/// The stretch of source text that a node was read from.
#[derive(Clone, Copy, Debug, PartialEq, Eq, Structural)]
pub struct SourceInfo {
    pub start: Pos,
    pub end: Pos,
}

impl SourceInfo {
    pub fn new(start_line: usize, start_col: usize, end_line: usize, end_col: usize) -> (r: SourceInfo)
        ensures
            r == (SourceInfo {
                start: Pos { line: start_line, column: start_col },
                end: Pos { line: end_line, column: end_col },
            }),
    {
        SourceInfo {
            start: Pos { line: start_line, column: start_col },
            end: Pos { line: end_line, column: end_col },
        }
    }

    /// A span never ends before it starts.
    pub open spec fn ordered(self) -> bool {
        self.start.le(self.end)
    }
}

impl DeepView for SourceInfo {
    type V = SourceInfo;

    open spec fn deep_view(&self) -> SourceInfo {
        *self
    }
}

/// A run of blanks, kept as written.
#[derive(Clone, Debug, PartialEq, Eq)]
pub struct Whitespace {
    pub value: String,
    pub source_info: SourceInfo,
}

/// The model of `Whitespace`.
#[verifier::ext_equal]
pub struct WhitespaceView {
    pub value: Seq<char>,
    pub source_info: SourceInfo,
}

impl DeepView for Whitespace {
    type V = WhitespaceView;

    open spec fn deep_view(&self) -> WhitespaceView {
        WhitespaceView { value: self.value@, source_info: self.source_info }
    }
}

/// The name inside an interpolation marker.
#[derive(Clone, Debug, PartialEq, Eq)]
pub struct Variable {
    pub name: String,
    pub source_info: SourceInfo,
}

/// The model of `Variable`.
#[verifier::ext_equal]
pub struct VariableView {
    pub name: Seq<char>,
    pub source_info: SourceInfo,
}

impl DeepView for Variable {
    type V = VariableView;

    open spec fn deep_view(&self) -> VariableView {
        VariableView { name: self.name@, source_info: self.source_info }
    }
}

/// What stands between `{{` and `}}`: blanks, a name, blanks.
#[derive(Clone, Debug, PartialEq, Eq)]
pub struct Expr {
    pub space0: Whitespace,
    pub variable: Variable,
    pub space1: Whitespace,
}

/// The model of `Expr`.
#[verifier::ext_equal]
pub struct ExprView {
    pub space0: WhitespaceView,
    pub variable: VariableView,
    pub space1: WhitespaceView,
}

impl DeepView for Expr {
    type V = ExprView;

    open spec fn deep_view(&self) -> ExprView {
        ExprView {
            space0: self.space0.deep_view(),
            variable: self.variable.deep_view(),
            space1: self.space1.deep_view(),
        }
    }
}

/// One fragment of a template: literal text, with the decoded value and the
/// text as it was written, or an interpolated expression.
#[derive(Clone, Debug, PartialEq, Eq)]
pub enum TemplateElement {
    String { value: String, encoded: String },
    Expression(Expr),
}

/// The model of `TemplateElement`.
#[verifier::ext_equal]
pub enum TemplateElementView {
    String { value: Seq<char>, encoded: Seq<char> },
    Expression(ExprView),
}

impl DeepView for TemplateElement {
    type V = TemplateElementView;

    open spec fn deep_view(&self) -> TemplateElementView {
        match self {
            TemplateElement::String { value, encoded } => TemplateElementView::String {
                value: value@,
                encoded: encoded@,
            },
            TemplateElement::Expression(e) => TemplateElementView::Expression(e.deep_view()),
        }
    }
}

/// A string with interpolation markers resolved into elements.
#[derive(Clone, Debug, PartialEq, Eq)]
pub struct Template {
    pub delimiter: Option<char>,
    pub elements: Vec<TemplateElement>,
    pub source_info: SourceInfo,
}

/// The model of `Template`.
#[verifier::ext_equal]
pub struct TemplateView {
    pub delimiter: Option<char>,
    pub elements: Seq<TemplateElementView>,
    pub source_info: SourceInfo,
}

impl DeepView for Template {
    type V = TemplateView;

    open spec fn deep_view(&self) -> TemplateView {
        TemplateView {
            delimiter: self.delimiter,
            elements: self.elements.deep_view(),
            source_info: self.source_info,
        }
    }
}

/// A decoded key: its value, and the text it was written as.
#[derive(Clone, Debug, PartialEq, Eq)]
pub struct EncodedString {
    pub value: String,
    pub encoded: String,
    pub quotes: bool,
    pub source_info: SourceInfo,
}

/// The model of `EncodedString`.
#[verifier::ext_equal]
pub struct EncodedStringView {
    pub value: Seq<char>,
    pub encoded: Seq<char>,
    pub quotes: bool,
    pub source_info: SourceInfo,
}

impl DeepView for EncodedString {
    type V = EncodedStringView;

    open spec fn deep_view(&self) -> EncodedStringView {
        EncodedStringView {
            value: self.value@,
            encoded: self.encoded@,
            quotes: self.quotes,
            source_info: self.source_info,
        }
    }
}

/// A number with a decimal point, kept as it was written: an optional
/// minus sign, digits, a point, digits.
#[derive(Clone, Debug, PartialEq, Eq)]
pub struct Float {
    pub encoded: String,
}

/// The model of `Float`.
#[verifier::ext_equal]
pub struct FloatView {
    pub encoded: Seq<char>,
}

impl DeepView for Float {
    type V = FloatView;

    open spec fn deep_view(&self) -> FloatView {
        FloatView { encoded: self.encoded@ }
    }
}

/// Bytes written as `hex,` digits `;`: the bytes, the digits as written,
/// and the blanks around the digits.
#[derive(Clone, Debug, PartialEq, Eq)]
pub struct Hex {
    pub space0: Whitespace,
    pub value: Vec<u8>,
    pub encoded: String,
    pub space1: Whitespace,
}

/// The model of `Hex`.
#[verifier::ext_equal]
pub struct HexView {
    pub space0: WhitespaceView,
    pub value: Seq<u8>,
    pub encoded: Seq<char>,
    pub space1: WhitespaceView,
}

impl DeepView for Hex {
    type V = HexView;

    open spec fn deep_view(&self) -> HexView {
        HexView {
            space0: self.space0.deep_view(),
            value: self.value@,
            encoded: self.encoded@,
            space1: self.space1.deep_view(),
        }
    }
}

/// Bytes written as `base64,` text `;`: the bytes, the text as written, and
/// the blanks around the text.
#[derive(Clone, Debug, PartialEq, Eq)]
pub struct Base64 {
    pub space0: Whitespace,
    pub value: Vec<u8>,
    pub encoded: String,
    pub space1: Whitespace,
}

/// The model of `Base64`.
#[verifier::ext_equal]
pub struct Base64View {
    pub space0: WhitespaceView,
    pub value: Seq<u8>,
    pub encoded: Seq<char>,
    pub space1: WhitespaceView,
}

impl DeepView for Base64 {
    type V = Base64View;

    open spec fn deep_view(&self) -> Base64View {
        Base64View {
            space0: self.space0.deep_view(),
            value: self.value@,
            encoded: self.encoded@,
            space1: self.space1.deep_view(),
        }
    }
}

/// A regular expression written between slashes: its pattern, with `\/`
/// resolved to `/`.
#[derive(Clone, Debug, PartialEq, Eq)]
pub struct Regex {
    pub pattern: String,
}

/// The model of `Regex`.
#[verifier::ext_equal]
pub struct RegexView {
    pub pattern: Seq<char>,
}

impl DeepView for Regex {
    type V = RegexView;

    open spec fn deep_view(&self) -> RegexView {
        RegexView { pattern: self.pattern@ }
    }
}

/// The operand of a predicate.
#[derive(Clone, Debug, PartialEq, Eq)]
pub enum PredicateValue {
    Null,
    Bool(bool),
    Integer(i64),
    Float(Float),
    String(Template),
    Hex(Hex),
    Base64(Base64),
    Expression(Expr),
    Regex(Regex),
}

/// The model of `PredicateValue`.
#[verifier::ext_equal]
pub enum PredicateValueView {
    Null,
    Bool(bool),
    Integer(i64),
    Float(FloatView),
    String(TemplateView),
    Hex(HexView),
    Base64(Base64View),
    Expression(ExprView),
    Regex(RegexView),
}

impl PredicateValueView {
    /// An integer or a float.
    pub open spec fn is_number(self) -> bool {
        self is Integer || self is Float
    }

    /// A template.
    pub open spec fn is_string(self) -> bool {
        self is String
    }

    /// Bytes, written in hexadecimal or in base 64.
    pub open spec fn is_bytearray(self) -> bool {
        self is Hex || self is Base64
    }

    /// An interpolated expression, whose kind is not known before it is
    /// evaluated.
    pub open spec fn is_expression(self) -> bool {
        self is Expression
    }
}

impl DeepView for PredicateValue {
    type V = PredicateValueView;

    open spec fn deep_view(&self) -> PredicateValueView {
        match self {
            PredicateValue::Null => PredicateValueView::Null,
            PredicateValue::Bool(b) => PredicateValueView::Bool(*b),
            PredicateValue::Integer(i) => PredicateValueView::Integer(*i),
            PredicateValue::Float(f) => PredicateValueView::Float(f.deep_view()),
            PredicateValue::String(t) => PredicateValueView::String(t.deep_view()),
            PredicateValue::Hex(h) => PredicateValueView::Hex(h.deep_view()),
            PredicateValue::Base64(b) => PredicateValueView::Base64(b.deep_view()),
            PredicateValue::Expression(e) => PredicateValueView::Expression(e.deep_view()),
            PredicateValue::Regex(r) => PredicateValueView::Regex(r.deep_view()),
        }
    }
}

/// A predicate function with its operand, if it takes one. `operator` tells
/// whether a comparison was written with its symbol (`==`) rather than with
/// its word (`equals`).
#[derive(Clone, Debug, PartialEq, Eq)]
pub enum PredicateFuncValue {
    Equal { space0: Whitespace, value: PredicateValue, operator: bool },
    NotEqual { space0: Whitespace, value: PredicateValue, operator: bool },
    GreaterThan { space0: Whitespace, value: PredicateValue, operator: bool },
    GreaterThanOrEqual { space0: Whitespace, value: PredicateValue, operator: bool },
    LessThan { space0: Whitespace, value: PredicateValue, operator: bool },
    LessThanOrEqual { space0: Whitespace, value: PredicateValue, operator: bool },
    StartWith { space0: Whitespace, value: PredicateValue },
    EndWith { space0: Whitespace, value: PredicateValue },
    Contain { space0: Whitespace, value: PredicateValue },
    Include { space0: Whitespace, value: PredicateValue },
    Match { space0: Whitespace, value: PredicateValue },
    IsInteger,
    IsFloat,
    IsBoolean,
    IsString,
    IsCollection,
    IsDate,
    Exist,
    IsEmpty,
}

/// The model of `PredicateFuncValue`.
#[verifier::ext_equal]
pub enum PredicateFuncValueView {
    Equal { space0: WhitespaceView, value: PredicateValueView, operator: bool },
    NotEqual { space0: WhitespaceView, value: PredicateValueView, operator: bool },
    GreaterThan { space0: WhitespaceView, value: PredicateValueView, operator: bool },
    GreaterThanOrEqual { space0: WhitespaceView, value: PredicateValueView, operator: bool },
    LessThan { space0: WhitespaceView, value: PredicateValueView, operator: bool },
    LessThanOrEqual { space0: WhitespaceView, value: PredicateValueView, operator: bool },
    StartWith { space0: WhitespaceView, value: PredicateValueView },
    EndWith { space0: WhitespaceView, value: PredicateValueView },
    Contain { space0: WhitespaceView, value: PredicateValueView },
    Include { space0: WhitespaceView, value: PredicateValueView },
    Match { space0: WhitespaceView, value: PredicateValueView },
    IsInteger,
    IsFloat,
    IsBoolean,
    IsString,
    IsCollection,
    IsDate,
    Exist,
    IsEmpty,
}

impl DeepView for PredicateFuncValue {
    type V = PredicateFuncValueView;

    open spec fn deep_view(&self) -> PredicateFuncValueView {
        match self {
            PredicateFuncValue::Equal { space0, value, operator } => PredicateFuncValueView::Equal {
                space0: space0.deep_view(),
                value: value.deep_view(),
                operator: *operator,
            },
            PredicateFuncValue::NotEqual { space0, value, operator } => PredicateFuncValueView::NotEqual {
                space0: space0.deep_view(),
                value: value.deep_view(),
                operator: *operator,
            },
            PredicateFuncValue::GreaterThan { space0, value, operator } => PredicateFuncValueView::GreaterThan {
                space0: space0.deep_view(),
                value: value.deep_view(),
                operator: *operator,
            },
            PredicateFuncValue::GreaterThanOrEqual {
                space0,
                value,
                operator,
            } => PredicateFuncValueView::GreaterThanOrEqual {
                space0: space0.deep_view(),
                value: value.deep_view(),
                operator: *operator,
            },
            PredicateFuncValue::LessThan { space0, value, operator } => PredicateFuncValueView::LessThan {
                space0: space0.deep_view(),
                value: value.deep_view(),
                operator: *operator,
            },
            PredicateFuncValue::LessThanOrEqual {
                space0,
                value,
                operator,
            } => PredicateFuncValueView::LessThanOrEqual {
                space0: space0.deep_view(),
                value: value.deep_view(),
                operator: *operator,
            },
            PredicateFuncValue::StartWith { space0, value } => PredicateFuncValueView::StartWith {
                space0: space0.deep_view(),
                value: value.deep_view(),
            },
            PredicateFuncValue::EndWith { space0, value } => PredicateFuncValueView::EndWith {
                space0: space0.deep_view(),
                value: value.deep_view(),
            },
            PredicateFuncValue::Contain { space0, value } => PredicateFuncValueView::Contain {
                space0: space0.deep_view(),
                value: value.deep_view(),
            },
            PredicateFuncValue::Include { space0, value } => PredicateFuncValueView::Include {
                space0: space0.deep_view(),
                value: value.deep_view(),
            },
            PredicateFuncValue::Match { space0, value } => PredicateFuncValueView::Match {
                space0: space0.deep_view(),
                value: value.deep_view(),
            },
            PredicateFuncValue::IsInteger => PredicateFuncValueView::IsInteger,
            PredicateFuncValue::IsFloat => PredicateFuncValueView::IsFloat,
            PredicateFuncValue::IsBoolean => PredicateFuncValueView::IsBoolean,
            PredicateFuncValue::IsString => PredicateFuncValueView::IsString,
            PredicateFuncValue::IsCollection => PredicateFuncValueView::IsCollection,
            PredicateFuncValue::IsDate => PredicateFuncValueView::IsDate,
            PredicateFuncValue::Exist => PredicateFuncValueView::Exist,
            PredicateFuncValue::IsEmpty => PredicateFuncValueView::IsEmpty,
        }
    }
}

/// A predicate function and the text it was read from.
#[derive(Clone, Debug, PartialEq, Eq)]
pub struct PredicateFunc {
    pub source_info: SourceInfo,
    pub value: PredicateFuncValue,
}

/// The model of `PredicateFunc`.
#[verifier::ext_equal]
pub struct PredicateFuncView {
    pub source_info: SourceInfo,
    pub value: PredicateFuncValueView,
}

impl DeepView for PredicateFunc {
    type V = PredicateFuncView;

    open spec fn deep_view(&self) -> PredicateFuncView {
        PredicateFuncView { source_info: self.source_info, value: self.value.deep_view() }
    }
}

/// An assertion: an optional `not`, the blanks after it, and a predicate
/// function.
#[derive(Clone, Debug, PartialEq, Eq)]
pub struct Predicate {
    pub not: bool,
    pub space0: Whitespace,
    pub predicate_func: PredicateFunc,
}

/// The model of `Predicate`.
#[verifier::ext_equal]
pub struct PredicateView {
    pub not: bool,
    pub space0: WhitespaceView,
    pub predicate_func: PredicateFuncView,
}

impl DeepView for Predicate {
    type V = PredicateView;

    open spec fn deep_view(&self) -> PredicateView {
        PredicateView {
            not: self.not,
            space0: self.space0.deep_view(),
            predicate_func: self.predicate_func.deep_view(),
        }
    }
}

} // verus!
