//! A backtracking recursive-descent parser for templated strings and
//! assertion predicates, with a position on every node, and a reader of
//! test reports in the TAP format.
//!
//! Every rule of the grammar is given twice: as a function from a text and
//! a state to an outcome, which says what the rule means, and as code that
//! runs on a [`reader::Reader`] and is proved to do what the function says.
//! A failure is recoverable when the rule found that it is not the one to
//! apply, and fatal when it had committed itself. A rule that fails
//! recoverably leaves the reader where it found it, and
//! [`combinators::choice`] goes on to the next rule after such a failure
//! only.
//!
//! - [`reader`]: the text, the state of the reader, snapshots.
//! - [`error`]: failures, notices, outcomes.
//! - [`combinators`]: rules, repetition and ordered choice.
//! - [`primitives`]: words, blanks, digits.
//! - [`string`], [`template`], [`expr`]: escape sequences, the three forms of
//!   template, interpolated expressions.
//! - [`predicate_value`], [`predicate`]: the values and the predicates of
//!   assertions.
//! - [`laws`]: what holds of the rules whatever the text.
//! - [`tap`]: test reports.
pub mod ast;
pub mod combinators;
pub mod error;
pub mod expr;
pub mod laws;
pub mod predicate;
pub mod predicate_value;
pub mod primitives;
pub mod reader;
pub mod string;
pub mod tap;
pub mod template;
