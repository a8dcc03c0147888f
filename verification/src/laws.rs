//! What holds of the rules whatever the text, each statement proved from
//! the definitions of the rules.
pub mod combinators;
pub mod escapes;
pub mod predicates;
pub mod templates;
