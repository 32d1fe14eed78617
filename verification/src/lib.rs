//! A parser for a small line-oriented configuration language.
//!
//! A document is a sequence of statements. Each statement is either a comment
//! (`#` up to the end of the line) or an assignment of a quoted string to an
//! optional name (`name="text"`). The grammar is stated as specification
//! functions over bytes in [`grammar`], and the executable parser in
//! [`parser`] is proved to compute exactly what they describe.
//!
//! What follows from the grammar is proved in three modules: [`invariants`]
//! says what holds of every statement that is recognised, [`order`] that the
//! statements of a document keep the order of its lines, and [`canonical`]
//! that parsing gives back every document that is written down in the
//! plainest way.

pub mod canonical;
pub mod document;
pub mod grammar;
pub mod invariants;
pub mod lexical;
pub mod order;
pub mod parser;
pub mod text;

pub use document::{Expression, ParseError, Statement};
pub use parser::parse;
