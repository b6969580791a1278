//! Rule tables for a Pratt parser.
//!
//! A grammar is declared by binding rules to categories of tokens: a rule for
//! the token in prefix position (nothing parsed to its left yet) and a rule for
//! the token in infix or postfix position, each with its binding power. The
//! [`ParserSpec`](builder::ParserSpec) collects the bindings, refuses a second
//! rule for a category in the same position, and hands the two finished tables
//! to the parser.

pub mod batch;
pub mod builder;
pub mod error;
pub mod rules;
pub mod tables;
pub mod token;

pub use builder::ParserSpec;
pub use error::SpecificationError;
pub use rules::{LeftInfo, NullInfo, PrecedenceLevel};
pub use tables::RuleTables;
pub use token::Token;
