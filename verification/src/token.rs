//! Tokens and their categories.

use std::fmt::{Debug, Display};
use vstd::prelude::*;

verus! {

/// A lexical token, as the lexer hands it to the parser.
///
/// Rules are bound to the *category* of a token, not to the token: the kind of
/// the token, whatever payload it carries. Two number literals are in one
/// category though their values differ; a number and an identifier never are.
pub trait Token: Clone + Debug + Display + PartialEq + Send + Sync + 'static {
    /// The category of the token. Rule tables are keyed by it.
    ///
    /// This is the mathematical definition, which contracts speak of; nothing
    /// calls it when the program runs. An implementation that is compiled
    /// without the verifier defines it as an ordinary method, by the
    /// expression that `discriminant` computes.
    spec fn category(&self) -> u64;

    /// Computes the category of the token.
    ///
    /// An implementation returns one number for each kind of token and never
    /// looks at the payload; the parser must look rules up by this same
    /// function.
    fn discriminant(&self) -> (d: u64)
        ensures
            d == self.category(),
    ;
}

/// A string has no kinds to tell apart: all strings are in one category.
impl Token for String {
    open spec fn category(&self) -> u64 {
        0
    }

    fn discriminant(&self) -> (d: u64) {
        0
    }
}

} // verus!
