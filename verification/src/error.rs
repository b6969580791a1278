//! What can go wrong while the rule tables are built.

use crate::token::Token;
use vstd::prelude::*;

verus! {

/// The one mistake that is caught while a grammar is declared: two rules bound
/// to one category of token in the same position. It is reported when the
/// second rule is registered, so that a bad grammar fails before anything is
/// parsed.
#[derive(Debug)]
pub enum SpecificationError<T: Token> {
    /// The category of `tk` already has a rule.
    TokenToRuleAlreadyDefined { tk: T },
}

impl<T: Token> Clone for SpecificationError<T> {
    /// The same error, with a clone of the token.
    fn clone(&self) -> (copy: Self)
        ensures
            cloned(self->tk, copy->tk),
    {
        match self {
            SpecificationError::TokenToRuleAlreadyDefined { tk } => {
                SpecificationError::TokenToRuleAlreadyDefined { tk: tk.clone() }
            },
        }
    }
}

} // verus!
