//! One write-once rule table, as mathematics.
//!
//! A table is a map from the category of a token to what is stored for it.
//! Registering a rule either extends the table by one entry or, where the
//! category is taken, fails and leaves the table as it was. This module says
//! so once, for any kind of rule, and proves what follows from it.

use crate::error::SpecificationError;
use crate::token::Token;
use vstd::prelude::*;

verus! {

/// A binding power: how tightly a rule binds what stands beside it.
pub type PrecedenceLevel = u32;

/// What is stored for a token in prefix position: the power with which the
/// rule binds what follows, and the rule.
pub type NullInfo<N> = (PrecedenceLevel, N);

/// What is stored for a token in infix or postfix position: the left and the
/// right binding power, and the rule. Equal powers make the operator
/// left-associative; a right power one below the left makes it
/// right-associative.
pub type LeftInfo<L> = (PrecedenceLevel, PrecedenceLevel, L);

/// One registration: `rule` is offered for the category of `token` to the
/// table `before`, which leaves `after` and `outcome`.
///
/// Where the category is free the table gains the entry and the outcome is
/// `Ok`. Where it is taken the table stays as it was, the entry that was there
/// included, and the outcome is the error that carries `token`.
pub open spec fn registered<T: Token, V>(
    before: Map<u64, V>,
    token: T,
    rule: V,
    after: Map<u64, V>,
    outcome: Result<(), SpecificationError<T>>,
) -> bool {
    if before.contains_key(token.category()) {
        &&& after == before
        &&& outcome == Err::<(), _>(SpecificationError::TokenToRuleAlreadyDefined { tk: token })
    } else {
        &&& after == before.insert(token.category(), rule)
        &&& outcome is Ok
    }
}

/// A registration has one result: the table and the outcome are determined by
/// the table before, the token and the rule.
pub proof fn lemma_registered_one_result<T: Token, V>(
    before: Map<u64, V>,
    token: T,
    rule: V,
    after_a: Map<u64, V>,
    outcome_a: Result<(), SpecificationError<T>>,
    after_b: Map<u64, V>,
    outcome_b: Result<(), SpecificationError<T>>,
)
    requires
        registered(before, token, rule, after_a, outcome_a),
        registered(before, token, rule, after_b, outcome_b),
    ensures
        after_a == after_b,
        outcome_a == outcome_b,
{
    if let (Ok(a), Ok(b)) = (outcome_a, outcome_b) {
        // both are the unit value
        assert(a == b);
    }
}

/// Registering twice for one token: on a table where its category is free the
/// first registration succeeds, the second fails with the token, and the table
/// after the second holds what the first left, the first rule included.
pub proof fn lemma_registered_twice<T: Token, V>(
    before: Map<u64, V>,
    token: T,
    first_rule: V,
    second_rule: V,
    between: Map<u64, V>,
    first: Result<(), SpecificationError<T>>,
    after: Map<u64, V>,
    second: Result<(), SpecificationError<T>>,
)
    requires
        !before.contains_key(token.category()),
        registered(before, token, first_rule, between, first),
        registered(between, token, second_rule, after, second),
    ensures
        first is Ok,
        second == Err::<(), _>(SpecificationError::TokenToRuleAlreadyDefined { tk: token }),
        after == between,
        after == before.insert(token.category(), first_rule),
        after[token.category()] == first_rule,
{
}

/// The payload does not count: once a rule is registered for a token, a
/// registration for any token of the same category fails, however the two
/// tokens differ otherwise, and changes nothing.
pub proof fn lemma_same_category_collides<T: Token, V>(
    before: Map<u64, V>,
    held: T,
    held_rule: V,
    between: Map<u64, V>,
    first: Result<(), SpecificationError<T>>,
    other: T,
    other_rule: V,
    after: Map<u64, V>,
    second: Result<(), SpecificationError<T>>,
)
    requires
        held.category() == other.category(),
        registered(before, held, held_rule, between, first),
        registered(between, other, other_rule, after, second),
    ensures
        second == Err::<(), _>(SpecificationError::TokenToRuleAlreadyDefined { tk: other }),
        after == between,
{
}

/// Tokens of different categories never collide: a registration for one
/// neither blocks nor unblocks a registration for the other, and neither
/// touches the other's entry.
pub proof fn lemma_other_category_is_untouched<T: Token, V>(
    before: Map<u64, V>,
    one: T,
    one_rule: V,
    between: Map<u64, V>,
    first: Result<(), SpecificationError<T>>,
    other: T,
    other_rule: V,
    after: Map<u64, V>,
    second: Result<(), SpecificationError<T>>,
)
    requires
        one.category() != other.category(),
        registered(before, one, one_rule, between, first),
        registered(between, other, other_rule, after, second),
    ensures
        second is Ok <==> !before.contains_key(other.category()),
        between.contains_key(other.category()) == before.contains_key(other.category()),
        before.contains_key(other.category()) ==> between[other.category()]
            == before[other.category()],
        after.contains_key(one.category()) == between.contains_key(one.category()),
        between.contains_key(one.category()) ==> after[one.category()] == between[one.category()],
{
}

} // verus!
