//! Batches of registrations on one rule table.
//!
//! A batch offers one rule for each of a sequence of tokens, in order, and
//! ends at the first token that is refused. What was registered up to there
//! stays: a failed batch is not undone.

use crate::error::SpecificationError;
use crate::rules::registered;
use crate::token::Token;
use vstd::prelude::*;
use vstd::std_specs::convert::IntoSpec;

verus! {

/// The categories that occur among `tokens`.
pub open spec fn categories<T: Token>(tokens: Seq<T>) -> Set<u64> {
    Set::new(|c: u64| exists|i: int| 0 <= i < tokens.len() && #[trigger] tokens[i].category() == c)
}

/// The table `before` with `rule` under each of `cats` that `before` has no
/// entry for.
pub open spec fn filled<V>(before: Map<u64, V>, cats: Set<u64>, rule: V) -> Map<u64, V> {
    Map::new(
        |c: u64| before.contains_key(c) || cats.contains(c),
        |c: u64|
            if before.contains_key(c) {
                before[c]
            } else {
                rule
            },
    )
}

/// Whether the token at index `i` of a batch finds its category taken: by an
/// entry of `before`, or by a token that stands earlier in the batch.
pub open spec fn taken_at<T: Token, V>(before: Map<u64, V>, tokens: Seq<T>, i: int) -> bool {
    ||| before.contains_key(tokens[i].category())
    ||| categories(tokens.take(i)).contains(tokens[i].category())
}

/// A batch that failed at index `k`: the token there is the first to find its
/// category taken, the tokens before it are registered and no other, and the
/// error carries the token at `k`.
pub open spec fn stopped_at<T: Token, V>(
    before: Map<u64, V>,
    tokens: Seq<T>,
    rule: V,
    after: Map<u64, V>,
    error: SpecificationError<T>,
    k: int,
) -> bool {
    &&& 0 <= k < tokens.len()
    &&& taken_at(before, tokens, k)
    &&& forall|i: int| 0 <= i < k ==> !taken_at(before, tokens, i)
    &&& after == filled(before, categories(tokens.take(k)), rule)
    &&& error == SpecificationError::TokenToRuleAlreadyDefined { tk: tokens[k] }
}

/// One batch: `rule` is offered for the category of each of `tokens`, in
/// order, to the table `before`, which leaves `after` and `outcome`.
///
/// The batch succeeds where no token finds its category taken, and then all
/// are registered. Otherwise it stops at the first token that does and fails
/// with it; what was registered before that token stays.
pub open spec fn registered_each<T: Token, V>(
    before: Map<u64, V>,
    tokens: Seq<T>,
    rule: V,
    after: Map<u64, V>,
    outcome: Result<(), SpecificationError<T>>,
) -> bool {
    match outcome {
        Ok(()) => {
            &&& forall|i: int| 0 <= i < tokens.len() ==> !taken_at(before, tokens, i)
            &&& after == filled(before, categories(tokens), rule)
        },
        Err(error) => exists|k: int| stopped_at(before, tokens, rule, after, error, k),
    }
}

/// The tokens that the values of `given` convert to, one for one.
pub open spec fn converted<U: Into<T>, T: Token>(given: Seq<U>) -> Seq<T> {
    Seq::new(given.len(), |i: int| given[i].into_spec())
}

/// A batch of no tokens succeeds and changes nothing.
pub proof fn lemma_registered_none<T: Token, V>(before: Map<u64, V>, rule: V)
    ensures
        registered_each(before, Seq::<T>::empty(), rule, before, Ok(())),
{
    assert(filled(before, categories(Seq::<T>::empty()), rule) =~= before);
}

/// A batch is its registrations one after the other: where the batch of
/// `tokens` succeeded and left `between`, and a registration for `next` leads
/// from there to `after` with `outcome`, the batch of `tokens` followed by
/// `next` leads from `before` to `after` with `outcome`.
pub proof fn lemma_registered_each_next<T: Token, V>(
    before: Map<u64, V>,
    tokens: Seq<T>,
    rule: V,
    between: Map<u64, V>,
    next: T,
    after: Map<u64, V>,
    outcome: Result<(), SpecificationError<T>>,
)
    requires
        registered_each(before, tokens, rule, between, Ok(())),
        registered(between, next, rule, after, outcome),
    ensures
        registered_each(before, tokens.push(next), rule, after, outcome),
{
    let all = tokens.push(next);
    let n = tokens.len() as int;
    assert(all.take(n) =~= tokens);
    assert forall|i: int| 0 <= i < n implies !taken_at(before, all, i) by {
        assert(all.take(i) =~= tokens.take(i));
        assert(!taken_at(before, tokens, i));
    }
    match outcome {
        Ok(()) => {
            assert forall|c: u64| categories(all).contains(c) == (categories(tokens).contains(c)
                || c == next.category()) by {
                if categories(all).contains(c) {
                    let i = choose|i: int| 0 <= i < all.len() && #[trigger] all[i].category() == c;
                    if i < n {
                        assert(tokens[i].category() == c);
                    }
                }
                if categories(tokens).contains(c) {
                    let i = choose|i: int|
                        0 <= i < tokens.len() && #[trigger] tokens[i].category() == c;
                    assert(all[i].category() == c);
                }
                if c == next.category() {
                    assert(all[n].category() == c);
                }
            }
            assert(after =~= filled(before, categories(all), rule));
        },
        Err(error) => {
            assert(stopped_at(before, all, rule, after, error, n));
        },
    }
}

/// A batch that fails does so whatever follows: where the batch of `tokens`
/// failed, a batch that starts with `tokens` fails alike, with the same error
/// and the same table.
pub proof fn lemma_failure_ends_the_batch<T: Token, V>(
    before: Map<u64, V>,
    tokens: Seq<T>,
    rest: Seq<T>,
    rule: V,
    after: Map<u64, V>,
    error: SpecificationError<T>,
)
    requires
        registered_each(before, tokens, rule, after, Err(error)),
    ensures
        registered_each(before, tokens + rest, rule, after, Err(error)),
{
    let all = tokens + rest;
    let k = choose|k: int| stopped_at(before, tokens, rule, after, error, k);
    assert forall|i: int| 0 <= i <= k implies taken_at(before, all, i) == taken_at(
        before,
        tokens,
        i,
    ) by {
        assert(all.take(i) =~= tokens.take(i));
    }
    assert(all.take(k) =~= tokens.take(k));
    assert(stopped_at(before, all, rule, after, error, k));
}

/// A batch has one result: the table and the outcome are determined by the
/// table before, the tokens and the rule.
pub proof fn lemma_registered_each_one_result<T: Token, V>(
    before: Map<u64, V>,
    tokens: Seq<T>,
    rule: V,
    after_a: Map<u64, V>,
    outcome_a: Result<(), SpecificationError<T>>,
    after_b: Map<u64, V>,
    outcome_b: Result<(), SpecificationError<T>>,
)
    requires
        registered_each(before, tokens, rule, after_a, outcome_a),
        registered_each(before, tokens, rule, after_b, outcome_b),
    ensures
        after_a == after_b,
        outcome_a == outcome_b,
{
    match (outcome_a, outcome_b) {
        (Ok(a), Ok(b)) => {
            // both are the unit value
            assert(a == b);
        },
        (Err(error_a), Err(error_b)) => {
            let i = choose|k: int| stopped_at(before, tokens, rule, after_a, error_a, k);
            let j = choose|k: int| stopped_at(before, tokens, rule, after_b, error_b, k);
            assert(i == j);
        },
        (Err(error), Ok(_)) => {
            let k = choose|k: int| stopped_at(before, tokens, rule, after_a, error, k);
            assert(false);
        },
        (Ok(_), Err(error)) => {
            let k = choose|k: int| stopped_at(before, tokens, rule, after_b, error, k);
            assert(false);
        },
    }
}

/// A batch of one token is the registration of that token.
pub proof fn lemma_registered_each_of_one<T: Token, V>(
    before: Map<u64, V>,
    token: T,
    rule: V,
    after: Map<u64, V>,
    outcome: Result<(), SpecificationError<T>>,
)
    ensures
        registered_each(before, seq![token], rule, after, outcome) <==> registered(
            before,
            token,
            rule,
            after,
            outcome,
        ),
{
    let one = seq![token];
    assert(filled(before, categories(one.take(0)), rule) =~= before);
    assert(categories(one) =~= set![token.category()]) by {
        assert(one[0].category() == token.category());
    }
    assert(filled(before, categories(one), rule) =~= if before.contains_key(token.category()) {
        before
    } else {
        before.insert(token.category(), rule)
    });
    assert(taken_at(before, one, 0) == before.contains_key(token.category()));
    if let Err(error) = outcome {
        if registered_each(before, one, rule, after, outcome) {
            let k = choose|k: int| stopped_at(before, one, rule, after, error, k);
            assert(k == 0);
        }
        if registered(before, token, rule, after, outcome) {
            assert(stopped_at(before, one, rule, after, error, 0));
        }
    }
}

/// What a failed batch leaves: each token before the one that failed has
/// `rule` as its entry, what the table held before is as it was, and the table
/// has no entry but those it had and those of the tokens before the one that
/// failed. A token after the one that failed has an entry only if one of these
/// is in its category.
pub proof fn lemma_stopped_batch_is_partial<T: Token, V>(
    before: Map<u64, V>,
    tokens: Seq<T>,
    rule: V,
    after: Map<u64, V>,
    error: SpecificationError<T>,
    k: int,
)
    requires
        stopped_at(before, tokens, rule, after, error, k),
    ensures
        forall|i: int|
            0 <= i < k ==> after.contains_key(#[trigger] tokens[i].category())
                && after[tokens[i].category()] == rule,
        forall|c: u64|
            after.contains_key(c) ==> before.contains_key(c) || exists|i: int|
                0 <= i < k && #[trigger] tokens[i].category() == c,
        forall|c: u64| before.contains_key(c) ==> after.contains_key(c) && after[c] == before[c],
{
    let firsts = tokens.take(k);
    assert forall|i: int| 0 <= i < k implies after.contains_key(#[trigger] tokens[i].category())
        && after[tokens[i].category()] == rule by {
        assert(firsts[i].category() == tokens[i].category());
        assert(!taken_at(before, tokens, i));
    }
    assert forall|c: u64| after.contains_key(c) implies before.contains_key(c) || exists|i: int|
        0 <= i < k && #[trigger] tokens[i].category() == c by {
        if !before.contains_key(c) {
            let i = choose|i: int| 0 <= i < firsts.len() && #[trigger] firsts[i].category() == c;
            assert(tokens[i].category() == c);
        }
    }
}

} // verus!
