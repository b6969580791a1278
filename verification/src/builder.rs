//! The builder of a parser's rule tables.

use crate::error::SpecificationError;
use crate::batch::{
    converted, lemma_failure_ends_the_batch, lemma_registered_each_next, lemma_registered_none,
    registered_each,
};
use crate::rules::{registered, LeftInfo, NullInfo, PrecedenceLevel};
use crate::tables::RuleTables;
use crate::token::Token;
use std::collections::HashMap;
use std::marker::PhantomData;
use vstd::prelude::*;
use vstd::std_specs::convert::IntoSpec;

verus! {

/// Collects the rules of a grammar, one table for tokens in prefix position
/// and one for tokens in infix or postfix position.
///
/// `T` is the type of tokens, `N` the type of prefix rules and `L` the type
/// of infix rules. The builder stores rules and never calls them: to it they
/// are plain values, such as function pointers. Each table is write-once: the
/// first rule registered for a category stays, and a later one for the same
/// category is an error.
///
/// Each registration comes in two forms. The one named `..assoc` takes any
/// value that converts to a token, so that a caller can pass a bare marker of
/// the category; the one named `..token` takes the token itself.
pub struct ParserSpec<T: Token, N, L> {
    null_map: HashMap<u64, NullInfo<N>>,
    left_map: HashMap<u64, LeftInfo<L>>,
    tokens: PhantomData<T>,
}

impl<T: Token, N, L> View for ParserSpec<T, N, L> {
    type V = RuleTables<N, L>;

    closed spec fn view(&self) -> RuleTables<N, L> {
        RuleTables { null: self.null_map@, left: self.left_map@ }
    }
}

/// Offers `rule` for the category of `token` to `map`: inserts it where the
/// category is free, and refuses where it is taken.
fn put<T: Token, V>(map: &mut HashMap<u64, V>, token: T, rule: V) -> (outcome: Result<
    (),
    SpecificationError<T>,
>)
    ensures
        registered(old(map)@, token, rule, final(map)@, outcome),
{
    let disc = token.discriminant();
    if map.contains_key(&disc) {
        Err(SpecificationError::TokenToRuleAlreadyDefined { tk: token })
    } else {
        map.insert(disc, rule);
        Ok(())
    }
}

/// Offers `rule` for the category of each of `tokens` to `map`, in order, and
/// stops at the first that is refused.
fn put_each<T: Token, V: Copy>(map: &mut HashMap<u64, V>, tokens: Vec<T>, rule: V) -> (outcome:
    Result<(), SpecificationError<T>>)
    ensures
        registered_each(old(map)@, tokens@, rule, final(map)@, outcome),
{
    let ghost before = map@;
    let ghost all = tokens@;
    proof {
        lemma_registered_none::<T, V>(before, rule);
        assert(all.take(0) =~= Seq::<T>::empty());
    }
    for token in it: tokens
        invariant
            before == old(map)@,
            all == tokens@,
            it.seq() == all,
            registered_each(before, all.take(it.index()), rule, map@, Ok(())),
    {
        let ghost done = all.take(it.index());
        let ghost between = map@;
        let ghost next = token;
        let outcome = put(map, token, rule);
        proof {
            lemma_registered_each_next(before, done, rule, between, next, map@, outcome);
            assert(done.push(next) =~= all.take(it.index() + 1));
        }
        if let Err(error) = outcome {
            proof {
                lemma_failure_ends_the_batch(
                    before,
                    all.take(it.index() + 1),
                    all.skip(it.index() + 1),
                    rule,
                    map@,
                    error,
                );
                assert(all.take(it.index() + 1) + all.skip(it.index() + 1) =~= all);
            }
            return Err(error);
        }
    }
    proof {
        assert(all.take(all.len() as int) =~= all);
    }
    Ok(())
}

/// Converts each of `given` to a token and offers `rule` for its category to
/// `map`, in order, and stops at the first that is refused; what stands after
/// it is not converted.
fn put_each_into<T: Token, U: Into<T>, V: Copy>(
    map: &mut HashMap<u64, V>,
    given: Vec<U>,
    rule: V,
) -> (outcome: Result<(), SpecificationError<T>>)
    ensures
        exists|tokens: Seq<T>|
            tokens.len() == given@.len() && #[trigger] registered_each(
                old(map)@,
                tokens,
                rule,
                final(map)@,
                outcome,
            ),
        U::obeys_into_spec() ==> registered_each(
            old(map)@,
            converted::<U, T>(given@),
            rule,
            final(map)@,
            outcome,
        ),
{
    let ghost before = map@;
    let ghost all = given@;
    let ghost mut made = Seq::<T>::empty();
    proof {
        lemma_registered_none::<T, V>(before, rule);
    }
    for value in it: given
        invariant
            before == old(map)@,
            all == given@,
            it.seq() == all,
            made.len() == it.index(),
            U::obeys_into_spec() ==> made == converted::<U, T>(all).take(it.index()),
            registered_each(before, made, rule, map@, Ok(())),
    {
        let ghost between = map@;
        let token: T = value.into();
        let ghost next = token;
        let outcome = put(map, token, rule);
        proof {
            lemma_registered_each_next(before, made, rule, between, next, map@, outcome);
        }
        if let Err(error) = outcome {
            proof {
                let rest = Seq::new((all.len() - it.index() - 1) as nat, |i: int| next);
                lemma_failure_ends_the_batch(before, made.push(next), rest, rule, map@, error);
                if U::obeys_into_spec() {
                    let tokens = converted::<U, T>(all);
                    lemma_failure_ends_the_batch(
                        before,
                        made.push(next),
                        tokens.skip(it.index() + 1),
                        rule,
                        map@,
                        error,
                    );
                    assert(made.push(next) + tokens.skip(it.index() + 1) =~= tokens);
                }
            }
            return Err(error);
        }
        proof {
            made = made.push(next);
        }
    }
    proof {
        if U::obeys_into_spec() {
            assert(made =~= converted::<U, T>(all));
        }
    }
    Ok(())
}

impl<T: Token, N, L> ParserSpec<T, N, L> {
    /// A builder without any rule.
    pub fn new() -> (spec: Self)
        ensures
            spec@ == RuleTables::<N, L>::empty(),
    {
        ParserSpec { null_map: HashMap::new(), left_map: HashMap::new(), tokens: PhantomData }
    }

    /// Registers `func`, with binding power `bp`, as the rule for `token` in
    /// prefix position.
    pub fn add_null_token(&mut self, token: T, bp: PrecedenceLevel, func: N) -> (outcome: Result<
        (),
        SpecificationError<T>,
    >)
        ensures
            old(self)@.null_step(token, bp, func, final(self)@, outcome),
    {
        put(&mut self.null_map, token, (bp, func))
    }

    /// Registers `func` as the rule for `token` in infix or postfix position,
    /// with `bp` as both its left and its right binding power: a
    /// left-associative operator.
    pub fn add_left_token(&mut self, token: T, bp: PrecedenceLevel, func: L) -> (outcome: Result<
        (),
        SpecificationError<T>,
    >)
        ensures
            old(self)@.left_step(token, bp, bp, func, final(self)@, outcome),
    {
        self.add_left_right_token(token, bp, bp, func)
    }

    /// Registers `func` as the rule for `token` in infix or postfix position,
    /// with left binding power `lbp` and right binding power `rbp`.
    pub fn add_left_right_token(
        &mut self,
        token: T,
        lbp: PrecedenceLevel,
        rbp: PrecedenceLevel,
        func: L,
    ) -> (outcome: Result<(), SpecificationError<T>>)
        ensures
            old(self)@.left_step(token, lbp, rbp, func, final(self)@, outcome),
    {
        put(&mut self.left_map, token, (lbp, rbp, func))
    }

    /// Converts `token` and registers `func`, with binding power `bp`, as the
    /// rule for it in prefix position.
    ///
    /// Whatever the conversion does, the registration is that of some token;
    /// where the conversion has a model (`obeys_into_spec`), it is that of the
    /// token which the model gives. The same holds of the other converting
    /// forms.
    pub fn add_null_assoc<U: Into<T>>(
        &mut self,
        token: U,
        bp: PrecedenceLevel,
        func: N,
    ) -> (outcome: Result<(), SpecificationError<T>>)
        ensures
            exists|tk: T| #[trigger] old(self)@.null_step(tk, bp, func, final(self)@, outcome),
            U::obeys_into_spec() ==> old(self)@.null_step(
                token.into_spec(),
                bp,
                func,
                final(self)@,
                outcome,
            ),
    {
        self.add_null_token(token.into(), bp, func)
    }

    /// Converts `token` and registers `func` as the rule for it in infix or
    /// postfix position, with `bp` as both its left and its right binding
    /// power: a left-associative operator.
    pub fn add_left_assoc<U: Into<T>>(
        &mut self,
        token: U,
        bp: PrecedenceLevel,
        func: L,
    ) -> (outcome: Result<(), SpecificationError<T>>)
        ensures
            exists|tk: T| #[trigger] old(self)@.left_step(tk, bp, bp, func, final(self)@, outcome),
            U::obeys_into_spec() ==> old(self)@.left_step(
                token.into_spec(),
                bp,
                bp,
                func,
                final(self)@,
                outcome,
            ),
    {
        self.add_left_right_assoc(token, bp, bp, func)
    }

    /// Converts `token` and registers `func` as the rule for it in infix or
    /// postfix position, with left binding power `lbp` and right binding power
    /// `rbp`.
    pub fn add_left_right_assoc<U: Into<T>>(
        &mut self,
        token: U,
        lbp: PrecedenceLevel,
        rbp: PrecedenceLevel,
        func: L,
    ) -> (outcome: Result<(), SpecificationError<T>>)
        ensures
            exists|tk: T| #[trigger]
                old(self)@.left_step(tk, lbp, rbp, func, final(self)@, outcome),
            U::obeys_into_spec() ==> old(self)@.left_step(
                token.into_spec(),
                lbp,
                rbp,
                func,
                final(self)@,
                outcome,
            ),
    {
        self.add_left_right_token(token.into(), lbp, rbp, func)
    }

    /// Hands over the two tables, the prefix rules first, and ends the
    /// builder: nothing is copied, and nothing can be registered after. The
    /// tables are keyed by category, so the parser looks a token up under its
    /// `discriminant`.
    pub fn maps(self) -> (tables: (HashMap<u64, NullInfo<N>>, HashMap<u64, LeftInfo<L>>))
        ensures
            tables.0@ == self@.null,
            tables.1@ == self@.left,
    {
        (self.null_map, self.left_map)
    }
}

/// Batches. A batch stores one rule for many tokens, so the rule is copied.
impl<T: Token, N: Copy, L: Copy> ParserSpec<T, N, L> {
    /// Registers `func`, with binding power `bp`, as the prefix rule for each
    /// of `tokens`, in order. The first token whose category is taken ends the
    /// batch with an error; the tokens before it stay registered.
    pub fn add_null_tokens(&mut self, tokens: Vec<T>, bp: PrecedenceLevel, func: N) -> (outcome:
        Result<(), SpecificationError<T>>)
        ensures
            old(self)@.null_steps(tokens@, bp, func, final(self)@, outcome),
    {
        put_each(&mut self.null_map, tokens, (bp, func))
    }

    /// Registers `func` as the infix or postfix rule for each of `tokens`, in
    /// order, with `bp` as both binding powers. The first token whose category
    /// is taken ends the batch with an error; the tokens before it stay
    /// registered.
    pub fn add_left_tokens(&mut self, tokens: Vec<T>, bp: PrecedenceLevel, func: L) -> (outcome:
        Result<(), SpecificationError<T>>)
        ensures
            old(self)@.left_steps(tokens@, bp, bp, func, final(self)@, outcome),
    {
        self.add_left_right_tokens(tokens, bp, bp, func)
    }

    /// Registers `func` as the infix or postfix rule for each of `tokens`, in
    /// order, with binding powers `lbp` and `rbp`. The first token whose
    /// category is taken ends the batch with an error; the tokens before it
    /// stay registered.
    pub fn add_left_right_tokens(
        &mut self,
        tokens: Vec<T>,
        lbp: PrecedenceLevel,
        rbp: PrecedenceLevel,
        func: L,
    ) -> (outcome: Result<(), SpecificationError<T>>)
        ensures
            old(self)@.left_steps(tokens@, lbp, rbp, func, final(self)@, outcome),
    {
        put_each(&mut self.left_map, tokens, (lbp, rbp, func))
    }

    /// Converts each of `tokens`, in order, and registers `func`, with binding
    /// power `bp`, as the prefix rule for it. The first token whose category
    /// is taken ends the batch with an error; the tokens before it stay
    /// registered, and those after it are not converted.
    pub fn add_null_associations<U: Into<T>>(
        &mut self,
        tokens: Vec<U>,
        bp: PrecedenceLevel,
        func: N,
    ) -> (outcome: Result<(), SpecificationError<T>>)
        ensures
            exists|tks: Seq<T>|
                tks.len() == tokens@.len() && #[trigger] old(self)@.null_steps(
                    tks,
                    bp,
                    func,
                    final(self)@,
                    outcome,
                ),
            U::obeys_into_spec() ==> old(self)@.null_steps(
                converted::<U, T>(tokens@),
                bp,
                func,
                final(self)@,
                outcome,
            ),
    {
        let ghost given = tokens@;
        let outcome = put_each_into(&mut self.null_map, tokens, (bp, func));
        proof {
            let tks = choose|tks: Seq<T>|
                tks.len() == given.len() && registered_each(
                    old(self)@.null,
                    tks,
                    (bp, func),
                    self@.null,
                    outcome,
                );
            assert(old(self)@.null_steps(tks, bp, func, self@, outcome));
        }
        outcome
    }

    /// Converts each of `tokens`, in order, and registers `func` as the infix
    /// or postfix rule for it, with `bp` as both binding powers. The first
    /// token whose category is taken ends the batch with an error; the tokens
    /// before it stay registered, and those after it are not converted.
    pub fn add_left_associations<U: Into<T>>(
        &mut self,
        tokens: Vec<U>,
        bp: PrecedenceLevel,
        func: L,
    ) -> (outcome: Result<(), SpecificationError<T>>)
        ensures
            exists|tks: Seq<T>|
                tks.len() == tokens@.len() && #[trigger] old(self)@.left_steps(
                    tks,
                    bp,
                    bp,
                    func,
                    final(self)@,
                    outcome,
                ),
            U::obeys_into_spec() ==> old(self)@.left_steps(
                converted::<U, T>(tokens@),
                bp,
                bp,
                func,
                final(self)@,
                outcome,
            ),
    {
        self.add_left_right_associations(tokens, bp, bp, func)
    }

    /// Converts each of `tokens`, in order, and registers `func` as the infix
    /// or postfix rule for it, with binding powers `lbp` and `rbp`. The first
    /// token whose category is taken ends the batch with an error; the tokens
    /// before it stay registered, and those after it are not converted.
    pub fn add_left_right_associations<U: Into<T>>(
        &mut self,
        tokens: Vec<U>,
        lbp: PrecedenceLevel,
        rbp: PrecedenceLevel,
        func: L,
    ) -> (outcome: Result<(), SpecificationError<T>>)
        ensures
            exists|tks: Seq<T>|
                tks.len() == tokens@.len() && #[trigger] old(self)@.left_steps(
                    tks,
                    lbp,
                    rbp,
                    func,
                    final(self)@,
                    outcome,
                ),
            U::obeys_into_spec() ==> old(self)@.left_steps(
                converted::<U, T>(tokens@),
                lbp,
                rbp,
                func,
                final(self)@,
                outcome,
            ),
    {
        let ghost given = tokens@;
        let outcome = put_each_into(&mut self.left_map, tokens, (lbp, rbp, func));
        proof {
            let tks = choose|tks: Seq<T>|
                tks.len() == given.len() && registered_each(
                    old(self)@.left,
                    tks,
                    (lbp, rbp, func),
                    self@.left,
                    outcome,
                );
            assert(old(self)@.left_steps(tks, lbp, rbp, func, self@, outcome));
        }
        outcome
    }
}

impl<T: Token, N, L> Default for ParserSpec<T, N, L> {
    /// A builder without any rule.
    fn default() -> (spec: Self)
        ensures
            spec@ == RuleTables::<N, L>::empty(),
    {
        Self::new()
    }
}

impl<T: Token, N: Copy, L: Copy> Clone for ParserSpec<T, N, L> {
    /// A second builder with the same rules.
    fn clone(&self) -> (copy: Self)
        ensures
            copy@ == self@,
    {
        ParserSpec {
            null_map: self.null_map.clone(),
            left_map: self.left_map.clone(),
            tokens: PhantomData,
        }
    }
}

} // verus!
