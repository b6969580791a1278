//! The two rule tables of a grammar, and how registrations move them.

use crate::error::SpecificationError;
use crate::batch::registered_each;
use crate::rules::{lemma_registered_one_result, registered, LeftInfo, NullInfo, PrecedenceLevel};
use crate::token::Token;
use vstd::prelude::*;

verus! {

/// The two tables of a grammar, as maps from a token's category.
#[verifier::ext_equal]
pub struct RuleTables<N, L> {
    /// The rules for tokens in prefix position.
    pub null: Map<u64, NullInfo<N>>,
    /// The rules for tokens in infix or postfix position.
    pub left: Map<u64, LeftInfo<L>>,
}

impl<N, L> RuleTables<N, L> {
    /// The tables without any rule.
    pub open spec fn empty() -> Self {
        RuleTables { null: Map::empty(), left: Map::empty() }
    }

    /// One registration of a prefix rule leads from `self` to `after` with
    /// `outcome`: the prefix table takes the registration, the infix table is
    /// not touched.
    pub open spec fn null_step<T: Token>(
        self,
        token: T,
        bp: PrecedenceLevel,
        func: N,
        after: Self,
        outcome: Result<(), SpecificationError<T>>,
    ) -> bool {
        &&& after.left == self.left
        &&& registered(self.null, token, (bp, func), after.null, outcome)
    }

    /// One registration of an infix or postfix rule leads from `self` to
    /// `after` with `outcome`: the infix table takes the registration, the
    /// prefix table is not touched.
    pub open spec fn left_step<T: Token>(
        self,
        token: T,
        lbp: PrecedenceLevel,
        rbp: PrecedenceLevel,
        func: L,
        after: Self,
        outcome: Result<(), SpecificationError<T>>,
    ) -> bool {
        &&& after.null == self.null
        &&& registered(self.left, token, (lbp, rbp, func), after.left, outcome)
    }

    /// One batch of prefix registrations leads from `self` to `after` with
    /// `outcome`; the infix table is not touched.
    pub open spec fn null_steps<T: Token>(
        self,
        tokens: Seq<T>,
        bp: PrecedenceLevel,
        func: N,
        after: Self,
        outcome: Result<(), SpecificationError<T>>,
    ) -> bool {
        &&& after.left == self.left
        &&& registered_each(self.null, tokens, (bp, func), after.null, outcome)
    }

    /// One batch of infix or postfix registrations leads from `self` to
    /// `after` with `outcome`; the prefix table is not touched.
    pub open spec fn left_steps<T: Token>(
        self,
        tokens: Seq<T>,
        lbp: PrecedenceLevel,
        rbp: PrecedenceLevel,
        func: L,
        after: Self,
        outcome: Result<(), SpecificationError<T>>,
    ) -> bool {
        &&& after.null == self.null
        &&& registered_each(self.left, tokens, (lbp, rbp, func), after.left, outcome)
    }

    /// A prefix registration has one result: what it leaves and how it ends
    /// are determined by the tables before, the token, the power and the rule.
    pub proof fn lemma_null_step_one_result<T: Token>(
        self,
        token: T,
        bp: PrecedenceLevel,
        func: N,
        after_a: Self,
        outcome_a: Result<(), SpecificationError<T>>,
        after_b: Self,
        outcome_b: Result<(), SpecificationError<T>>,
    )
        requires
            self.null_step(token, bp, func, after_a, outcome_a),
            self.null_step(token, bp, func, after_b, outcome_b),
        ensures
            after_a == after_b,
            outcome_a == outcome_b,
    {
        lemma_registered_one_result(
            self.null,
            token,
            (bp, func),
            after_a.null,
            outcome_a,
            after_b.null,
            outcome_b,
        );
    }

    /// An infix registration has one result. So a rule registered with one
    /// power `bp` and a rule registered with `bp` as its left and as its right
    /// power, both of which take the step `left_step(token, bp, bp, ..)`, end
    /// alike and leave the same entry.
    pub proof fn lemma_left_step_one_result<T: Token>(
        self,
        token: T,
        lbp: PrecedenceLevel,
        rbp: PrecedenceLevel,
        func: L,
        after_a: Self,
        outcome_a: Result<(), SpecificationError<T>>,
        after_b: Self,
        outcome_b: Result<(), SpecificationError<T>>,
    )
        requires
            self.left_step(token, lbp, rbp, func, after_a, outcome_a),
            self.left_step(token, lbp, rbp, func, after_b, outcome_b),
        ensures
            after_a == after_b,
            outcome_a == outcome_b,
    {
        lemma_registered_one_result(
            self.left,
            token,
            (lbp, rbp, func),
            after_a.left,
            outcome_a,
            after_b.left,
            outcome_b,
        );
    }

    /// The two tables are apart. A prefix rule registered for a token neither
    /// blocks nor unblocks an infix rule for the same token: each registration
    /// succeeds exactly where its own table had the category free, and where
    /// both do, the token has both rules.
    pub proof fn lemma_positions_are_apart<T: Token>(
        self,
        token: T,
        bp: PrecedenceLevel,
        null_func: N,
        between: Self,
        first: Result<(), SpecificationError<T>>,
        lbp: PrecedenceLevel,
        rbp: PrecedenceLevel,
        left_func: L,
        after: Self,
        second: Result<(), SpecificationError<T>>,
    )
        requires
            self.null_step(token, bp, null_func, between, first),
            between.left_step(token, lbp, rbp, left_func, after, second),
        ensures
            first is Ok <==> !self.null.contains_key(token.category()),
            second is Ok <==> !self.left.contains_key(token.category()),
            first is Ok && second is Ok ==> {
                &&& after.null == self.null.insert(token.category(), (bp, null_func))
                &&& after.left == self.left.insert(token.category(), (lbp, rbp, left_func))
            },
    {
    }

    /// The same with the infix rule registered first.
    pub proof fn lemma_positions_are_apart_left_first<T: Token>(
        self,
        token: T,
        lbp: PrecedenceLevel,
        rbp: PrecedenceLevel,
        left_func: L,
        between: Self,
        first: Result<(), SpecificationError<T>>,
        bp: PrecedenceLevel,
        null_func: N,
        after: Self,
        second: Result<(), SpecificationError<T>>,
    )
        requires
            self.left_step(token, lbp, rbp, left_func, between, first),
            between.null_step(token, bp, null_func, after, second),
        ensures
            first is Ok <==> !self.left.contains_key(token.category()),
            second is Ok <==> !self.null.contains_key(token.category()),
            first is Ok && second is Ok ==> {
                &&& after.null == self.null.insert(token.category(), (bp, null_func))
                &&& after.left == self.left.insert(token.category(), (lbp, rbp, left_func))
            },
    {
    }
}

} // verus!
