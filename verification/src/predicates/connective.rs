//! Conjunction and disjunction connectives.
//!
//! A composite property carries the canonical encodings of its children
//! as inputs.  Each connective contributes an admissibility rule for
//! proposed challenges; the rule is independent of whether the challenge
//! later proves true.  The connective's own decision is derived by the
//! dispute game engine from its linked challenges and its deadline.

use vstd::prelude::*;

use crate::errors::ExecError;
use crate::errors::ExecResult;
use crate::predicates::AND_PREDICATE_ADDRESS;
use crate::predicates::NOT_PREDICATE_ADDRESS;
use crate::property::Address;
use crate::property::Property;
use crate::property::PropertyModel;
use crate::property::bytes_eq;
use crate::property::copy_bytes;
use crate::property::encode_property;
use crate::property::spec_encode;

verus! {

/// The negation property whose single input is `x`.
pub open spec fn spec_not_wrap(x: Seq<u8>) -> PropertyModel {
    PropertyModel { predicate: NOT_PREDICATE_ADDRESS, inputs: seq![x] }
}

/// An admissible challenge against `And(p_1, .., p_n)` is `Not(p_i)` for
/// some child `p_i`: a single-input negation whose input is one of the
/// conjunction's own inputs.
pub open spec fn spec_and_valid_challenge(inputs: Seq<Seq<u8>>, challenge: PropertyModel) -> bool {
    &&& challenge.predicate == NOT_PREDICATE_ADDRESS
    &&& challenge.inputs.len() == 1
    &&& exists|i: int| 0 <= i < inputs.len() && challenge.inputs[0] == #[trigger] inputs[i]
}

/// An admissible challenge against `Or(p_1, .., p_n)` is the conjunction
/// `And(Not(p_1), .., Not(p_n))`: input `i` of the challenge must be the
/// canonical encoding of `Not(p_i)`.
pub open spec fn spec_or_valid_challenge(inputs: Seq<Seq<u8>>, challenge: PropertyModel) -> bool {
    &&& challenge.predicate == AND_PREDICATE_ADDRESS
    &&& challenge.inputs.len() == inputs.len()
    &&& forall|i: int|
        0 <= i < inputs.len() ==> #[trigger] challenge.inputs[i] == spec_encode(
            spec_not_wrap(inputs[i]),
        )
}

/// Conjunction of the properties encoded in its inputs.
pub struct AndPredicate {}

impl AndPredicate {
    /// Admissibility rule for a challenge against a conjunction: the
    /// challenge must be the negation of one of the children.
    pub fn is_valid_challenge(
        inputs: &Vec<Vec<u8>>,
        _challenge_inputs: &Vec<Vec<u8>>,
        challenge: &Property,
    ) -> (r: ExecResult)
        ensures
            r == Ok::<bool, ExecError>(
                spec_and_valid_challenge(inputs.deep_view(), challenge@),
            ),
    {
        if challenge.predicate.0 != NOT_PREDICATE_ADDRESS || challenge.inputs.len() != 1 {
            return Ok(false);
        }
        let target = &challenge.inputs[0];
        assert(target@ == challenge@.inputs[0]);
        let mut i: usize = 0;
        while i < inputs.len()
            invariant
                i <= inputs.len(),
                challenge@.predicate == NOT_PREDICATE_ADDRESS,
                challenge@.inputs.len() == 1,
                target@ == challenge@.inputs[0],
                forall|j: int| 0 <= j < i ==> #[trigger] inputs.deep_view()[j] != challenge@.inputs[0],
            decreases inputs.len() - i,
        {
            assert(inputs.deep_view()[i as int] == inputs@[i as int]@);
            if bytes_eq(&inputs[i], target) {
                assert(challenge@.inputs[0] == inputs.deep_view()[i as int]);
                assert(challenge@.predicate == NOT_PREDICATE_ADDRESS);
                assert(challenge@.inputs.len() == 1);
                assert(0 <= i < inputs.deep_view().len());
                assert(spec_and_valid_challenge(inputs.deep_view(), challenge@));
                return Ok(true);
            }
            assert(inputs.deep_view()[i as int] != challenge@.inputs[0]);
            i = i + 1;
        }
        Ok(false)
    }
}

/// Disjunction of the properties encoded in its inputs.
pub struct OrPredicate {}

impl OrPredicate {
    /// Admissibility rule for a challenge against a disjunction: the
    /// challenge must be the conjunction of the negations of all
    /// children, in order.
    pub fn is_valid_challenge(
        inputs: &Vec<Vec<u8>>,
        _challenge_inputs: &Vec<Vec<u8>>,
        challenge: &Property,
    ) -> (r: ExecResult)
        ensures
            r == Ok::<bool, ExecError>(spec_or_valid_challenge(inputs.deep_view(), challenge@)),
    {
        if challenge.predicate.0 != AND_PREDICATE_ADDRESS || challenge.inputs.len() != inputs.len()
        {
            return Ok(false);
        }
        let mut i: usize = 0;
        while i < inputs.len()
            invariant
                i <= inputs.len(),
                challenge@.predicate == AND_PREDICATE_ADDRESS,
                challenge@.inputs.len() == inputs.deep_view().len(),
                forall|j: int|
                    0 <= j < i ==> #[trigger] challenge@.inputs[j] == spec_encode(
                        spec_not_wrap(inputs.deep_view()[j]),
                    ),
            decreases inputs.len() - i,
        {
            let not_child = Property {
                predicate: Address(NOT_PREDICATE_ADDRESS),
                inputs: vec![copy_bytes(&inputs[i])],
            };
            assert(not_child@.inputs =~= seq![inputs.deep_view()[i as int]]);
            assert(not_child@ =~= spec_not_wrap(inputs.deep_view()[i as int]));
            let encoded = encode_property(&not_child);
            assert(challenge@.inputs[i as int] == challenge.inputs@[i as int]@);
            assert(inputs.deep_view()[i as int] == inputs@[i as int]@);
            if !bytes_eq(&challenge.inputs[i], &encoded) {
                assert(challenge@.inputs[i as int] != spec_encode(
                    spec_not_wrap(inputs.deep_view()[i as int]),
                ));
                return Ok(false);
            }
            assert(challenge@.inputs[i as int] == spec_encode(
                spec_not_wrap(inputs.deep_view()[i as int]),
            ));
            i = i + 1;
        }
        Ok(true)
    }
}

} // verus!
