//! The atomic equality predicate.

use vstd::prelude::*;

use crate::adapter::MemoryAdapter;
use crate::errors::ExecError;
use crate::errors::ExecResult;
use crate::property::Address;
use crate::property::Property;
use crate::property::bytes_eq;
use crate::property::spec_encode;

verus! {

/// The decision of the equality predicate on an input list: at least two
/// inputs are required, the first two must be byte-identical, and any
/// trailing inputs are ignored.  A mismatch is a hard decision error, not
/// a boolean `false`.
pub open spec fn spec_equal_decide(inputs: Seq<Seq<u8>>) -> ExecResult {
    if inputs.len() < 2 {
        Err(ExecError::InputError)
    } else if inputs[0] != inputs[1] {
        Err(ExecError::LogicError)
    } else {
        Ok(true)
    }
}

/// Atomic predicate deciding exact byte equality of its first two inputs.
pub struct EqualPredicate {}

impl EqualPredicate {
    /// Atomic decision from the inputs alone: `Ok(true)` exactly when the
    /// first two inputs are equal; an input list shorter than two aborts
    /// with an input error, a mismatch with a logic error.
    pub fn decide(&self, inputs: &Vec<Vec<u8>>) -> (r: ExecResult)
        ensures
            r == spec_equal_decide(inputs.deep_view()),
    {
        if inputs.len() < 2 {
            return Err(ExecError::InputError);
        }
        assert(inputs.deep_view()[0] == inputs@[0]@);
        assert(inputs.deep_view()[1] == inputs@[1]@);
        if !bytes_eq(&inputs[0], &inputs[1]) {
            return Err(ExecError::LogicError);
        }
        Ok(true)
    }

    /// Identifies the executing party, via the injected ledger adapter.
    pub fn ext_address(&self, ext: &MemoryAdapter) -> (r: Address)
        ensures
            r == ext.own(),
    {
        ext.ext_address()
    }

    /// Persists a decision through the adapter; finality is the adapter's:
    /// flipping a finalized decision fails with a storage conflict.
    pub fn ext_set_predicate_decision(
        &self,
        ext: &mut MemoryAdapter,
        game_id: &Vec<u8>,
        decision: bool,
    ) -> (r: Result<(), ExecError>)
        requires
            old(ext).wf(),
        ensures
            final(ext).wf(),
            final(ext).own() == old(ext).own(),
            match r {
                Ok(()) => {
                    &&& !(old(ext)@.contains_key(game_id@) && old(ext)@[game_id@] != decision)
                    &&& final(ext)@ == old(ext)@.insert(game_id@, decision)
                },
                Err(e) => {
                    &&& e == ExecError::StorageConflict
                    &&& old(ext)@.contains_key(game_id@)
                    &&& old(ext)@[game_id@] != decision
                    &&& final(ext)@ == old(ext)@
                },
            },
    {
        ext.ext_set_predicate_decision(game_id, decision)
    }

    /// Canonicalizes a property to its game identifier through the adapter.
    pub fn ext_get_property_id(&self, ext: &MemoryAdapter, property: &Property) -> (r: Vec<u8>)
        ensures
            r@ == spec_encode(property@),
    {
        ext.ext_get_property_id(property)
    }
}

/// Law: with fewer than two inputs the equality predicate always aborts
/// with an input error and never returns a boolean.
pub proof fn lemma_equal_requires_two_inputs(inputs: Seq<Seq<u8>>)
    requires
        inputs.len() < 2,
    ensures
        spec_equal_decide(inputs) == Err::<bool, ExecError>(ExecError::InputError),
{
}

/// Law: with at least two inputs the equality predicate returns `Ok(true)`
/// exactly when the first two inputs are byte-identical — trailing inputs
/// are ignored — and aborts with a logic error on any mismatch.
pub proof fn lemma_equal_decides_exact_equality(inputs: Seq<Seq<u8>>)
    requires
        inputs.len() >= 2,
    ensures
        spec_equal_decide(inputs) == Ok::<bool, ExecError>(true) <==> inputs[0] == inputs[1],
        inputs[0] != inputs[1] ==> spec_equal_decide(inputs) == Err::<bool, ExecError>(
            ExecError::LogicError,
        ),
{
}

} // verus!
