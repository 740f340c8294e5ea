//! The negation connective.
//!
//! `Not(p)` carries one input: the canonical encoding of the inner
//! property `p`, which is also `p`'s game identifier.  Its truth is never
//! self-proven: the dispute game engine derives it structurally from the
//! decision state of `p`.

use vstd::prelude::*;

use crate::errors::ExecError;
use crate::errors::ExecResult;
use crate::property::Property;

verus! {

/// Negation of the property encoded in the first input.
pub struct NotPredicate {}

impl NotPredicate {
    /// Validates a child node of a `Not` property in the game tree.  The
    /// admissible challenge of `Not(p)` is `p` itself, carried in the
    /// first input; the structural comparison of the challenge against
    /// that input is intentionally left open here, and every challenge is
    /// admitted unconditionally.
    pub fn is_valid_challenge(
        _inputs: &Vec<Vec<u8>>,
        _challenge_inputs: &Vec<Vec<u8>>,
        _challenge: &Property,
    ) -> (r: ExecResult)
        ensures
            r == Ok::<bool, ExecError>(true),
    {
        Ok(true)
    }

    /// Decides with a witness: always `false`, whatever the inputs and
    /// witness.  `Not` never proves itself true by witness; its truth is
    /// derived by the engine from its child's decision state.
    pub fn decide_with_witness(_inputs: &Vec<Vec<u8>>, _witness: &Vec<Vec<u8>>) -> (r: ExecResult)
        ensures
            r == Ok::<bool, ExecError>(false),
    {
        Ok(false)
    }
}

} // verus!
