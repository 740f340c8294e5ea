//! Error taxonomy and decision states shared by the whole interpreter.

use vstd::prelude::*;

verus! {

/// The reasons a predicate call or a game transition is rejected.
///
/// A failed call aborts the whole enclosing operation: no partial ledger
/// mutation is ever committed together with an error.  "Cannot decide"
/// (an error) and "decided false" (an `Ok(false)` outcome) are distinct
/// and must not be conflated by callers.
#[derive(Clone, Copy, Debug, PartialEq, Eq, Structural)]
pub enum ExecError {
    /// The predicate inputs are malformed or insufficient.
    InputError,
    /// An assertion inside a decision failed (e.g. an equality mismatch).
    LogicError,
    /// A write would flip an already-finalized decision.
    StorageConflict,
    /// A claim was made for a game that already exists.
    DuplicateClaim,
    /// A challenge was rejected by the owning predicate's admissibility rule.
    InvalidChallenge,
}

/// Tri-state decision of a game: optimistically `Undecided` until either a
/// boolean decision is finalized on the ledger.
#[derive(Clone, Copy, Debug, PartialEq, Eq, Structural)]
pub enum Decision {
    True,
    False,
    Undecided,
}

/// The result of a predicate decision or challenge-validation call.
pub type ExecResult = Result<bool, ExecError>;

} // verus!
