//! The predicate library and its dispatch table.
//!
//! Each predicate variant is a concrete rule implementing part of the
//! capability set: an atomic decision on inputs alone, a witness-based
//! decision, or a challenge-admissibility rule for composite claims.  The
//! dispute game engine dispatches on a property's predicate address, not
//! on inheritance.

use vstd::prelude::*;

use crate::property::Address;

pub mod connective;
pub mod equal;
pub mod not;

verus! {

/// Ledger address of the atomic equality predicate.
pub const EQUAL_PREDICATE_ADDRESS: u64 = 1;

/// Ledger address of the negation connective.
pub const NOT_PREDICATE_ADDRESS: u64 = 2;

/// Ledger address of the conjunction connective.
pub const AND_PREDICATE_ADDRESS: u64 = 3;

/// Ledger address of the disjunction connective.
pub const OR_PREDICATE_ADDRESS: u64 = 4;

/// The predicate variants the engine can dispatch to.
#[derive(Clone, Copy, Debug, PartialEq, Eq, Structural)]
pub enum PredicateKind {
    Equal,
    Not,
    And,
    Or,
}

/// The variant registered at a predicate address, if any.
pub open spec fn spec_kind_of(predicate: u64) -> Option<PredicateKind> {
    if predicate == EQUAL_PREDICATE_ADDRESS {
        Some(PredicateKind::Equal)
    } else if predicate == NOT_PREDICATE_ADDRESS {
        Some(PredicateKind::Not)
    } else if predicate == AND_PREDICATE_ADDRESS {
        Some(PredicateKind::And)
    } else if predicate == OR_PREDICATE_ADDRESS {
        Some(PredicateKind::Or)
    } else {
        None
    }
}

/// Resolves a predicate address to its registered variant.
pub fn kind_of(predicate: Address) -> (r: Option<PredicateKind>)
    ensures
        r == spec_kind_of(predicate.0),
{
    if predicate.0 == EQUAL_PREDICATE_ADDRESS {
        Some(PredicateKind::Equal)
    } else if predicate.0 == NOT_PREDICATE_ADDRESS {
        Some(PredicateKind::Not)
    } else if predicate.0 == AND_PREDICATE_ADDRESS {
        Some(PredicateKind::And)
    } else if predicate.0 == OR_PREDICATE_ADDRESS {
        Some(PredicateKind::Or)
    } else {
        None
    }
}

} // verus!
