//! Optimistic-Virtual-Machine predicate interpreter.
//!
//! A claim about external state is expressed as a [`property::Property`]:
//! a predicate address together with an ordered sequence of byte-string
//! inputs.  A claimed property is optimistically assumed true; it can be
//! falsified only by winning a challenge game within a bounded decision
//! period.  The crate provides:
//!
//! * the property model and its canonical, injective byte encoding, from
//!   which game identifiers are derived ([`property`]);
//! * the ledger adapter holding finalized decisions ([`adapter`]);
//! * the predicate library: atomic equality, negation, and the logical
//!   connectives ([`predicates`]);
//! * the dispute game engine driving claim / challenge / decide
//!   transitions ([`engine`]).

pub mod adapter;
pub mod engine;
pub mod errors;
pub mod predicates;
pub mod property;
