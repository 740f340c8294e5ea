//! The ledger adapter: the storage capability the interpreter consumes.
//!
//! Decisions are tri-state and keyed by game identifier; they live only
//! here, never duplicated inside the interpreter.  A written decision is
//! terminal: re-writing the same value succeeds idempotently, while any
//! attempt to flip a finalized decision fails with a storage conflict and
//! leaves the store untouched.

use vstd::prelude::*;

use crate::errors::Decision;
use crate::errors::ExecError;
use crate::property::Address;
use crate::property::Property;
use crate::property::bytes_eq;
use crate::property::copy_bytes;
use crate::property::encode_property;
use crate::property::spec_encode;

verus! {

/// One finalized boolean decision, keyed by its game identifier.
struct DecisionEntry {
    id: Vec<u8>,
    value: bool,
}

/// An in-memory ledger: the executing party's address plus the decision
/// store.  It is injected into the dispute game engine and may also be
/// driven directly; all writes go through one operation,
/// [`MemoryAdapter::ext_set_predicate_decision`].
pub struct MemoryAdapter {
    own_address: Address,
    decisions: Vec<DecisionEntry>,
}

spec fn entries_map(s: Seq<DecisionEntry>) -> Map<Seq<u8>, bool>
    decreases s.len(),
{
    if s.len() == 0 {
        Map::empty()
    } else {
        entries_map(s.drop_last()).insert(s.last().id@, s.last().value)
    }
}

spec fn entries_unique(s: Seq<DecisionEntry>) -> bool {
    forall|i: int, j: int| 0 <= i < j < s.len() ==> s[i].id@ != s[j].id@
}

impl View for MemoryAdapter {
    type V = Map<Seq<u8>, bool>;

    closed spec fn view(&self) -> Map<Seq<u8>, bool> {
        entries_map(self.decisions@)
    }
}

/// The decision recorded for `id` in the model `m`: `Undecided` while no
/// boolean has been finalized.
pub open spec fn decision_of(m: Map<Seq<u8>, bool>, id: Seq<u8>) -> Decision {
    if m.contains_key(id) {
        if m[id] {
            Decision::True
        } else {
            Decision::False
        }
    } else {
        Decision::Undecided
    }
}

proof fn lemma_entries_map_index(s: Seq<DecisionEntry>, i: int)
    requires
        entries_unique(s),
        0 <= i < s.len(),
    ensures
        entries_map(s).contains_key(s[i].id@),
        entries_map(s)[s[i].id@] == s[i].value,
    decreases s.len(),
{
    if i == s.len() - 1 {
        assert(s.last() == s[i]);
    } else {
        let sub = s.drop_last();
        assert(entries_unique(sub));
        assert(sub[i] == s[i]);
        lemma_entries_map_index(sub, i);
        assert(s.last().id@ != s[i].id@);
    }
}

proof fn lemma_entries_map_missing(s: Seq<DecisionEntry>, k: Seq<u8>)
    requires
        forall|j: int| 0 <= j < s.len() ==> s[j].id@ != k,
    ensures
        !entries_map(s).contains_key(k),
    decreases s.len(),
{
    if s.len() == 0 {
    } else {
        let sub = s.drop_last();
        assert(forall|j: int| 0 <= j < sub.len() ==> sub[j].id@ != k);
        lemma_entries_map_missing(sub, k);
        assert(s.last().id@ != k);
    }
}

proof fn lemma_entries_map_push(s: Seq<DecisionEntry>, e: DecisionEntry)
    ensures
        entries_map(s.push(e)) == entries_map(s).insert(e.id@, e.value),
{
    assert(s.push(e).drop_last() =~= s);
    assert(s.push(e).last() == e);
}

impl MemoryAdapter {
    /// The store never holds two entries for one game identifier.
    pub closed spec fn wf(&self) -> bool {
        entries_unique(self.decisions@)
    }

    /// The executing party's address.
    pub closed spec fn own(&self) -> Address {
        self.own_address
    }

    /// A fresh ledger with no finalized decision.
    pub fn new(own_address: Address) -> (r: Self)
        ensures
            r.wf(),
            r@ == Map::<Seq<u8>, bool>::empty(),
            r.own() == own_address,
    {
        MemoryAdapter { own_address, decisions: Vec::new() }
    }

    /// Identifies the executing party, letting a predicate distinguish
    /// itself from a counterpart in a multi-party game.
    pub fn ext_address(&self) -> (r: Address)
        ensures
            r == self.own(),
    {
        self.own_address
    }

    /// Canonicalizes a property to its game identifier; pure and
    /// deterministic (see [`crate::property::lemma_property_id_injective`]).
    pub fn ext_get_property_id(&self, property: &Property) -> (r: Vec<u8>)
        ensures
            r@ == spec_encode(property@),
    {
        encode_property(property)
    }

    /// The index of the entry for `id`, if one exists.
    fn find_entry(&self, id: &Vec<u8>) -> (r: Option<usize>)
        ensures
            match r {
                Some(i) => i < self.decisions@.len() && self.decisions@[i as int].id@ == id@,
                None => forall|j: int|
                    0 <= j < self.decisions@.len() ==> self.decisions@[j].id@ != id@,
            },
    {
        let mut i: usize = 0;
        while i < self.decisions.len()
            invariant
                i <= self.decisions@.len(),
                forall|j: int| 0 <= j < i ==> self.decisions@[j].id@ != id@,
            decreases self.decisions@.len() - i,
        {
            if bytes_eq(&self.decisions[i].id, id) {
                return Some(i);
            }
            i = i + 1;
        }
        None
    }

    /// Reads the current decision for a game identifier, so composite
    /// predicates can inspect children without recomputation.
    pub fn ext_get_predicate_decision(&self, game_id: &Vec<u8>) -> (r: Decision)
        requires
            self.wf(),
        ensures
            r == decision_of(self@, game_id@),
    {
        match self.find_entry(game_id) {
            Some(i) => {
                proof {
                    lemma_entries_map_index(self.decisions@, i as int);
                }
                if self.decisions[i].value {
                    Decision::True
                } else {
                    Decision::False
                }
            },
            None => {
                proof {
                    lemma_entries_map_missing(self.decisions@, game_id@);
                }
                Decision::Undecided
            },
        }
    }

    /// Persists a decision.  Finality: once a boolean is written for a
    /// game, a write of the opposite value fails with a storage conflict
    /// and changes nothing, while a repeat write of the same value
    /// succeeds.
    pub fn ext_set_predicate_decision(&mut self, game_id: &Vec<u8>, decision: bool) -> (r: Result<
        (),
        ExecError,
    >)
        requires
            old(self).wf(),
        ensures
            final(self).wf(),
            final(self).own() == old(self).own(),
            match r {
                Ok(()) => {
                    &&& !(old(self)@.contains_key(game_id@) && old(self)@[game_id@] != decision)
                    &&& final(self)@ == old(self)@.insert(game_id@, decision)
                },
                Err(e) => {
                    &&& e == ExecError::StorageConflict
                    &&& old(self)@.contains_key(game_id@)
                    &&& old(self)@[game_id@] != decision
                    &&& final(self)@ == old(self)@
                },
            },
    {
        match self.find_entry(game_id) {
            Some(i) => {
                proof {
                    lemma_entries_map_index(self.decisions@, i as int);
                }
                if self.decisions[i].value == decision {
                    proof {
                        assert(self@.insert(game_id@, decision) =~= self@);
                    }
                    Ok(())
                } else {
                    Err(ExecError::StorageConflict)
                }
            },
            None => {
                proof {
                    lemma_entries_map_missing(self.decisions@, game_id@);
                }
                let entry = DecisionEntry { id: copy_bytes(game_id), value: decision };
                proof {
                    lemma_entries_map_push(self.decisions@, entry);
                }
                self.decisions.push(entry);
                assert(self.wf()) by {
                    assert(forall|j: int|
                        0 <= j < old(self).decisions@.len() ==> old(
                            self,
                        ).decisions@[j].id@ != game_id@);
                }
                Ok(())
            },
        }
    }
}

} // verus!
