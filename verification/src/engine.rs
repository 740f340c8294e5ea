//! The dispute game engine.
//!
//! Per game identifier a claim moves through `Unclaimed` →
//! `Claimed(Undecided)` → `Decided(True | False)`, the last two terminal.
//! The engine derives identifiers through the ledger adapter, dispatches
//! on the claimed property's predicate address, and persists decisions
//! exclusively through the adapter's single write operation: a transition
//! either commits atomically or changes nothing.
//!
//! Every transition is deterministic: the current height is an explicit
//! argument, deadline expiry is evaluated by comparison, and no other
//! external state is read.

use vstd::prelude::*;

use crate::adapter::MemoryAdapter;
use crate::adapter::decision_of;
use crate::errors::Decision;
use crate::errors::ExecError;
use crate::predicates::PredicateKind;
use crate::predicates::connective::AndPredicate;
use crate::predicates::connective::OrPredicate;
use crate::predicates::connective::spec_and_valid_challenge;
use crate::predicates::connective::spec_or_valid_challenge;
use crate::predicates::equal::EqualPredicate;
use crate::predicates::equal::spec_equal_decide;
use crate::predicates::kind_of;
use crate::predicates::not::NotPredicate;
use crate::predicates::spec_kind_of;
use crate::property::Property;
use crate::property::PropertyModel;
use crate::property::bytes_eq;
use crate::property::copy_bytes;
use crate::property::spec_encode;

verus! {

/// The record a claim leaves on the engine: the game identifier (the
/// claimed property's canonical encoding), the property itself, the
/// identifiers of the currently linked challenge games, and the height
/// after which an undecided, unrebutted game resolves true.  The decision
/// itself lives only in the adapter.
pub struct GameRecord {
    pub id: Vec<u8>,
    pub property: Property,
    pub challenges: Vec<Vec<u8>>,
    pub deadline: u64,
}

/// The mathematical model of a [`GameRecord`].
#[verifier::ext_equal]
pub ghost struct GameModel {
    pub id: Seq<u8>,
    pub property: PropertyModel,
    pub challenges: Seq<Seq<u8>>,
    pub deadline: u64,
}

impl View for GameRecord {
    type V = GameModel;

    open spec fn view(&self) -> GameModel {
        GameModel {
            id: self.id@,
            property: self.property@,
            challenges: self.challenges.deep_view(),
            deadline: self.deadline,
        }
    }
}

/// The mathematical model of the engine: the adapter's decision store,
/// the claimed games in claim order, and the fixed decision period.
#[verifier::ext_equal]
pub ghost struct EngineModel {
    pub decisions: Map<Seq<u8>, bool>,
    pub games: Seq<GameModel>,
    pub decision_period: u64,
}

/// Orchestrates claim → challenge → decide transitions over the injected
/// ledger adapter.
pub struct DisputeGameEngine {
    adapter: MemoryAdapter,
    games: Vec<GameRecord>,
    decision_period: u64,
}

impl View for DisputeGameEngine {
    type V = EngineModel;

    closed spec fn view(&self) -> EngineModel {
        EngineModel {
            decisions: self.adapter@,
            games: Seq::new(self.games@.len(), |i: int| self.games@[i]@),
            decision_period: self.decision_period,
        }
    }
}

/// The position of the game claimed under `id`, if any.
pub open spec fn spec_find_index(games: Seq<GameModel>, id: Seq<u8>) -> Option<int>
    decreases games.len(),
{
    if games.len() == 0 {
        None
    } else if games[0].id == id {
        Some(0)
    } else {
        match spec_find_index(games.drop_first(), id) {
            Some(j) => Some(j + 1),
            None => None,
        }
    }
}

/// The game claimed under `id`, if any.
pub open spec fn spec_find_game(games: Seq<GameModel>, id: Seq<u8>) -> Option<GameModel> {
    match spec_find_index(games, id) {
        Some(i) => Some(games[i]),
        None => None,
    }
}

proof fn lemma_find_index_props(games: Seq<GameModel>, id: Seq<u8>)
    ensures
        match spec_find_index(games, id) {
            Some(i) => 0 <= i < games.len() && games[i].id == id,
            None => forall|j: int| 0 <= j < games.len() ==> games[j].id != id,
        },
    decreases games.len(),
{
    if games.len() == 0 {
    } else if games[0].id == id {
    } else {
        lemma_find_index_props(games.drop_first(), id);
        assert(forall|j: int|
            1 <= j < games.len() ==> games[j] == games.drop_first()[j - 1]);
    }
}

proof fn lemma_find_index_first_match(games: Seq<GameModel>, id: Seq<u8>, i: int)
    requires
        0 <= i < games.len(),
        games[i].id == id,
        forall|j: int| 0 <= j < i ==> games[j].id != id,
    ensures
        spec_find_index(games, id) == Some(i),
    decreases games.len(),
{
    if i == 0 {
    } else {
        assert(games[0].id != id);
        let sub = games.drop_first();
        assert(sub[i - 1] == games[i]);
        assert(forall|j: int| 0 <= j < i - 1 ==> sub[j] == games[j + 1]);
        lemma_find_index_first_match(sub, id, i - 1);
    }
}

/// Well-formed game list: identifiers are unique, each is the canonical
/// encoding of its own property, and each property's predicate is
/// registered.
pub open spec fn wf_games(games: Seq<GameModel>) -> bool {
    &&& forall|i: int, j: int| 0 <= i < j < games.len() ==> games[i].id != games[j].id
    &&& forall|i: int|
        0 <= i < games.len() ==> (#[trigger] games[i]).id == spec_encode(games[i].property)
    &&& forall|i: int|
        0 <= i < games.len() ==> spec_kind_of((#[trigger] games[i]).property.predicate).is_some()
}

/// A challenge is admissible exactly when the target's own connective
/// admits it; atomic predicates admit none.
pub open spec fn spec_valid_challenge(target: PropertyModel, challenge: PropertyModel) -> bool {
    match spec_kind_of(target.predicate) {
        Some(PredicateKind::Not) => true,
        Some(PredicateKind::And) => spec_and_valid_challenge(target.inputs, challenge),
        Some(PredicateKind::Or) => spec_or_valid_challenge(target.inputs, challenge),
        _ => false,
    }
}

/// The claim transition on the model: reject an unregistered predicate,
/// reject a duplicate identifier, otherwise append a fresh undecided game
/// whose deadline is the current height plus the decision period.
pub open spec fn spec_claim_outcome(pre: EngineModel, property: PropertyModel, now: u64) -> (
    EngineModel,
    Result<Seq<u8>, ExecError>,
) {
    let id = spec_encode(property);
    if spec_kind_of(property.predicate).is_none() {
        (pre, Err(ExecError::InputError))
    } else if spec_find_index(pre.games, id).is_some() {
        (pre, Err(ExecError::DuplicateClaim))
    } else {
        let fresh = GameModel {
            id: id,
            property: property,
            challenges: Seq::empty(),
            deadline: (now + pre.decision_period) as u64,
        };
        (
            EngineModel {
                decisions: pre.decisions,
                games: pre.games.push(fresh),
                decision_period: pre.decision_period,
            },
            Ok(id),
        )
    }
}

/// The challenge transition on the model: the target must exist and be
/// undecided, the target's connective must admit the challenge, and the
/// challenge's own predicate must be registered.  On success the
/// challenge property's game is claimed if absent and its identifier is
/// linked into the target's challenge set.
pub open spec fn spec_challenge_outcome(
    pre: EngineModel,
    game_id: Seq<u8>,
    challenge: PropertyModel,
    now: u64,
) -> (EngineModel, Result<Seq<u8>, ExecError>) {
    match spec_find_index(pre.games, game_id) {
        None => (pre, Err(ExecError::InputError)),
        Some(ti) => {
            let target = pre.games[ti];
            if decision_of(pre.decisions, game_id) != Decision::Undecided {
                (pre, Err(ExecError::InvalidChallenge))
            } else if !spec_valid_challenge(target.property, challenge) {
                (pre, Err(ExecError::InvalidChallenge))
            } else if spec_kind_of(challenge.predicate).is_none() {
                (pre, Err(ExecError::InputError))
            } else {
                let cid = spec_encode(challenge);
                let with_game = if spec_find_index(pre.games, cid).is_some() {
                    pre.games
                } else {
                    pre.games.push(
                        GameModel {
                            id: cid,
                            property: challenge,
                            challenges: Seq::empty(),
                            deadline: (now + pre.decision_period) as u64,
                        },
                    )
                };
                let linked = if target.challenges.contains(cid) {
                    target.challenges
                } else {
                    target.challenges.push(cid)
                };
                let updated = GameModel {
                    id: target.id,
                    property: target.property,
                    challenges: linked,
                    deadline: target.deadline,
                };
                (
                    EngineModel {
                        decisions: pre.decisions,
                        games: with_game.update(ti, updated),
                        decision_period: pre.decision_period,
                    },
                    Ok(cid),
                )
            }
        },
    }
}

/// Persisting a boolean through the adapter on the model: a conflict with
/// an opposite finalized value commits nothing.
pub open spec fn spec_write_decision(m: Map<Seq<u8>, bool>, id: Seq<u8>, value: bool) -> (
    Map<Seq<u8>, bool>,
    Result<Decision, ExecError>,
) {
    if m.contains_key(id) && m[id] != value {
        (m, Err(ExecError::StorageConflict))
    } else {
        (
            m.insert(id, value),
            Ok(
                if value {
                    Decision::True
                } else {
                    Decision::False
                },
            ),
        )
    }
}

/// Committing a derived outcome: an undecided outcome commits nothing.
pub open spec fn spec_resolve(m: Map<Seq<u8>, bool>, id: Seq<u8>, outcome: Decision) -> (
    Map<Seq<u8>, bool>,
    Result<Decision, ExecError>,
) {
    match outcome {
        Decision::Undecided => (m, Ok(Decision::Undecided)),
        Decision::True => spec_write_decision(m, id, true),
        Decision::False => spec_write_decision(m, id, false),
    }
}

/// Some linked challenge game has been decided true.
pub open spec fn spec_challenge_decided_true(decisions: Map<Seq<u8>, bool>, g: GameModel) -> bool {
    exists|i: int|
        0 <= i < g.challenges.len() && decision_of(decisions, #[trigger] g.challenges[i])
            == Decision::True
}

/// The derived outcome of `Not(p)`: false as soon as a linked challenge
/// wins; true as soon as the child `p` (whose identifier is the first
/// input) is decided false, or once the deadline has passed unrebutted;
/// otherwise still undecided.
pub open spec fn spec_not_outcome(decisions: Map<Seq<u8>, bool>, g: GameModel, now: u64) -> Decision {
    if spec_challenge_decided_true(decisions, g) {
        Decision::False
    } else if decision_of(decisions, g.property.inputs[0]) == Decision::False {
        Decision::True
    } else if now >= g.deadline {
        Decision::True
    } else {
        Decision::Undecided
    }
}

/// The derived outcome of a conjunction or disjunction: false as soon as
/// a linked challenge wins, optimistically true once the deadline has
/// passed unrebutted, otherwise still undecided.
pub open spec fn spec_connective_outcome(
    decisions: Map<Seq<u8>, bool>,
    g: GameModel,
    now: u64,
) -> Decision {
    if spec_challenge_decided_true(decisions, g) {
        Decision::False
    } else if now >= g.deadline {
        Decision::True
    } else {
        Decision::Undecided
    }
}

/// The decide transition on the model: dispatch on the claimed property's
/// predicate; an atomic equality decides from its inputs alone, a
/// connective derives its outcome from its children and deadline; the
/// games themselves never change, only the decision store.
pub open spec fn spec_decide_outcome(pre: EngineModel, id: Seq<u8>, now: u64) -> (
    Map<Seq<u8>, bool>,
    Result<Decision, ExecError>,
) {
    match spec_find_index(pre.games, id) {
        None => (pre.decisions, Err(ExecError::InputError)),
        Some(ti) => {
            let g = pre.games[ti];
            match spec_kind_of(g.property.predicate) {
                Some(PredicateKind::Equal) => match spec_equal_decide(g.property.inputs) {
                    Ok(b) => spec_write_decision(pre.decisions, id, b),
                    Err(e) => (pre.decisions, Err(e)),
                },
                Some(PredicateKind::Not) => if g.property.inputs.len() < 1 {
                    (pre.decisions, Err(ExecError::InputError))
                } else {
                    spec_resolve(pre.decisions, id, spec_not_outcome(pre.decisions, g, now))
                },
                Some(PredicateKind::And) => spec_resolve(
                    pre.decisions,
                    id,
                    spec_connective_outcome(pre.decisions, g, now),
                ),
                Some(PredicateKind::Or) => spec_resolve(
                    pre.decisions,
                    id,
                    spec_connective_outcome(pre.decisions, g, now),
                ),
                None => (pre.decisions, Err(ExecError::InputError)),
            }
        },
    }
}

/// Law: a finalized decision is terminal across the decide transition.
/// Whichever game is being decided, a boolean already finalized for any
/// game identifier is never changed: deciding the same game re-writes the
/// same value, deciding another game touches only that game's entry, and
/// a would-be flip aborts without committing.
pub proof fn lemma_decide_preserves_finalized(pre: EngineModel, id: Seq<u8>, now: u64, g: Seq<u8>)
    requires
        decision_of(pre.decisions, g) != Decision::Undecided,
    ensures
        decision_of(spec_decide_outcome(pre, id, now).0, g) == decision_of(pre.decisions, g),
{
}

/// Law: the claim transition never touches the decision store; it only
/// appends a game record.
pub proof fn lemma_claim_preserves_decisions(pre: EngineModel, property: PropertyModel, now: u64)
    ensures
        spec_claim_outcome(pre, property, now).0.decisions == pre.decisions,
{
}

/// Law: the challenge transition never touches the decision store; it
/// only claims and links the challenge game.
pub proof fn lemma_challenge_preserves_decisions(
    pre: EngineModel,
    game_id: Seq<u8>,
    challenge: PropertyModel,
    now: u64,
)
    ensures
        spec_challenge_outcome(pre, game_id, challenge, now).0.decisions == pre.decisions,
{
}

/// True when `v` holds a buffer equal to `x`.
fn contains_bytes(v: &Vec<Vec<u8>>, x: &Vec<u8>) -> (r: bool)
    ensures
        r == v.deep_view().contains(x@),
{
    let mut i: usize = 0;
    while i < v.len()
        invariant
            i <= v.len(),
            forall|j: int| 0 <= j < i ==> v.deep_view()[j] != x@,
        decreases v.len() - i,
    {
        assert(v.deep_view()[i as int] == v@[i as int]@);
        if bytes_eq(&v[i], x) {
            assert(v.deep_view()[i as int] == x@);
            return true;
        }
        i = i + 1;
    }
    assert(!v.deep_view().contains(x@));
    false
}

impl DisputeGameEngine {
    /// Adapter and game list are well formed.
    pub closed spec fn wf(&self) -> bool {
        &&& self.adapter.wf()
        &&& wf_games(self@.games)
    }

    /// A fresh engine over an injected ledger adapter, with no claimed
    /// game and the given decision-period length.
    pub fn new(adapter: MemoryAdapter, decision_period: u64) -> (r: Self)
        requires
            adapter.wf(),
        ensures
            r.wf(),
            r@.decisions == adapter@,
            r@.games =~~= Seq::<GameModel>::empty(),
            r@.decision_period == decision_period,
    {
        DisputeGameEngine { adapter, games: Vec::new(), decision_period }
    }

    /// The position of the game claimed under `id` in the game list.
    fn find_index(&self, id: &Vec<u8>) -> (r: Option<usize>)
        ensures
            match r {
                Some(i) => i < self.games@.len() && self@.games[i as int].id == id@
                    && spec_find_index(self@.games, id@) == Some(i as int),
                None => spec_find_index(self@.games, id@).is_none(),
            },
    {
        let mut i: usize = 0;
        while i < self.games.len()
            invariant
                i <= self.games@.len(),
                forall|j: int| 0 <= j < i ==> self@.games[j].id != id@,
            decreases self.games@.len() - i,
        {
            assert(self@.games[i as int].id == self.games@[i as int].id@);
            if bytes_eq(&self.games[i].id, id) {
                proof {
                    lemma_find_index_first_match(self@.games, id@, i as int);
                }
                return Some(i);
            }
            i = i + 1;
        }
        proof {
            lemma_find_index_props(self@.games, id@);
            if spec_find_index(self@.games, id@).is_some() {
                let k = spec_find_index(self@.games, id@).unwrap();
                assert(self@.games[k].id != id@);
            }
        }
        None
    }

    /// Reads the current decision for a game identifier.
    pub fn get_decision(&self, game_id: &Vec<u8>) -> (r: Decision)
        requires
            self.wf(),
        ensures
            r == decision_of(self@.decisions, game_id@),
    {
        self.adapter.ext_get_predicate_decision(game_id)
    }

    /// The record of the game claimed under `game_id`, if any.
    pub fn get_game(&self, game_id: &Vec<u8>) -> (r: Option<&GameRecord>)
        ensures
            match r {
                Some(g) => spec_find_game(self@.games, game_id@) == Some(g@),
                None => spec_find_game(self@.games, game_id@).is_none(),
            },
    {
        match self.find_index(game_id) {
            Some(i) => Some(&self.games[i]),
            None => None,
        }
    }

    /// Claims `property`: derives its game identifier, rejects a
    /// duplicate claim or an unregistered predicate, and otherwise
    /// records a fresh undecided game with deadline `now` plus the
    /// decision period.
    pub fn claim(&mut self, property: Property, now: u64) -> (r: Result<Vec<u8>, ExecError>)
        requires
            old(self).wf(),
            now + old(self)@.decision_period <= u64::MAX,
        ensures
            final(self).wf(),
            ({
                let (post, res) = spec_claim_outcome(old(self)@, property@, now);
                &&& final(self)@ =~~= post
                &&& match r {
                    Ok(id) => res == Ok::<Seq<u8>, ExecError>(id@),
                    Err(e) => res == Err::<Seq<u8>, ExecError>(e),
                }
            }),
    {
        let id = self.adapter.ext_get_property_id(&property);
        if kind_of(property.predicate).is_none() {
            return Err(ExecError::InputError);
        }
        match self.find_index(&id) {
            Some(_) => Err(ExecError::DuplicateClaim),
            None => {
                proof {
                    lemma_find_index_props(self@.games, id@);
                }
                let gid = copy_bytes(&id);
                let deadline = now + self.decision_period;
                let record = GameRecord { id, property, challenges: Vec::new(), deadline };
                let ghost pre = self@;
                let ghost fresh = record@;
                self.games.push(record);
                proof {
                    assert(self@.games =~~= pre.games.push(fresh));
                    assert(fresh.challenges =~~= Seq::<Seq<u8>>::empty());
                    assert(self@ =~~= spec_claim_outcome(pre, fresh.property, now).0);
                    assert forall|i: int, j: int|
                        0 <= i < j < self@.games.len() implies self@.games[i].id
                        != self@.games[j].id by {
                        if j < pre.games.len() {
                        } else {
                            assert(self@.games[j].id == spec_encode(fresh.property));
                            assert(pre.games[i].id != spec_encode(fresh.property));
                        }
                    }
                    assert(wf_games(self@.games));
                }
                Ok(gid)
            },
        }
    }

    /// Some linked challenge of game `ti` is currently decided true.
    fn any_challenge_true(&self, ti: usize) -> (r: bool)
        requires
            self.wf(),
            ti < self@.games.len(),
        ensures
            r == spec_challenge_decided_true(self@.decisions, self@.games[ti as int]),
    {
        let n = self.games[ti].challenges.len();
        let mut j: usize = 0;
        while j < n
            invariant
                self.wf(),
                ti < self@.games.len(),
                n == self.games@[ti as int].challenges@.len(),
                j <= n,
                forall|k: int|
                    0 <= k < j ==> decision_of(
                        self@.decisions,
                        #[trigger] self@.games[ti as int].challenges[k],
                    ) != Decision::True,
            decreases n - j,
        {
            assert(self@.games[ti as int].challenges[j as int] == self.games@[ti as int].challenges@[j as int]@);
            let d = self.adapter.ext_get_predicate_decision(&self.games[ti].challenges[j]);
            if d == Decision::True {
                assert(spec_challenge_decided_true(self@.decisions, self@.games[ti as int]));
                return true;
            }
            j = j + 1;
        }
        assert(!spec_challenge_decided_true(self@.decisions, self@.games[ti as int]));
        false
    }

    /// Commits a derived outcome for `game_id` through the adapter; an
    /// undecided outcome commits nothing.
    fn resolve(&mut self, game_id: &Vec<u8>, outcome: Decision) -> (r: Result<Decision, ExecError>)
        requires
            old(self).wf(),
        ensures
            final(self).wf(),
            final(self)@.games == old(self)@.games,
            final(self)@.decision_period == old(self)@.decision_period,
            ({
                let (m, res) = spec_resolve(old(self)@.decisions, game_id@, outcome);
                &&& final(self)@.decisions == m
                &&& match r {
                    Ok(d) => res == Ok::<Decision, ExecError>(d),
                    Err(e) => res == Err::<Decision, ExecError>(e),
                }
            }),
    {
        match outcome {
            Decision::Undecided => Ok(Decision::Undecided),
            Decision::True => match self.adapter.ext_set_predicate_decision(game_id, true) {
                Ok(()) => Ok(Decision::True),
                Err(e) => Err(e),
            },
            Decision::False => match self.adapter.ext_set_predicate_decision(game_id, false) {
                Ok(()) => Ok(Decision::False),
                Err(e) => Err(e),
            },
        }
    }

    /// Decides the game claimed under `game_id` at height `now`: an
    /// atomic equality decides from its inputs alone and any failure
    /// commits nothing; a connective derives its outcome from its linked
    /// challenges, its child's decision (for negation) and its deadline.
    /// The game list never changes, only the decision store.
    pub fn decide(&mut self, game_id: &Vec<u8>, now: u64) -> (r: Result<Decision, ExecError>)
        requires
            old(self).wf(),
        ensures
            final(self).wf(),
            final(self)@.games == old(self)@.games,
            final(self)@.decision_period == old(self)@.decision_period,
            ({
                let (post, res) = spec_decide_outcome(old(self)@, game_id@, now);
                &&& final(self)@.decisions == post
                &&& match r {
                    Ok(d) => res == Ok::<Decision, ExecError>(d),
                    Err(e) => res == Err::<Decision, ExecError>(e),
                }
            }),
    {
        let ti = match self.find_index(game_id) {
            None => {
                return Err(ExecError::InputError);
            },
            Some(t) => t,
        };
        let kind = kind_of(self.games[ti].property.predicate);
        match kind {
            Some(PredicateKind::Equal) => {
                let pred = EqualPredicate {};
                let decided = pred.decide(&self.games[ti].property.inputs);
                assert(self@.games[ti as int].property == self.games@[ti as int].property@);
                match decided {
                    Ok(b) => self.resolve(game_id, if b { Decision::True } else { Decision::False }),
                    Err(e) => Err(e),
                }
            },
            Some(PredicateKind::Not) => {
                if self.games[ti].property.inputs.len() < 1 {
                    return Err(ExecError::InputError);
                }
                let any_true = self.any_challenge_true(ti);
                assert(self@.games[ti as int].property.inputs[0] == self.games@[ti as int].property.inputs@[0]@);
                let child = self.adapter.ext_get_predicate_decision(
                    &self.games[ti].property.inputs[0],
                );
                let outcome = if any_true {
                    Decision::False
                } else if child == Decision::False {
                    Decision::True
                } else if now >= self.games[ti].deadline {
                    Decision::True
                } else {
                    Decision::Undecided
                };
                assert(outcome == spec_not_outcome(
                    self@.decisions,
                    self@.games[ti as int],
                    now,
                ));
                self.resolve(game_id, outcome)
            },
            Some(PredicateKind::And) => {
                let any_true = self.any_challenge_true(ti);
                let outcome = if any_true {
                    Decision::False
                } else if now >= self.games[ti].deadline {
                    Decision::True
                } else {
                    Decision::Undecided
                };
                self.resolve(game_id, outcome)
            },
            Some(PredicateKind::Or) => {
                let any_true = self.any_challenge_true(ti);
                let outcome = if any_true {
                    Decision::False
                } else if now >= self.games[ti].deadline {
                    Decision::True
                } else {
                    Decision::Undecided
                };
                self.resolve(game_id, outcome)
            },
            None => Err(ExecError::InputError),
        }
    }

    /// Challenges the game claimed under `game_id` with
    /// `challenge_property`: the target must exist and still be
    /// undecided, its connective must admit the challenge, and the
    /// challenge predicate must be registered.  The challenge's own game
    /// is then claimed if absent, and its identifier linked into the
    /// target's challenge set; all of it commits together or not at all.
    pub fn challenge(
        &mut self,
        game_id: &Vec<u8>,
        challenge_property: Property,
        now: u64,
    ) -> (r: Result<Vec<u8>, ExecError>)
        requires
            old(self).wf(),
            now + old(self)@.decision_period <= u64::MAX,
        ensures
            final(self).wf(),
            ({
                let (post, res) = spec_challenge_outcome(
                    old(self)@,
                    game_id@,
                    challenge_property@,
                    now,
                );
                &&& final(self)@ =~~= post
                &&& match r {
                    Ok(cid) => res == Ok::<Seq<u8>, ExecError>(cid@),
                    Err(e) => res == Err::<Seq<u8>, ExecError>(e),
                }
            }),
    {
        let ghost pre = self@;
        let ti = match self.find_index(game_id) {
            None => {
                return Err(ExecError::InputError);
            },
            Some(t) => t,
        };
        proof {
            lemma_find_index_props(pre.games, game_id@);
        }
        let current = self.adapter.ext_get_predicate_decision(game_id);
        if current != Decision::Undecided {
            return Err(ExecError::InvalidChallenge);
        }
        let admissible = {
            let target = &self.games[ti];
            assert(target@ == pre.games[ti as int]);
            match kind_of(target.property.predicate) {
                Some(PredicateKind::Not) => NotPredicate::is_valid_challenge(
                    &target.property.inputs,
                    &challenge_property.inputs,
                    &challenge_property,
                ),
                Some(PredicateKind::And) => AndPredicate::is_valid_challenge(
                    &target.property.inputs,
                    &challenge_property.inputs,
                    &challenge_property,
                ),
                Some(PredicateKind::Or) => OrPredicate::is_valid_challenge(
                    &target.property.inputs,
                    &challenge_property.inputs,
                    &challenge_property,
                ),
                _ => Ok(false),
            }
        };
        let ok = match admissible {
            Ok(v) => v,
            Err(e) => {
                return Err(e);
            },
        };
        if !ok {
            return Err(ExecError::InvalidChallenge);
        }
        assert(spec_valid_challenge(pre.games[ti as int].property, challenge_property@));
        if kind_of(challenge_property.predicate).is_none() {
            return Err(ExecError::InputError);
        }
        let cid = self.adapter.ext_get_property_id(&challenge_property);
        let cid_ret = copy_bytes(&cid);
        let ghost target_model = pre.games[ti as int];
        match self.find_index(&cid) {
            Some(_) => {},
            None => {
                proof {
                    lemma_find_index_props(self@.games, cid@);
                }
                let deadline = now + self.decision_period;
                let record = GameRecord {
                    id: copy_bytes(&cid),
                    property: challenge_property,
                    challenges: Vec::new(),
                    deadline,
                };
                let ghost fresh = record@;
                self.games.push(record);
                proof {
                    assert(fresh.challenges =~~= Seq::<Seq<u8>>::empty());
                    assert(self@.games =~~= pre.games.push(fresh));
                }
            },
        }
        let ghost with_game = self@.games;
        proof {
            assert(ti < pre.games.len());
            assert(with_game[ti as int] == target_model);
        }
        let mut target_rec = self.games.remove(ti);
        let already = contains_bytes(&target_rec.challenges, &cid);
        if !already {
            let cid_link = copy_bytes(&cid);
            let ghost old_challenges = target_rec.challenges.deep_view();
            target_rec.challenges.push(cid_link);
            proof {
                assert(target_rec.challenges.deep_view() =~~= old_challenges.push(cid@));
            }
        }
        self.games.insert(ti, target_rec);
        proof {
            let (post, res) = spec_challenge_outcome(pre, game_id@, challenge_property@, now);
            assert(self@.games =~~= post.games);
            assert(self@ =~~= post);
            assert(wf_games(self@.games));
        }
        Ok(cid_ret)
    }
}

} // verus!
