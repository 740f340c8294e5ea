use ovmi::adapter::MemoryAdapter;
use ovmi::engine::DisputeGameEngine;
use ovmi::errors::Decision;
use ovmi::errors::ExecError;
use ovmi::predicates::AND_PREDICATE_ADDRESS;
use ovmi::predicates::EQUAL_PREDICATE_ADDRESS;
use ovmi::predicates::NOT_PREDICATE_ADDRESS;
use ovmi::predicates::OR_PREDICATE_ADDRESS;
use ovmi::property::Address;
use ovmi::property::Property;
use ovmi::property::encode_property;

const PERIOD: u64 = 100;

fn engine() -> DisputeGameEngine {
    DisputeGameEngine::new(MemoryAdapter::new(Address(9)), PERIOD)
}

fn equal_prop(a: u8, b: u8) -> Property {
    Property {
        predicate: Address(EQUAL_PREDICATE_ADDRESS),
        inputs: vec![vec![a], vec![b]],
    }
}

fn not_prop(child_id: Vec<u8>) -> Property {
    Property { predicate: Address(NOT_PREDICATE_ADDRESS), inputs: vec![child_id] }
}

#[test]
fn claim_records_undecided_game_with_deadline() {
    let mut game = engine();
    let id = game.claim(equal_prop(1, 1), 5).expect("claim");
    assert_eq!(id, encode_property(&equal_prop(1, 1)));
    assert_eq!(game.get_decision(&id), Decision::Undecided);
    let record = game.get_game(&id).expect("game exists");
    assert_eq!(record.deadline, 105);
    assert_eq!(record.challenges.len(), 0);
}

#[test]
fn claim_duplicate_fails() {
    let mut game = engine();
    game.claim(equal_prop(1, 1), 0).expect("claim");
    assert_eq!(game.claim(equal_prop(1, 1), 3), Err(ExecError::DuplicateClaim));
}

#[test]
fn claim_unregistered_predicate_fails() {
    let mut game = engine();
    let p = Property { predicate: Address(99), inputs: vec![] };
    assert_eq!(game.claim(p, 0), Err(ExecError::InputError));
}

#[test]
fn decide_unknown_game_fails() {
    let mut game = engine();
    assert_eq!(game.decide(&vec![0x01], 0), Err(ExecError::InputError));
}

#[test]
fn scenario_equal_claim_then_decide_true() {
    let mut game = engine();
    let id = game.claim(equal_prop(0x01, 0x01), 0).expect("claim");
    assert_eq!(game.decide(&id, 1), Ok(Decision::True));
    assert_eq!(game.get_decision(&id), Decision::True);
}

#[test]
fn scenario_equal_mismatch_fails_and_stays_undecided() {
    let mut game = engine();
    let id = game.claim(equal_prop(0x01, 0x02), 0).expect("claim");
    assert_eq!(game.decide(&id, 1), Err(ExecError::LogicError));
    assert_eq!(game.get_decision(&id), Decision::Undecided);
    assert!(game.get_game(&id).is_some());
}

#[test]
fn scenario_not_resolves_true_when_child_decided_false() {
    let mut adapter = MemoryAdapter::new(Address(9));
    let child = equal_prop(0x01, 0x02);
    let child_id = adapter.ext_get_property_id(&child);
    adapter.ext_set_predicate_decision(&child_id, false).expect("write");
    let mut game = DisputeGameEngine::new(adapter, PERIOD);
    let not_id = game.claim(not_prop(child_id), 0).expect("claim");
    // well before the deadline: the child's false decision alone resolves it
    assert_eq!(game.decide(&not_id, 1), Ok(Decision::True));
    assert_eq!(game.get_decision(&not_id), Decision::True);
}

#[test]
fn scenario_not_resolves_true_when_child_falsified_later() {
    let mut game = engine();
    let q = equal_prop(0x01, 0x01);
    let q_id = encode_property(&q);
    let p = not_prop(q_id.clone());
    let p_id = encode_property(&p);
    // the claim under test comes first: Not(p)
    let top_id = game.claim(not_prop(p_id.clone()), 0).expect("claim top");
    // p is claimed and later falsified: its challenge q proves true
    game.claim(p, 1).expect("claim p");
    game.challenge(&p_id, q, 1).expect("challenge p with q");
    assert_eq!(game.decide(&q_id, 2), Ok(Decision::True));
    assert_eq!(game.decide(&p_id, 2), Ok(Decision::False));
    // well before the deadline, Not(p) resolves true from p alone
    assert_eq!(game.decide(&top_id, 3), Ok(Decision::True));
    assert_eq!(game.get_decision(&top_id), Decision::True);
}

#[test]
fn scenario_not_resolves_false_after_winning_challenge() {
    let mut game = engine();
    let child = equal_prop(0x01, 0x01);
    let child_id = encode_property(&child);
    let not_id = game.claim(not_prop(child_id.clone()), 0).expect("claim");
    let cid = game.challenge(&not_id, child, 0).expect("challenge");
    assert_eq!(cid, child_id);
    let record = game.get_game(&not_id).expect("game exists");
    assert_eq!(record.challenges, vec![child_id.clone()]);
    // the challenge game resolves true before the target's deadline
    assert_eq!(game.decide(&child_id, 1), Ok(Decision::True));
    assert_eq!(game.decide(&not_id, 2), Ok(Decision::False));
    assert_eq!(game.get_decision(&not_id), Decision::False);
}

#[test]
fn not_optimistically_true_after_deadline() {
    let mut game = engine();
    let not_id = game.claim(not_prop(vec![0x55]), 0).expect("claim");
    assert_eq!(game.decide(&not_id, 99), Ok(Decision::Undecided));
    assert_eq!(game.get_decision(&not_id), Decision::Undecided);
    assert_eq!(game.decide(&not_id, 100), Ok(Decision::True));
    assert_eq!(game.get_decision(&not_id), Decision::True);
}

#[test]
fn not_without_child_input_cannot_be_decided() {
    let mut game = engine();
    let malformed = Property { predicate: Address(NOT_PREDICATE_ADDRESS), inputs: vec![] };
    let id = game.claim(malformed, 0).expect("claim");
    assert_eq!(game.decide(&id, 1), Err(ExecError::InputError));
    assert_eq!(game.get_decision(&id), Decision::Undecided);
}

#[test]
fn challenge_unknown_target_fails() {
    let mut game = engine();
    assert_eq!(
        game.challenge(&vec![0x01], equal_prop(1, 1), 0),
        Err(ExecError::InputError)
    );
}

#[test]
fn challenge_on_decided_game_fails() {
    let mut game = engine();
    let id = game.claim(equal_prop(1, 1), 0).expect("claim");
    game.decide(&id, 1).expect("decide");
    assert_eq!(
        game.challenge(&id, equal_prop(1, 1), 2),
        Err(ExecError::InvalidChallenge)
    );
}

#[test]
fn challenge_on_atomic_predicate_fails() {
    let mut game = engine();
    let id = game.claim(equal_prop(1, 2), 0).expect("claim");
    assert_eq!(
        game.challenge(&id, equal_prop(1, 1), 1),
        Err(ExecError::InvalidChallenge)
    );
}

#[test]
fn challenge_with_unregistered_predicate_fails() {
    let mut game = engine();
    let not_id = game.claim(not_prop(vec![0x01]), 0).expect("claim");
    let rogue = Property { predicate: Address(77), inputs: vec![] };
    assert_eq!(game.challenge(&not_id, rogue, 1), Err(ExecError::InputError));
}

#[test]
fn and_game_falsified_by_winning_negation_challenge() {
    let mut game = engine();
    let child = equal_prop(0x01, 0x02);
    let child_id = encode_property(&child);
    let and_claim = Property {
        predicate: Address(AND_PREDICATE_ADDRESS),
        inputs: vec![child_id.clone()],
    };
    let and_id = game.claim(and_claim, 0).expect("claim");
    let not_child = not_prop(child_id);
    let cid = game.challenge(&and_id, not_child, 0).expect("challenge");
    // the negation challenge wins by its own deadline passing unrebutted
    assert_eq!(game.decide(&cid, PERIOD), Ok(Decision::True));
    assert_eq!(game.decide(&and_id, PERIOD), Ok(Decision::False));
}

#[test]
fn and_challenge_with_foreign_child_rejected() {
    let mut game = engine();
    let and_claim = Property {
        predicate: Address(AND_PREDICATE_ADDRESS),
        inputs: vec![vec![0x01]],
    };
    let and_id = game.claim(and_claim, 0).expect("claim");
    assert_eq!(
        game.challenge(&and_id, not_prop(vec![0x02]), 1),
        Err(ExecError::InvalidChallenge)
    );
}

#[test]
fn or_game_accepts_conjunction_of_negations_challenge() {
    let mut game = engine();
    let or_claim = Property {
        predicate: Address(OR_PREDICATE_ADDRESS),
        inputs: vec![vec![0x01], vec![0x02]],
    };
    let or_id = game.claim(or_claim, 0).expect("claim");
    let challenge = Property {
        predicate: Address(AND_PREDICATE_ADDRESS),
        inputs: vec![
            encode_property(&not_prop(vec![0x01])),
            encode_property(&not_prop(vec![0x02])),
        ],
    };
    let cid = game.challenge(&or_id, challenge, 1).expect("challenge");
    assert!(game.get_game(&cid).is_some());
    let record = game.get_game(&or_id).expect("game exists");
    assert_eq!(record.challenges, vec![cid]);
}

#[test]
fn or_game_optimistically_true_after_deadline() {
    let mut game = engine();
    let or_claim = Property {
        predicate: Address(OR_PREDICATE_ADDRESS),
        inputs: vec![vec![0x01]],
    };
    let or_id = game.claim(or_claim, 0).expect("claim");
    assert_eq!(game.decide(&or_id, PERIOD), Ok(Decision::True));
}

#[test]
fn repeated_challenge_links_only_once() {
    let mut game = engine();
    let child = equal_prop(0x01, 0x01);
    let child_id = encode_property(&child);
    let not_id = game.claim(not_prop(child_id.clone()), 0).expect("claim");
    let first = game.challenge(&not_id, equal_prop(0x01, 0x01), 1).expect("challenge");
    let second = game.challenge(&not_id, equal_prop(0x01, 0x01), 2).expect("challenge");
    assert_eq!(first, second);
    let record = game.get_game(&not_id).expect("game exists");
    assert_eq!(record.challenges, vec![child_id]);
}

#[test]
fn decided_game_decision_is_stable() {
    let mut game = engine();
    let id = game.claim(equal_prop(3, 3), 0).expect("claim");
    assert_eq!(game.decide(&id, 1), Ok(Decision::True));
    // deciding again re-writes the same value, which is idempotent
    assert_eq!(game.decide(&id, 2), Ok(Decision::True));
    assert_eq!(game.get_decision(&id), Decision::True);
}
