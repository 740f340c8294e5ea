use ovmi::adapter::MemoryAdapter;
use ovmi::errors::Decision;
use ovmi::errors::ExecError;
use ovmi::predicates::EQUAL_PREDICATE_ADDRESS;
use ovmi::predicates::NOT_PREDICATE_ADDRESS;
use ovmi::predicates::connective::AndPredicate;
use ovmi::predicates::connective::OrPredicate;
use ovmi::predicates::equal::EqualPredicate;
use ovmi::predicates::not::NotPredicate;
use ovmi::property::Address;
use ovmi::property::Property;
use ovmi::property::encode_property;

#[test]
fn equal_decide_rejects_empty_inputs() {
    let pred = EqualPredicate {};
    let inputs: Vec<Vec<u8>> = vec![];
    assert_eq!(pred.decide(&inputs), Err(ExecError::InputError));
}

#[test]
fn equal_decide_rejects_single_input() {
    let pred = EqualPredicate {};
    let inputs = vec![vec![0x01u8]];
    assert_eq!(pred.decide(&inputs), Err(ExecError::InputError));
}

#[test]
fn equal_decide_true_on_equal_inputs() {
    let pred = EqualPredicate {};
    let inputs = vec![vec![0x01u8, 0x02], vec![0x01u8, 0x02]];
    assert_eq!(pred.decide(&inputs), Ok(true));
}

#[test]
fn equal_decide_logic_error_on_mismatch() {
    let pred = EqualPredicate {};
    let inputs = vec![vec![0x01u8], vec![0x02u8]];
    assert_eq!(pred.decide(&inputs), Err(ExecError::LogicError));
}

#[test]
fn equal_decide_logic_error_on_length_mismatch() {
    let pred = EqualPredicate {};
    let inputs = vec![vec![0x01u8], vec![0x01u8, 0x00]];
    assert_eq!(pred.decide(&inputs), Err(ExecError::LogicError));
}

#[test]
fn equal_decide_ignores_trailing_inputs() {
    let pred = EqualPredicate {};
    let inputs = vec![vec![0x07u8], vec![0x07u8], vec![0xffu8, 0xee]];
    assert_eq!(pred.decide(&inputs), Ok(true));
    let mismatched_tail = vec![vec![0x07u8], vec![0x08u8], vec![0x07u8]];
    assert_eq!(pred.decide(&mismatched_tail), Err(ExecError::LogicError));
}

#[test]
fn equal_forwards_adapter_capabilities() {
    let pred = EqualPredicate {};
    let mut adapter = MemoryAdapter::new(Address(11));
    assert_eq!(pred.ext_address(&adapter), Address(11));
    let p = Property {
        predicate: Address(EQUAL_PREDICATE_ADDRESS),
        inputs: vec![vec![0x01]],
    };
    let id = pred.ext_get_property_id(&adapter, &p);
    assert_eq!(id, encode_property(&p));
    assert_eq!(pred.ext_set_predicate_decision(&mut adapter, &id, true), Ok(()));
    assert_eq!(
        pred.ext_set_predicate_decision(&mut adapter, &id, false),
        Err(ExecError::StorageConflict)
    );
    assert_eq!(adapter.ext_get_predicate_decision(&id), Decision::True);
}

#[test]
fn not_decide_with_witness_always_false() {
    let empty: Vec<Vec<u8>> = vec![];
    assert_eq!(NotPredicate::decide_with_witness(&empty, &empty), Ok(false));
    let inputs = vec![vec![0x01u8, 0x02]];
    let witness = vec![vec![0xffu8], vec![0xee, 0xdd]];
    assert_eq!(NotPredicate::decide_with_witness(&inputs, &witness), Ok(false));
    assert_eq!(NotPredicate::decide_with_witness(&witness, &inputs), Ok(false));
}

#[test]
fn not_is_valid_challenge_accepts_unconditionally() {
    let inputs = vec![vec![0x01u8]];
    let challenge = Property { predicate: Address(99), inputs: vec![] };
    let challenge_inputs: Vec<Vec<u8>> = vec![];
    assert_eq!(
        NotPredicate::is_valid_challenge(&inputs, &challenge_inputs, &challenge),
        Ok(true)
    );
}

#[test]
fn and_challenge_admits_negation_of_child() {
    let children = vec![vec![0x0au8], vec![0x0bu8]];
    let challenge = Property {
        predicate: Address(NOT_PREDICATE_ADDRESS),
        inputs: vec![vec![0x0bu8]],
    };
    assert_eq!(
        AndPredicate::is_valid_challenge(&children, &challenge.inputs.clone(), &challenge),
        Ok(true)
    );
}

#[test]
fn and_challenge_rejects_foreign_input() {
    let children = vec![vec![0x0au8], vec![0x0bu8]];
    let challenge = Property {
        predicate: Address(NOT_PREDICATE_ADDRESS),
        inputs: vec![vec![0x0cu8]],
    };
    assert_eq!(
        AndPredicate::is_valid_challenge(&children, &challenge.inputs.clone(), &challenge),
        Ok(false)
    );
}

#[test]
fn and_challenge_rejects_wrong_predicate() {
    let children = vec![vec![0x0au8]];
    let challenge = Property {
        predicate: Address(EQUAL_PREDICATE_ADDRESS),
        inputs: vec![vec![0x0au8]],
    };
    assert_eq!(
        AndPredicate::is_valid_challenge(&children, &challenge.inputs.clone(), &challenge),
        Ok(false)
    );
}

#[test]
fn or_challenge_admits_conjunction_of_negations() {
    let children = vec![vec![0x01u8], vec![0x02u8]];
    let not_first = Property {
        predicate: Address(NOT_PREDICATE_ADDRESS),
        inputs: vec![vec![0x01u8]],
    };
    let not_second = Property {
        predicate: Address(NOT_PREDICATE_ADDRESS),
        inputs: vec![vec![0x02u8]],
    };
    let challenge = Property {
        predicate: Address(ovmi::predicates::AND_PREDICATE_ADDRESS),
        inputs: vec![encode_property(&not_first), encode_property(&not_second)],
    };
    assert_eq!(
        OrPredicate::is_valid_challenge(&children, &challenge.inputs.clone(), &challenge),
        Ok(true)
    );
}

#[test]
fn or_challenge_rejects_reordered_negations() {
    let children = vec![vec![0x01u8], vec![0x02u8]];
    let not_first = Property {
        predicate: Address(NOT_PREDICATE_ADDRESS),
        inputs: vec![vec![0x01u8]],
    };
    let not_second = Property {
        predicate: Address(NOT_PREDICATE_ADDRESS),
        inputs: vec![vec![0x02u8]],
    };
    let challenge = Property {
        predicate: Address(ovmi::predicates::AND_PREDICATE_ADDRESS),
        inputs: vec![encode_property(&not_second), encode_property(&not_first)],
    };
    assert_eq!(
        OrPredicate::is_valid_challenge(&children, &challenge.inputs.clone(), &challenge),
        Ok(false)
    );
}
