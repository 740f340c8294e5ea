use ovmi::adapter::MemoryAdapter;
use ovmi::errors::Decision;
use ovmi::errors::ExecError;
use ovmi::property::Address;

#[test]
fn adapter_reports_own_address() {
    let adapter = MemoryAdapter::new(Address(42));
    assert_eq!(adapter.ext_address(), Address(42));
}

#[test]
fn fresh_game_is_undecided() {
    let adapter = MemoryAdapter::new(Address(1));
    assert_eq!(adapter.ext_get_predicate_decision(&vec![0x01]), Decision::Undecided);
}

#[test]
fn decision_write_and_read_back() {
    let mut adapter = MemoryAdapter::new(Address(1));
    let id = vec![0xaau8, 0xbb];
    assert_eq!(adapter.ext_set_predicate_decision(&id, true), Ok(()));
    assert_eq!(adapter.ext_get_predicate_decision(&id), Decision::True);
    let other = vec![0xaau8];
    assert_eq!(adapter.ext_get_predicate_decision(&other), Decision::Undecided);
}

#[test]
fn decision_finality_same_value_is_idempotent() {
    let mut adapter = MemoryAdapter::new(Address(1));
    let id = vec![0x01u8];
    assert_eq!(adapter.ext_set_predicate_decision(&id, false), Ok(()));
    assert_eq!(adapter.ext_set_predicate_decision(&id, false), Ok(()));
    assert_eq!(adapter.ext_get_predicate_decision(&id), Decision::False);
}

#[test]
fn decision_finality_opposite_value_conflicts() {
    let mut adapter = MemoryAdapter::new(Address(1));
    let id = vec![0x01u8];
    assert_eq!(adapter.ext_set_predicate_decision(&id, true), Ok(()));
    assert_eq!(
        adapter.ext_set_predicate_decision(&id, false),
        Err(ExecError::StorageConflict)
    );
    assert_eq!(adapter.ext_get_predicate_decision(&id), Decision::True);
    assert_eq!(adapter.ext_set_predicate_decision(&id, true), Ok(()));
}

#[test]
fn decisions_are_independent_per_game() {
    let mut adapter = MemoryAdapter::new(Address(1));
    assert_eq!(adapter.ext_set_predicate_decision(&vec![0x01], true), Ok(()));
    assert_eq!(adapter.ext_set_predicate_decision(&vec![0x02], false), Ok(()));
    assert_eq!(adapter.ext_get_predicate_decision(&vec![0x01]), Decision::True);
    assert_eq!(adapter.ext_get_predicate_decision(&vec![0x02]), Decision::False);
}
