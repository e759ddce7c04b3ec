use qeminga::state::{FreezeState, FreezeStateMachine};

#[test]
fn a_freeze_and_a_thaw_go_round() {
    let mut machine = FreezeStateMachine::new();
    assert_eq!(machine.current(), FreezeState::Thawed);
    assert!(!machine.is_frozen_for_gate());
    let token = machine.begin_freeze().unwrap();
    assert_eq!(machine.current(), FreezeState::Freezing);
    assert!(machine.is_frozen_for_gate());
    assert_eq!(
        machine.begin_freeze().unwrap_err().state,
        FreezeState::Freezing
    );
    assert!(machine.claim_thaw().is_err());
    machine.freeze_succeeded(token);
    assert_eq!(machine.current(), FreezeState::Frozen);
    let token = machine.claim_thaw().unwrap();
    assert!(!token.is_recovery_drain());
    assert_eq!(machine.current(), FreezeState::Thawing);
    machine.thaw_succeeded(token);
    assert_eq!(machine.current(), FreezeState::Thawed);
}

#[test]
fn failures_lead_back() {
    let mut machine = FreezeStateMachine::new();
    let token = machine.begin_freeze().unwrap();
    machine.freeze_failed(token);
    assert_eq!(machine.current(), FreezeState::Thawed);
    let token = machine.begin_freeze().unwrap();
    let token = machine.abort_freeze(token);
    assert!(!token.is_recovery_drain());
    assert_eq!(machine.current(), FreezeState::Thawing);
    machine.thaw_failed(token);
    assert_eq!(machine.current(), FreezeState::Frozen);
}

#[test]
fn a_thaw_from_thawed_is_a_recovery_drain() {
    let mut machine = FreezeStateMachine::new();
    let token = machine.claim_thaw().unwrap();
    assert!(token.is_recovery_drain());
    machine.thaw_succeeded(token);
    let mut machine = FreezeStateMachine::starting_in(FreezeState::Thawing);
    let err = machine.claim_thaw().unwrap_err();
    assert!(err.message().contains("thawing"), "{}", err.message());
}

#[test]
fn states_have_lowercase_names() {
    for (state, name) in [
        (FreezeState::Thawed, "thawed"),
        (FreezeState::Freezing, "freezing"),
        (FreezeState::Frozen, "frozen"),
        (FreezeState::Thawing, "thawing"),
    ] {
        assert_eq!(state.as_str(), name);
        assert_eq!(state.is_frozen_for_gate(), state != FreezeState::Thawed);
    }
}
