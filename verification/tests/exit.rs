//! From the first step of serving to the end of the process.

use qeminga::config::{Build, Config};
use qeminga::daemon::exit::{Exit, ExitAction, ExitEvent};
use qeminga::daemon::STOP_POLL_MILLIS;
use qeminga::dispatch::Context;
use qeminga::state::{FreezeState, FreezeStateMachine};

const POLL: ExitAction = ExitAction::Poll(STOP_POLL_MILLIS);

const NOT_THAWED: [FreezeState; 3] = [
    FreezeState::Freezing,
    FreezeState::Frozen,
    FreezeState::Thawing,
];

fn serving() -> Exit {
    let mut exit = Exit::new(false, STOP_POLL_MILLIS);
    assert_eq!(
        exit.step(ExitEvent::Started, FreezeState::Thawed),
        ExitAction::Serve
    );
    exit
}

#[test]
fn recovery_is_entered_before_anything_is_served() {
    let mut exit = Exit::new(true, STOP_POLL_MILLIS);
    assert_eq!(
        exit.step(ExitEvent::Started, FreezeState::Frozen),
        ExitAction::Recover
    );
    assert_eq!(
        exit.step(ExitEvent::Recovered, FreezeState::Frozen),
        ExitAction::Serve
    );
}

#[test]
fn a_stop_is_deferred_until_thawed_and_repeated() {
    let mut exit = serving();
    assert_eq!(exit.step(ExitEvent::Signalled, FreezeState::Frozen), POLL);
    for state in NOT_THAWED {
        assert_eq!(exit.step(ExitEvent::Polled, state), POLL, "{state:?}");
    }
    assert_eq!(
        exit.step(ExitEvent::Polled, FreezeState::Thawed),
        ExitAction::RequestStop
    );
    // A freeze slipped in: the request is repeated once it is thawed.
    assert_eq!(exit.step(ExitEvent::Polled, FreezeState::Frozen), POLL);
    assert_eq!(
        exit.step(ExitEvent::Polled, FreezeState::Thawed),
        ExitAction::RequestStop
    );
    assert_eq!(
        exit.step(ExitEvent::Served, FreezeState::Thawed),
        ExitAction::Leave
    );
}

#[test]
fn a_stop_while_thawed_is_asked_for_at_once() {
    let mut exit = serving();
    assert_eq!(
        exit.step(ExitEvent::Signalled, FreezeState::Thawed),
        ExitAction::RequestStop
    );
}

#[test]
fn a_terminal_channel_error_waits_for_the_thaw() {
    for state in NOT_THAWED {
        let mut exit = serving();
        assert_eq!(exit.step(ExitEvent::Served, state), POLL, "{state:?}");
        assert_eq!(exit.step(ExitEvent::Polled, state), POLL, "{state:?}");
        assert_eq!(
            exit.step(ExitEvent::Polled, FreezeState::Thawed),
            ExitAction::Leave
        );
    }
    assert_eq!(
        serving().step(ExitEvent::Served, FreezeState::Thawed),
        ExitAction::Leave
    );
}

#[test]
fn a_stop_is_allowed_only_while_thawed() {
    let build = Build {
        seccomp: false,
        suspend_ram: false,
    };
    let ctx = |state| {
        Context::new(
            Config::default(),
            build,
            FreezeStateMachine::starting_in(state),
        )
    };
    assert!(ctx(FreezeState::Thawed).may_stop());
    for state in NOT_THAWED {
        assert!(!ctx(state).may_stop(), "{state:?}");
    }
}
