use wayland_environment::environment::{Environment, MultiSlot, SingleSlot};
use wayland_environment::handlers::{SimpleGlobal, SimpleMultiGlobal};
use wayland_environment::init::{InitError, InitPhase};

type TestEnv = Environment<(), SimpleGlobal, SimpleMultiGlobal>;

fn make_env() -> TestEnv {
    let singles = vec![
        SingleSlot { interface: "compositor".to_string(), handler: SimpleGlobal::new() },
    ];
    let multis: Vec<MultiSlot<SimpleMultiGlobal>> = Vec::new();
    Environment::wrap(singles, multis, ()).expect("distinct declaration accepted")
}

#[test]
fn both_rounds_succeeding_release_the_environment() {
    let phase = InitPhase::begin().on_sync_result(true).on_sync_result(true);
    assert_eq!(phase, InitPhase::Complete);
    let env = phase.finish(make_env());
    assert!(env.is_ok());
}

#[test]
fn first_round_failure_is_fatal() {
    let phase = InitPhase::begin().on_sync_result(false);
    assert_eq!(phase, InitPhase::Failed(InitError::FirstRoundtripFailed));
    let env = phase.finish(make_env());
    assert_eq!(env.err().unwrap(), InitError::FirstRoundtripFailed);
}

#[test]
fn second_round_failure_is_fatal() {
    let phase = InitPhase::begin().on_sync_result(true).on_sync_result(false);
    assert_eq!(phase, InitPhase::Failed(InitError::SecondRoundtripFailed));
    let env = phase.finish(make_env());
    assert_eq!(env.err().unwrap(), InitError::SecondRoundtripFailed);
}

#[test]
fn a_failed_initialization_keeps_its_first_reason() {
    let phase = InitPhase::begin().on_sync_result(false).on_sync_result(true);
    assert_eq!(phase, InitPhase::Failed(InitError::FirstRoundtripFailed));
}
