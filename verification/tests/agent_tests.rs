use trsh::backconnect::{
    backconnect_step, AgentConfig, ConnectOutcome, LoopDirective, SessionAction, SLEEP_MAX,
    SLEEP_MIN,
};
use trsh::pty::{
    pty_step, shell_session_plan, PtyEffect, PtyEvent, PtyState, TermAction, WindowSize,
};

#[test]
fn single_shot_exits_after_one_attempt() {
    let cfg = AgentConfig { single_shot: true };
    let (action, directive) = backconnect_step(&cfg, ConnectOutcome::Connected);
    assert_eq!(action, SessionAction::HandleInline);
    assert_eq!(directive, LoopDirective::ExitSuccess);

    let (action, directive) = backconnect_step(&cfg, ConnectOutcome::ConnectFailed);
    assert_eq!(action, SessionAction::LogFailure);
    assert_eq!(directive, LoopDirective::ExitSuccess);
}

#[test]
fn persistent_mode_spawns_and_keeps_dialing() {
    let cfg = AgentConfig { single_shot: false };
    let (action, directive) = backconnect_step(&cfg, ConnectOutcome::Connected);
    assert_eq!(action, SessionAction::SpawnHandler);
    assert!(matches!(directive, LoopDirective::SleepThenRetry(_)));
}

#[test]
fn persistent_retries_are_jittered_and_never_exit() {
    let cfg = AgentConfig { single_shot: false };
    for _ in 0..200 {
        let (action, directive) = backconnect_step(&cfg, ConnectOutcome::ConnectFailed);
        assert_eq!(action, SessionAction::LogFailure);
        match directive {
            LoopDirective::SleepThenRetry(d) => {
                assert!(SLEEP_MIN <= d && d < SLEEP_MAX);
            }
            LoopDirective::ExitSuccess => panic!("persistent mode must never exit"),
        }
    }
}

#[test]
fn pty_session_walks_its_lifecycle() {
    let size = WindowSize { width: 80, height: 24 };
    assert_eq!(size.width, 80);
    assert_eq!(size.height, 24);

    let (s, e) = pty_step(PtyState::Requested, PtyEvent::AllocSucceeded).unwrap();
    assert_eq!((s, e), (PtyState::Allocated, PtyEffect::SpawnShell));
    let (s, e) = pty_step(s, PtyEvent::SpawnSucceeded).unwrap();
    assert_eq!((s, e), (PtyState::Running, PtyEffect::BridgeAndWait));
    let (s, e) = pty_step(s, PtyEvent::ChildExited).unwrap();
    assert_eq!((s, e), (PtyState::Closed, PtyEffect::ReleaseAndReport));
}

#[test]
fn pty_failures_are_fatal() {
    let r = pty_step(PtyState::Requested, PtyEvent::AllocFailed).unwrap();
    assert_eq!(r, (PtyState::Closed, PtyEffect::FatalError));
    let r = pty_step(PtyState::Allocated, PtyEvent::SpawnFailed).unwrap();
    assert_eq!(r, (PtyState::Closed, PtyEffect::FatalError));
}

#[test]
fn pty_rejects_impossible_events() {
    assert_eq!(pty_step(PtyState::Requested, PtyEvent::ChildExited), None);
    assert_eq!(pty_step(PtyState::Closed, PtyEvent::AllocSucceeded), None);
}

#[test]
fn raw_shell_plan_always_restores_last() {
    let plan = shell_session_plan(true);
    assert_eq!(
        plan,
        vec![TermAction::SetRaw, TermAction::Bridge, TermAction::RestoreSane]
    );
    assert_eq!(plan.last(), Some(&TermAction::RestoreSane));

    let plan = shell_session_plan(false);
    assert_eq!(plan, vec![TermAction::Bridge]);
}
