use matrix_migrate::orchestrator::{FatalError, Orchestrator, RunEvent, RunPhase};

fn phases(leave_rooms: bool, events: &[RunEvent]) -> Vec<RunPhase> {
    let mut run = Orchestrator::new(leave_rooms);
    let mut seen = vec![run.phase()];
    for event in events {
        seen.push(run.step(*event));
    }
    seen
}

#[test]
fn run_without_leaving() {
    let ok = RunEvent::Succeeded;
    assert_eq!(
        phases(false, &[ok, ok, ok, ok, ok, ok]),
        vec![
            RunPhase::LoginSource,
            RunPhase::LoginDestination,
            RunPhase::InitialSync,
            RunPhase::Reconcile,
            RunPhase::Converge,
            RunPhase::Logout,
            RunPhase::Done,
        ]
    );
}

#[test]
fn run_with_leaving() {
    let ok = RunEvent::Succeeded;
    assert_eq!(
        phases(true, &[ok, ok, ok, ok, ok, ok, ok, ok, ok]),
        vec![
            RunPhase::LoginSource,
            RunPhase::LoginDestination,
            RunPhase::InitialSync,
            RunPhase::Reconcile,
            RunPhase::Converge,
            RunPhase::Resync,
            RunPhase::Leave,
            RunPhase::Logout,
            RunPhase::Done,
            RunPhase::Done,
        ]
    );
}

#[test]
fn login_failure_is_fatal() {
    let mut run = Orchestrator::new(true);
    assert_eq!(run.exit_code(), None);
    assert_eq!(run.step(RunEvent::Failed), RunPhase::Aborted(FatalError::Login));
    assert_eq!(run.exit_code(), Some(1));
    assert_eq!(run.step(RunEvent::Succeeded), RunPhase::Aborted(FatalError::Login));
    let mut run = Orchestrator::new(false);
    run.step(RunEvent::Succeeded);
    assert_eq!(run.step(RunEvent::Failed), RunPhase::Aborted(FatalError::Login));
}

#[test]
fn initial_sync_failure_is_fatal() {
    let ok = RunEvent::Succeeded;
    let bad = RunEvent::Failed;
    assert_eq!(
        phases(false, &[ok, ok, bad]).last(),
        Some(&RunPhase::Aborted(FatalError::InitialSync))
    );
    assert_eq!(
        phases(false, &[ok, ok, ok, bad]).last(),
        Some(&RunPhase::Aborted(FatalError::InitialSync))
    );
}

#[test]
fn later_failures_do_not_abort() {
    let ok = RunEvent::Succeeded;
    let bad = RunEvent::Failed;
    assert_eq!(phases(true, &[ok, ok, ok, ok, bad]).last(), Some(&RunPhase::Logout));
    assert_eq!(phases(true, &[ok, ok, ok, ok, ok, bad]).last(), Some(&RunPhase::Logout));
    assert_eq!(phases(true, &[ok, ok, ok, ok, ok, ok, bad]).last(), Some(&RunPhase::Logout));
    assert_eq!(phases(true, &[ok, ok, ok, ok, ok, ok, bad, bad]).last(), Some(&RunPhase::Done));
}

#[test]
fn finished_run_exits_with_zero() {
    let mut run = Orchestrator::new(false);
    for _ in 0..6 {
        assert_eq!(run.exit_code(), None);
        run.step(RunEvent::Succeeded);
    }
    assert_eq!(run.phase(), RunPhase::Done);
    assert_eq!(run.exit_code(), Some(0));
}
