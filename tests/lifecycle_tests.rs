use ip_stats::reporter::{ReporterAction, ReporterEvent, ReporterState};
use ip_stats::shutdown::{Actions, Coordinator, CoordinatorEvent, Phase, Subsystem, TaskOutcome};

#[test]
fn reporter_reports_on_tick_and_survives_failures() {
    let mut r = ReporterState::Running;
    assert_eq!(r.step(ReporterEvent::Tick), ReporterAction::EmitReport);
    assert_eq!(r.step(ReporterEvent::EmitFailed), ReporterAction::LogFailure);
    assert_eq!(r, ReporterState::Running);
    assert_eq!(r.step(ReporterEvent::Tick), ReporterAction::EmitReport);
}

#[test]
fn reporter_stops_on_cancel_without_a_report() {
    let mut r = ReporterState::Running;
    assert_eq!(r.step(ReporterEvent::Tick), ReporterAction::EmitReport);
    assert_eq!(r.step(ReporterEvent::Cancelled), ReporterAction::Exit);
    assert_eq!(r, ReporterState::Stopped);
    assert_eq!(r.step(ReporterEvent::Tick), ReporterAction::Idle);
    assert_eq!(r.step(ReporterEvent::Cancelled), ReporterAction::Idle);
}

fn exited(sub: Subsystem, o: TaskOutcome) -> CoordinatorEvent {
    CoordinatorEvent::Exited(sub, o)
}

#[test]
fn trigger_fires_signal_and_cancels_reporter() {
    let mut c = Coordinator::new();
    assert_eq!(c.phase, Phase::Armed);
    let a = c.step(CoordinatorEvent::Trigger);
    assert_eq!(
        a,
        Actions { fire_signal: true, cancel_reporter: true, outcome: None, complete: false }
    );
    assert_eq!(c.phase, Phase::Draining);
}

#[test]
fn completion_waits_for_slow_transport() {
    let mut c = Coordinator::new();
    c.step(CoordinatorEvent::Trigger);
    let a = c.step(exited(Subsystem::Reporter, TaskOutcome::Crashed));
    assert_eq!(a.outcome, Some((Subsystem::Reporter, TaskOutcome::Crashed)));
    assert!(!a.complete);
    assert_eq!(c.phase, Phase::Draining);
    let a = c.step(exited(Subsystem::Transport, TaskOutcome::Finished));
    assert_eq!(a.outcome, Some((Subsystem::Transport, TaskOutcome::Finished)));
    assert!(a.complete);
    assert_eq!(c.phase, Phase::Stopped);
}

#[test]
fn completion_waits_for_slow_reporter() {
    let mut c = Coordinator::new();
    c.step(CoordinatorEvent::Trigger);
    let a = c.step(exited(Subsystem::Transport, TaskOutcome::Failed));
    assert!(!a.complete);
    let a = c.step(exited(Subsystem::Transport, TaskOutcome::Failed));
    assert_eq!(a.outcome, None);
    assert!(!a.complete);
    let a = c.step(exited(Subsystem::Reporter, TaskOutcome::Finished));
    assert!(a.complete);
    assert_eq!(c.phase, Phase::Stopped);
}

#[test]
fn no_completion_before_trigger() {
    let mut c = Coordinator::new();
    assert!(!c.step(exited(Subsystem::Transport, TaskOutcome::Failed)).complete);
    assert!(!c.step(exited(Subsystem::Reporter, TaskOutcome::Finished)).complete);
    assert_eq!(c.phase, Phase::Armed);
    let a = c.step(CoordinatorEvent::Trigger);
    assert!(a.fire_signal);
    assert!(!a.cancel_reporter);
    assert!(a.complete);
}

#[test]
fn second_trigger_does_not_fire_again() {
    let mut c = Coordinator::new();
    assert!(c.step(CoordinatorEvent::Trigger).fire_signal);
    let a = c.step(CoordinatorEvent::Trigger);
    assert_eq!(
        a,
        Actions { fire_signal: false, cancel_reporter: false, outcome: None, complete: false }
    );
    c.step(exited(Subsystem::Reporter, TaskOutcome::Finished));
    c.step(exited(Subsystem::Transport, TaskOutcome::Finished));
    assert_eq!(c.phase, Phase::Stopped);
    let a = c.step(CoordinatorEvent::Trigger);
    assert!(!a.fire_signal);
    assert!(!a.complete);
}
