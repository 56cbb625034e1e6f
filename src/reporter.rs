use vstd::prelude::*;

verus! {

/// Whether the periodic reporter is still at work.
#[derive(Clone, Copy, Debug, PartialEq, Eq)]
pub enum ReporterState {
    Running,
    Stopped,
}

/// What ended the reporter's latest wait, or what came of its last report.
#[derive(Clone, Copy, Debug, PartialEq, Eq)]
pub enum ReporterEvent {
    /// The reporting interval elapsed.
    Tick,
    /// Cancellation was requested.
    Cancelled,
    /// Writing the last report failed.
    EmitFailed,
}

/// What the reporter does in answer to an event.
#[derive(Clone, Copy, Debug, PartialEq, Eq)]
pub enum ReporterAction {
    /// Snapshot the store, rank it and write the report.
    EmitReport,
    /// Log that a report could not be written, and carry on.
    LogFailure,
    /// Stop, without a final report.
    Exit,
    /// Nothing.
    Idle,
}

/// One transition of the reporter: a tick reports, a failed report is logged
/// without stopping, a cancellation stops it; once stopped it does nothing.
pub open spec fn reporter_next(s: ReporterState, e: ReporterEvent) -> (ReporterState, ReporterAction) {
    match s {
        ReporterState::Running => match e {
            ReporterEvent::Tick => (ReporterState::Running, ReporterAction::EmitReport),
            ReporterEvent::EmitFailed => (ReporterState::Running, ReporterAction::LogFailure),
            ReporterEvent::Cancelled => (ReporterState::Stopped, ReporterAction::Exit),
        },
        ReporterState::Stopped => (ReporterState::Stopped, ReporterAction::Idle),
    }
}

impl ReporterState {
    /// Takes one event and returns what to do about it.
    pub fn step(&mut self, event: ReporterEvent) -> (a: ReporterAction)
        ensures
            (*final(self), a) == reporter_next(*old(self), event),
    {
        match *self {
            ReporterState::Running => match event {
                ReporterEvent::Tick => ReporterAction::EmitReport,
                ReporterEvent::EmitFailed => ReporterAction::LogFailure,
                ReporterEvent::Cancelled => {
                    *self = ReporterState::Stopped;
                    ReporterAction::Exit
                },
            },
            ReporterState::Stopped => ReporterAction::Idle,
        }
    }
}

/// The reporter's state after the events `es`, from `Running`.
pub open spec fn run_reporter(es: Seq<ReporterEvent>) -> ReporterState
    decreases es.len(),
{
    if es.len() == 0 {
        ReporterState::Running
    } else {
        reporter_next(run_reporter(es.drop_last()), es.last()).0
    }
}

/// The reporter's actions in answer to the events `es`, one per event.
pub open spec fn reporter_actions(es: Seq<ReporterEvent>) -> Seq<ReporterAction>
    decreases es.len(),
{
    if es.len() == 0 {
        Seq::empty()
    } else {
        reporter_actions(es.drop_last()).push(
            reporter_next(run_reporter(es.drop_last()), es.last()).1,
        )
    }
}

/// Once a cancellation has come, the reporter stays stopped.
proof fn lemma_stopped_after_cancel(es: Seq<ReporterEvent>, i: int)
    requires
        0 <= i < es.len(),
        es[i] is Cancelled,
    ensures
        run_reporter(es) is Stopped,
    decreases es.len(),
{
    if i < es.len() - 1 {
        assert(es.drop_last()[i] == es[i]);
        lemma_stopped_after_cancel(es.drop_last(), i);
    }
}

/// Over any sequence of events, the answer to the first cancellation is to
/// exit, and no report is written in answer to that event or any later one.
pub proof fn lemma_no_report_after_cancel(es: Seq<ReporterEvent>)
    ensures
        reporter_actions(es).len() == es.len(),
        forall|i: int, k: int|
            #![trigger es[i], reporter_actions(es)[k]]
            0 <= i <= k < es.len() && es[i] is Cancelled ==> !(reporter_actions(es)[k] is EmitReport),
        forall|i: int|
            0 <= i < es.len() && #[trigger] es[i] is Cancelled && run_reporter(es.subrange(0, i))
                is Running ==> reporter_actions(es)[i] is Exit,
    decreases es.len(),
{
    if es.len() > 0 {
        let p = es.drop_last();
        let n = es.len() - 1;
        lemma_no_report_after_cancel(p);
        assert forall|i: int, k: int|
            #![trigger es[i], reporter_actions(es)[k]]
            0 <= i <= k < es.len() && es[i] is Cancelled implies !(
            reporter_actions(es)[k] is EmitReport) by {
            if k < n {
                assert(p[i] == es[i]);
                assert(reporter_actions(es)[k] == reporter_actions(p)[k]);
            } else if i < n {
                assert(p[i] == es[i]);
                lemma_stopped_after_cancel(p, i);
            }
        }
        assert forall|i: int|
            0 <= i < es.len() && #[trigger] es[i] is Cancelled && run_reporter(es.subrange(0, i))
                is Running implies reporter_actions(es)[i] is Exit by {
            if i < n {
                assert(p[i] == es[i]);
                assert(p.subrange(0, i) =~= es.subrange(0, i));
                assert(reporter_actions(es)[i] == reporter_actions(p)[i]);
            } else {
                assert(es.subrange(0, i) =~= p);
            }
        }
    }
}

} // verus!
