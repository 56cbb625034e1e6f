use vstd::prelude::*;

verus! {

/// Where the coordinator stands in the shutdown sequence.
#[derive(Clone, Copy, Debug, PartialEq, Eq)]
pub enum Phase {
    /// Waiting for a termination trigger.
    Armed,
    /// Triggered; waiting for the reporter and the transport to end.
    Draining,
    /// Both subsystems have ended after the trigger.
    Stopped,
}

/// A background activity whose end the coordinator waits for.
#[derive(Clone, Copy, Debug, PartialEq, Eq)]
pub enum Subsystem {
    Reporter,
    Transport,
}

/// How a background activity ended.
#[derive(Clone, Copy, Debug, PartialEq, Eq)]
pub enum TaskOutcome {
    /// It returned normally.
    Finished,
    /// It returned an error of its own.
    Failed,
    /// It ended abnormally (a panic, or its task was torn down).
    Crashed,
}

/// What the coordinator observes.
#[derive(Clone, Copy, Debug, PartialEq, Eq)]
pub enum CoordinatorEvent {
    /// An interrupt or terminate signal arrived.
    Trigger,
    /// A subsystem ended, in the given way.
    Exited(Subsystem, TaskOutcome),
}

/// What the coordinator asks for in answer to one event.
#[derive(Clone, Copy, Debug, PartialEq, Eq)]
pub struct Actions {
    /// Send the one-shot shutdown signal to the transport.
    pub fire_signal: bool,
    /// Ask the reporter to stop.
    pub cancel_reporter: bool,
    /// Report how a subsystem ended.
    pub outcome: Option<(Subsystem, TaskOutcome)>,
    /// Report that the shutdown is complete; the process may exit.
    pub complete: bool,
}

/// The shutdown coordinator's state.
#[derive(Clone, Copy, Debug, PartialEq, Eq)]
pub struct Coordinator {
    pub phase: Phase,
    pub reporter_done: bool,
    pub transport_done: bool,
}

/// Asking for nothing.
pub open spec fn no_actions() -> Actions {
    Actions { fire_signal: false, cancel_reporter: false, outcome: None, complete: false }
}

/// The coordinator before any event.
pub open spec fn initial_coordinator() -> Coordinator {
    Coordinator { phase: Phase::Armed, reporter_done: false, transport_done: false }
}

/// Whether `sub` has been seen to end in state `c`.
pub open spec fn is_done(c: Coordinator, sub: Subsystem) -> bool {
    match sub {
        Subsystem::Reporter => c.reporter_done,
        Subsystem::Transport => c.transport_done,
    }
}

/// One transition of the coordinator.
///
/// The first trigger fires the shutdown signal and cancels the reporter
/// (unless it has already ended); later triggers change nothing. Each
/// subsystem's first end is reported; the shutdown completes when, after the
/// trigger, both have ended.
pub open spec fn coordinator_next(c: Coordinator, e: CoordinatorEvent) -> (Coordinator, Actions) {
    match e {
        CoordinatorEvent::Trigger => {
            if c.phase is Armed {
                let both = c.reporter_done && c.transport_done;
                (
                    Coordinator {
                        phase: if both {
                            Phase::Stopped
                        } else {
                            Phase::Draining
                        },
                        ..c
                    },
                    Actions {
                        fire_signal: true,
                        cancel_reporter: !c.reporter_done,
                        outcome: None,
                        complete: both,
                    },
                )
            } else {
                (c, no_actions())
            }
        },
        CoordinatorEvent::Exited(sub, o) => {
            if is_done(c, sub) {
                (c, no_actions())
            } else {
                let c2 = match sub {
                    Subsystem::Reporter => Coordinator { reporter_done: true, ..c },
                    Subsystem::Transport => Coordinator { transport_done: true, ..c },
                };
                let done = c2.phase is Draining && c2.reporter_done && c2.transport_done;
                (
                    if done {
                        Coordinator { phase: Phase::Stopped, ..c2 }
                    } else {
                        c2
                    },
                    Actions {
                        fire_signal: false,
                        cancel_reporter: false,
                        outcome: Some((sub, o)),
                        complete: done,
                    },
                )
            }
        },
    }
}

impl Coordinator {
    /// A coordinator waiting for its trigger.
    pub fn new() -> (r: Coordinator)
        ensures
            r == initial_coordinator(),
    {
        Coordinator { phase: Phase::Armed, reporter_done: false, transport_done: false }
    }

    /// Takes one event and returns what to do about it.
    pub fn step(&mut self, event: CoordinatorEvent) -> (a: Actions)
        ensures
            (*final(self), a) == coordinator_next(*old(self), event),
    {
        match event {
            CoordinatorEvent::Trigger => {
                match self.phase {
                    Phase::Armed => {
                        let both = self.reporter_done && self.transport_done;
                        self.phase = if both {
                            Phase::Stopped
                        } else {
                            Phase::Draining
                        };
                        Actions {
                            fire_signal: true,
                            cancel_reporter: !self.reporter_done,
                            outcome: None,
                            complete: both,
                        }
                    },
                    _ => Actions {
                        fire_signal: false,
                        cancel_reporter: false,
                        outcome: None,
                        complete: false,
                    },
                }
            },
            CoordinatorEvent::Exited(sub, o) => {
                let already = match sub {
                    Subsystem::Reporter => self.reporter_done,
                    Subsystem::Transport => self.transport_done,
                };
                if already {
                    Actions { fire_signal: false, cancel_reporter: false, outcome: None, complete: false }
                } else {
                    match sub {
                        Subsystem::Reporter => self.reporter_done = true,
                        Subsystem::Transport => self.transport_done = true,
                    }
                    let draining = match self.phase {
                        Phase::Draining => true,
                        _ => false,
                    };
                    let done = draining && self.reporter_done && self.transport_done;
                    if done {
                        self.phase = Phase::Stopped;
                    }
                    Actions {
                        fire_signal: false,
                        cancel_reporter: false,
                        outcome: Some((sub, o)),
                        complete: done,
                    }
                }
            },
        }
    }
}

/// The coordinator's state after the events `es`, from the start.
pub open spec fn run_coordinator(es: Seq<CoordinatorEvent>) -> Coordinator
    decreases es.len(),
{
    if es.len() == 0 {
        initial_coordinator()
    } else {
        coordinator_next(run_coordinator(es.drop_last()), es.last()).0
    }
}

/// What the coordinator asks for in answer to the last of the events `es`.
pub open spec fn last_actions(es: Seq<CoordinatorEvent>) -> Actions
    recommends
        es.len() > 0,
{
    coordinator_next(run_coordinator(es.drop_last()), es.last()).1
}

/// How many times the shutdown signal is fired over the events `es`.
pub open spec fn times_fired(es: Seq<CoordinatorEvent>) -> nat
    decreases es.len(),
{
    if es.len() == 0 {
        0
    } else {
        times_fired(es.drop_last()) + if last_actions(es).fire_signal {
            1nat
        } else {
            0nat
        }
    }
}

/// How many times completion is reported over the events `es`.
pub open spec fn times_completed(es: Seq<CoordinatorEvent>) -> nat
    decreases es.len(),
{
    if es.len() == 0 {
        0
    } else {
        times_completed(es.drop_last()) + if last_actions(es).complete {
            1nat
        } else {
            0nat
        }
    }
}

/// Some event of `es` is a trigger.
pub open spec fn saw_trigger(es: Seq<CoordinatorEvent>) -> bool {
    exists|i: int| 0 <= i < es.len() && #[trigger] es[i] is Trigger
}

/// Some event of `es` is the end of `sub`.
pub open spec fn saw_exit(es: Seq<CoordinatorEvent>, sub: Subsystem) -> bool {
    exists|i: int| 0 <= i < es.len() && #[trigger] es[i] is Exited && es[i]->0 == sub
}

proof fn lemma_saw_last(es: Seq<CoordinatorEvent>, sub: Subsystem)
    requires
        es.len() > 0,
    ensures
        saw_trigger(es) == (saw_trigger(es.drop_last()) || es.last() is Trigger),
        saw_exit(es, sub) == (saw_exit(es.drop_last(), sub) || (es.last() is Exited
            && es.last()->0 == sub)),
{
    let p = es.drop_last();
    let n = es.len() - 1;
    if saw_trigger(es) {
        let i = choose|i: int| 0 <= i < es.len() && #[trigger] es[i] is Trigger;
        if i < n {
            assert(p[i] == es[i]);
        }
    }
    if saw_trigger(p) {
        let i = choose|i: int| 0 <= i < p.len() && #[trigger] p[i] is Trigger;
        assert(es[i] == p[i]);
    }
    if es.last() is Trigger {
        assert(es[n] is Trigger);
    }
    if saw_exit(es, sub) {
        let i = choose|i: int| 0 <= i < es.len() && #[trigger] es[i] is Exited && es[i]->0 == sub;
        if i < n {
            assert(p[i] == es[i]);
        }
    }
    if saw_exit(p, sub) {
        let i = choose|i: int| 0 <= i < p.len() && #[trigger] p[i] is Exited && p[i]->0 == sub;
        assert(es[i] == p[i]);
    }
    if es.last() is Exited && es.last()->0 == sub {
        assert(es[n] is Exited);
    }
}

/// What the coordinator's state records, over any sequence of events: it has
/// left `Armed` exactly when a trigger came, it holds a subsystem as ended
/// exactly when that end was seen, and it is `Stopped` only with both ended.
pub proof fn lemma_coordinator_records(es: Seq<CoordinatorEvent>)
    ensures
        !(run_coordinator(es).phase is Armed) == saw_trigger(es),
        run_coordinator(es).reporter_done == saw_exit(es, Subsystem::Reporter),
        run_coordinator(es).transport_done == saw_exit(es, Subsystem::Transport),
        run_coordinator(es).phase is Stopped ==> run_coordinator(es).reporter_done
            && run_coordinator(es).transport_done,
        times_fired(es) == if run_coordinator(es).phase is Armed {
            0nat
        } else {
            1nat
        },
        times_completed(es) == if run_coordinator(es).phase is Stopped {
            1nat
        } else {
            0nat
        },
    decreases es.len(),
{
    if es.len() > 0 {
        lemma_coordinator_records(es.drop_last());
        lemma_saw_last(es, Subsystem::Reporter);
        lemma_saw_last(es, Subsystem::Transport);
    }
}

/// Completion is reported only once the trigger has fired and both the
/// reporter and the transport have been seen to end, whatever their order.
pub proof fn lemma_complete_after_both(es: Seq<CoordinatorEvent>)
    requires
        es.len() > 0,
        last_actions(es).complete,
    ensures
        saw_trigger(es),
        saw_exit(es, Subsystem::Reporter),
        saw_exit(es, Subsystem::Transport),
{
    lemma_coordinator_records(es);
}

/// Over any sequence of events, repeated triggers included, the one-shot
/// shutdown signal is fired at most once, and completion reported at most once.
pub proof fn lemma_fired_at_most_once(es: Seq<CoordinatorEvent>)
    ensures
        times_fired(es) <= 1,
        times_completed(es) <= 1,
{
    lemma_coordinator_records(es);
}

} // verus!
