use crate::error::SolverException;
use crate::simulation::Action;
use vstd::prelude::*;

verus! {

/// What a running solver reports.
#[derive(Clone, Debug, PartialEq, Eq)]
pub enum SolverEvent {
    /// The number of nodes that the search has visited.
    NodesVisited(usize),
    /// The best macro so far.
    Actions(Vec<Action>),
    /// The macro was taken from the saved ones.
    LoadedFromHistory,
    /// The solver is done, with an error or without.
    Finished(Option<SolverException>),
}

/// What is known of the solve that runs or ran last.
#[derive(Clone, Debug, PartialEq, Eq)]
pub struct SolveStatus {
    pub actions: Vec<Action>,
    pub solver_pending: bool,
    pub solver_progress: usize,
    pub solver_error: Option<SolverException>,
}

/// What a batch of events asks the application to do.
#[derive(Clone, Copy, Debug, PartialEq, Eq, Structural)]
pub struct EventOutcome {
    /// A solver finished: the clock is to be stopped and the interrupt signal
    /// to be lowered.
    pub finished: bool,
    /// A solver finished without an error: its macro is to be saved.
    pub submit_new_rotation: bool,
}

/// The status after one event.
pub open spec fn status_after(status: SolveStatus, event: SolverEvent) -> SolveStatus {
    match event {
        SolverEvent::NodesVisited(count) => SolveStatus { solver_progress: count, ..status },
        SolverEvent::Actions(actions) => SolveStatus { actions, ..status },
        SolverEvent::LoadedFromHistory => SolveStatus { solver_progress: usize::MAX, ..status },
        SolverEvent::Finished(exception) => SolveStatus {
            solver_pending: false,
            solver_error: if exception is Some {
                exception
            } else {
                status.solver_error
            },
            ..status
        },
    }
}

/// The status after the first `count` events.
pub open spec fn status_after_all(
    status: SolveStatus,
    events: Seq<SolverEvent>,
    count: int,
) -> SolveStatus
    decreases count,
{
    if count <= 0 {
        status
    } else {
        status_after(status_after_all(status, events, count - 1), events[count - 1])
    }
}

/// One of the first `count` events says that a solver finished.
pub open spec fn any_finished(events: Seq<SolverEvent>, count: int) -> bool {
    exists|i: int| 0 <= i < count && (#[trigger] events[i]) is Finished
}

/// One of the first `count` events says that a solver finished without an error.
pub open spec fn any_succeeded(events: Seq<SolverEvent>, count: int) -> bool {
    exists|i: int| 0 <= i < count && (#[trigger] events[i]) == SolverEvent::Finished(None)
}

impl SolveStatus {
    /// Nothing solved yet.
    pub fn new() -> (r: SolveStatus)
        ensures
            r.actions@.len() == 0,
            !r.solver_pending,
            r.solver_progress == 0,
            r.solver_error is None,
    {
        SolveStatus {
            actions: Vec::new(),
            solver_pending: false,
            solver_progress: 0,
            solver_error: None,
        }
    }

    /// Takes the events in, in their order.
    pub fn process_solver_events(&mut self, mut events: Vec<SolverEvent>) -> (outcome: EventOutcome)
        ensures
            *final(self) == status_after_all(*old(self), events@, events@.len() as int),
            outcome.finished == any_finished(events@, events@.len() as int),
            outcome.submit_new_rotation == any_succeeded(events@, events@.len() as int),
    {
        let ghost all = events@;
        let mut outcome = EventOutcome { finished: false, submit_new_rotation: false };
        // The events are moved out from the back, so the list is turned round first.
        let mut reversed: Vec<SolverEvent> = Vec::new();
        while events.len() > 0
            invariant
                events.len() + reversed.len() == all.len(),
                events@ == all.subrange(0, events.len() as int),
                forall|i: int|
                    0 <= i < reversed.len() ==> #[trigger] reversed[i] == all[all.len() - 1 - i],
            decreases events.len(),
        {
            let ghost n = events.len() - 1;
            let ghost rest = events@;
            let event = events.pop().unwrap();
            proof {
                assert(rest[n] == all[n]);
                assert(events@ =~= all.subrange(0, n));
            }
            reversed.push(event);
        }
        let ghost mut done: int = 0;
        while reversed.len() > 0
            invariant
                0 <= done <= all.len(),
                reversed.len() + done == all.len(),
                forall|i: int|
                    0 <= i < reversed.len() ==> #[trigger] reversed[i] == all[all.len() - 1 - i],
                *self == status_after_all(*old(self), all, done),
                outcome.finished == any_finished(all, done),
                outcome.submit_new_rotation == any_succeeded(all, done),
            decreases reversed.len(),
        {
            let ghost last = reversed.len() - 1;
            let event = reversed.pop().unwrap();
            proof {
                assert(event == all[done]);
                assert(any_finished(all, done + 1) == (any_finished(all, done) || all[done]
                    is Finished)) by {
                    if any_finished(all, done + 1) {
                        let i = choose|i: int| 0 <= i < done + 1 && (#[trigger] all[i]) is Finished;
                        if i < done {
                            assert(any_finished(all, done));
                        }
                    }
                    if any_finished(all, done) {
                        let i = choose|i: int| 0 <= i < done && (#[trigger] all[i]) is Finished;
                        assert(all[i] is Finished);
                    }
                }
                assert(any_succeeded(all, done + 1) == (any_succeeded(all, done) || all[done]
                    == SolverEvent::Finished(None))) by {
                    if any_succeeded(all, done + 1) {
                        let i = choose|i: int|
                            0 <= i < done + 1 && (#[trigger] all[i]) == SolverEvent::Finished(None);
                        if i < done {
                            assert(any_succeeded(all, done));
                        }
                    }
                    if any_succeeded(all, done) {
                        let i = choose|i: int|
                            0 <= i < done && (#[trigger] all[i]) == SolverEvent::Finished(None);
                        assert(all[i] == SolverEvent::Finished(None));
                    }
                }
            }
            match event {
                SolverEvent::NodesVisited(count) => {
                    self.solver_progress = count;
                },
                SolverEvent::Actions(actions) => {
                    self.actions = actions;
                },
                SolverEvent::LoadedFromHistory => {
                    self.solver_progress = usize::MAX;
                },
                SolverEvent::Finished(exception) => {
                    self.solver_pending = false;
                    outcome.finished = true;
                    if exception.is_none() {
                        outcome.submit_new_rotation = true;
                    } else {
                        self.solver_error = exception;
                    }
                },
            }
            proof {
                done = done + 1;
            }
        }
        outcome
    }
}

} // verus!
