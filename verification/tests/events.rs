use step_lb_solver::error::SolverException;
use step_lb_solver::events::{EventOutcome, SolveStatus, SolverEvent};
use step_lb_solver::simulation::Action;
use step_lb_solver::text::nodes_visited_text;

fn macro_of(ids: &[u8]) -> Vec<Action> {
    ids.iter().map(|id| Action { id: *id }).collect()
}

#[test]
fn no_event_changes_nothing() {
    let mut status = SolveStatus::new();
    status.solver_pending = true;
    let before = status.clone();
    let outcome = status.process_solver_events(Vec::new());
    assert_eq!(outcome, EventOutcome { finished: false, submit_new_rotation: false });
    assert_eq!(status, before);
}

#[test]
fn events_are_taken_in_their_order() {
    let mut status = SolveStatus::new();
    status.solver_pending = true;
    let outcome = status.process_solver_events(vec![
        SolverEvent::NodesVisited(10),
        SolverEvent::Actions(macro_of(&[1, 2])),
        SolverEvent::NodesVisited(25),
        SolverEvent::Actions(macro_of(&[3])),
    ]);
    assert_eq!(outcome, EventOutcome { finished: false, submit_new_rotation: false });
    assert_eq!(status.solver_progress, 25);
    assert_eq!(status.actions, macro_of(&[3]));
    assert!(status.solver_pending);
    assert_eq!(status.solver_error, None);
}

#[test]
fn a_solver_that_finishes_well_submits_its_macro() {
    let mut status = SolveStatus::new();
    status.solver_pending = true;
    let outcome = status.process_solver_events(vec![
        SolverEvent::Actions(macro_of(&[4, 5, 6])),
        SolverEvent::Finished(None),
    ]);
    assert_eq!(outcome, EventOutcome { finished: true, submit_new_rotation: true });
    assert!(!status.solver_pending);
    assert_eq!(status.solver_error, None);
    assert_eq!(status.actions, macro_of(&[4, 5, 6]));
}

#[test]
fn a_solver_that_fails_leaves_its_error() {
    let mut status = SolveStatus::new();
    status.solver_pending = true;
    status.actions = macro_of(&[9]);
    let outcome = status.process_solver_events(vec![
        SolverEvent::NodesVisited(7),
        SolverEvent::Finished(Some(SolverException::NoSolution)),
    ]);
    assert_eq!(outcome, EventOutcome { finished: true, submit_new_rotation: false });
    assert!(!status.solver_pending);
    assert_eq!(status.solver_error, Some(SolverException::NoSolution));
    assert_eq!(status.actions, macro_of(&[9]));
    assert_eq!(status.solver_progress, 7);
    // An earlier error stays where a later solver finishes well.
    let outcome = status.process_solver_events(vec![SolverEvent::Finished(None)]);
    assert_eq!(outcome, EventOutcome { finished: true, submit_new_rotation: true });
    assert_eq!(status.solver_error, Some(SolverException::NoSolution));
}

#[test]
fn a_macro_from_history_marks_the_progress() {
    let mut status = SolveStatus::new();
    let outcome = status.process_solver_events(vec![
        SolverEvent::Actions(macro_of(&[1])),
        SolverEvent::LoadedFromHistory,
        SolverEvent::Finished(None),
    ]);
    assert_eq!(outcome, EventOutcome { finished: true, submit_new_rotation: true });
    assert_eq!(status.solver_progress, usize::MAX);
}

#[test]
fn nodes_are_counted_in_groups_of_three_digits() {
    assert_eq!(nodes_visited_text(0), "0 nodes visited");
    assert_eq!(nodes_visited_text(999), "999 nodes visited");
    assert_eq!(nodes_visited_text(1000), "1,000 nodes visited");
    assert_eq!(nodes_visited_text(1234567), "1,234,567 nodes visited");
    assert_eq!(nodes_visited_text(1000000), "1,000,000 nodes visited");
    assert_eq!(nodes_visited_text(10203), "10,203 nodes visited");
    assert_eq!(nodes_visited_text(4294967296), "4,294,967,296 nodes visited");
}
