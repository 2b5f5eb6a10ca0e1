use step_lb_solver::bounds::best_quality;
use step_lb_solver::effects::Effects;
use step_lb_solver::pareto::ParetoValue;
use step_lb_solver::reduced_state::ReducedState;
use step_lb_solver::solved_states::{KeySet, SolvedStates};

fn state(budget: u8, durability: u16) -> ReducedState {
    ReducedState { steps_budget: budget, durability, effects: Effects::new().with_inner_quiet(2) }
}

#[test]
fn new_table_holds_nothing() {
    let table = SolvedStates::new();
    assert_eq!(table.get(&state(1, 10)), None);
    assert_eq!(table.len(), 0);
    assert_eq!(table.total_len(), 0);
}

#[test]
fn table_returns_what_was_stored_under_the_state() {
    let mut table = SolvedStates::new();
    let first = vec![ParetoValue::new(1, 9), ParetoValue::new(4, 2)];
    let second = vec![ParetoValue::new(7, 7)];
    table.insert(state(1, 10), first.clone());
    table.insert(state(2, 10), second.clone());
    assert_eq!(table.get(&state(1, 10)), Some(&first));
    assert_eq!(table.get(&state(2, 10)), Some(&second));
    assert_eq!(table.get(&state(1, 20)), None);
    assert_eq!(table.get(&state(3, 10)), None);
    let other_effects = ReducedState { effects: Effects::new(), ..state(1, 10) };
    assert_eq!(table.get(&other_effects), None);
    assert_eq!(table.len(), 2);
    assert_eq!(table.total_len(), 3);
}

#[test]
fn key_set_tells_new_keys_from_old_ones() {
    let mut keys = KeySet::new();
    assert!(keys.insert(5));
    assert!(keys.insert(6));
    assert!(!keys.insert(5));
    assert!(keys.insert(u64::MAX));
    assert!(!keys.insert(u64::MAX));
    assert!(!keys.insert(6));
}

#[test]
fn best_quality_is_that_of_the_first_point_with_enough_progress() {
    let front = vec![
        ParetoValue::new(10, 90),
        ParetoValue::new(20, 70),
        ParetoValue::new(30, 60),
        ParetoValue::new(50, 20),
    ];
    assert_eq!(best_quality(&front, 0), Some(90));
    assert_eq!(best_quality(&front, 10), Some(90));
    assert_eq!(best_quality(&front, 11), Some(70));
    assert_eq!(best_quality(&front, 30), Some(60));
    assert_eq!(best_quality(&front, 31), Some(20));
    assert_eq!(best_quality(&front, 50), Some(20));
    assert_eq!(best_quality(&front, 51), None);
    assert_eq!(best_quality(&Vec::new(), 0), None);
}
