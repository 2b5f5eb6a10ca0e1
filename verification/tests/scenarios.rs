use std::sync::atomic::{AtomicUsize, Ordering};
use std::sync::Arc;
use step_lb_solver::actions::{ActionCombo, SimulatorCore};
use step_lb_solver::effects::Effects;
use step_lb_solver::error::SolverException;
use step_lb_solver::flag::AtomicFlag;
use step_lb_solver::reduced_state::ReducedState;
use step_lb_solver::simulation::{Action, ActionMask, Settings, SimulationState, SolverSettings};
use step_lb_solver::solver::StepLbSolver;

const BASIC_SYNTHESIS: Action = Action { id: 0 };
const CAREFUL_SYNTHESIS: Action = Action { id: 1 };
const BASIC_TOUCH: Action = Action { id: 2 };
const COMBO_ACTION: Action = Action { id: 3 };

/// (progress, quality, cp, durability) of each action of the catalog.
fn action_data(action: Action) -> Option<(u32, u32, u16, u16)> {
    match action.id {
        0 => Some((30, 0, 0, 10)),
        1 => Some((45, 0, 7, 10)),
        2 => Some((0, 30, 18, 10)),
        3 => Some((50, 50, 10, 10)),
        _ => None,
    }
}

/// A simulator that knows costs and gains only: an action needs its CP and
/// some durability, and a quality action needs the state to allow it.
fn apply(_settings: &Settings, state: SimulationState, action: Action) -> Option<SimulationState> {
    let (progress, quality, cp, durability) = action_data(action)?;
    if state.cp < cp || state.durability == 0 {
        return None;
    }
    if quality > 0 && !state.effects.allow_quality_actions() {
        return None;
    }
    Some(SimulationState {
        cp: state.cp - cp,
        durability: state.durability.saturating_sub(durability),
        progress: state.progress + progress,
        quality: state.quality + quality,
        unreliable_quality: state.unreliable_quality,
        effects: state.effects,
    })
}

fn scenario_settings(
    max_progress: u16,
    max_quality: u16,
    max_durability: u16,
    actions: &[Action],
) -> SolverSettings {
    let mut mask = ActionMask::none();
    for action in actions {
        mask = mask.insert(*action);
    }
    SolverSettings {
        simulator_settings: Settings {
            max_cp: 200,
            max_durability,
            max_progress,
            max_quality,
            base_progress: 100,
            base_quality: 100,
            job_level: 100,
            allowed_action_mask: mask,
            adversarial: false,
        },
    }
}

type ApplyFn = fn(&Settings, SimulationState, Action) -> Option<SimulationState>;

fn scenario_simulator(actions: &[Action], initial_effects: Effects) -> SimulatorCore<ApplyFn> {
    SimulatorCore::new(
        actions.iter().map(|action| ActionCombo::single(*action)).collect(),
        Vec::new(),
        initial_effects,
        [0; 11],
        45,
        apply as ApplyFn,
    )
}

fn quality_allowed() -> Effects {
    Effects::new().with_allow_quality_actions(true)
}

#[test]
fn three_progress_actions_complete_the_craft() {
    let actions = [BASIC_SYNTHESIS, CAREFUL_SYNTHESIS];
    let settings = scenario_settings(100, 0, 30, &actions);
    let effects = Effects::new();
    let mut solver =
        StepLbSolver::new(settings, scenario_simulator(&actions, effects), AtomicFlag::new());
    assert_eq!(solver.precompute(), Ok(()));
    let initial = SimulationState::new(&settings.simulator_settings, effects);
    assert_eq!(solver.step_lower_bound(initial, 1), Ok(3));
}

#[test]
fn three_progress_actions_and_four_touches() {
    // Seven actions of ten durability each: the craft needs a durability of 70.
    let actions = [BASIC_SYNTHESIS, CAREFUL_SYNTHESIS, BASIC_TOUCH];
    let settings = scenario_settings(100, 100, 70, &actions);
    let effects = quality_allowed();
    let mut solver =
        StepLbSolver::new(settings, scenario_simulator(&actions, effects), AtomicFlag::new());
    assert_eq!(solver.precompute(), Ok(()));
    let initial = SimulationState::new(&settings.simulator_settings, effects);
    assert_eq!(solver.step_lower_bound(initial, 1), Ok(7));
    assert_eq!(solver.quality_upper_bound(initial, 6), Ok(Some(90)));
    assert_eq!(solver.quality_upper_bound(initial, 7), Ok(Some(100)));
}

#[test]
fn touches_do_not_fit_into_three_actions() {
    // With a durability of 30 the craft ends after three actions, so both
    // targets are out of reach whatever the step budget.
    let actions = [BASIC_SYNTHESIS, CAREFUL_SYNTHESIS, BASIC_TOUCH];
    let settings = scenario_settings(100, 100, 30, &actions);
    let effects = quality_allowed();
    let mut solver =
        StepLbSolver::new(settings, scenario_simulator(&actions, effects), AtomicFlag::new());
    assert_eq!(solver.precompute(), Ok(()));
    assert_eq!(solver.covered_layers(), 255);
    let initial = SimulationState::new(&settings.simulator_settings, effects);
    assert_eq!(solver.quality_upper_bound(initial, 3), Ok(Some(0)));
    assert_eq!(solver.quality_upper_bound(initial, 255), Ok(Some(0)));
    assert_eq!(solver.step_lower_bound(initial, 1), Ok(255));
}

#[test]
fn no_quality_action_allowed_means_out_of_reach() {
    let actions = [BASIC_SYNTHESIS, CAREFUL_SYNTHESIS];
    let settings = scenario_settings(100, 50, 30, &actions);
    let effects = Effects::new().with_allow_quality_actions(false);
    let mut solver =
        StepLbSolver::new(settings, scenario_simulator(&actions, effects), AtomicFlag::new());
    assert_eq!(solver.precompute(), Ok(()));
    let initial = SimulationState::new(&settings.simulator_settings, effects);
    assert!(!initial.effects.allow_quality_actions());
    assert_eq!(solver.step_lower_bound(initial, 1), Ok(255));
    // The answer does not depend on the tables: it is the same before them.
    let mut fresh =
        StepLbSolver::new(settings, scenario_simulator(&actions, effects), AtomicFlag::new());
    assert_eq!(fresh.step_lower_bound(initial, 1), Ok(255));
}

#[test]
fn two_combo_actions_reach_full_quality() {
    let actions = [COMBO_ACTION];
    let settings = scenario_settings(100, 100, 30, &actions);
    let effects = quality_allowed();
    let mut solver =
        StepLbSolver::new(settings, scenario_simulator(&actions, effects), AtomicFlag::new());
    assert_eq!(solver.precompute(), Ok(()));
    let initial = SimulationState::new(&settings.simulator_settings, effects);
    assert_eq!(solver.quality_upper_bound(initial, 2), Ok(Some(100)));
    assert_eq!(solver.quality_upper_bound(initial, 1), Ok(None));
    assert_eq!(solver.step_lower_bound(initial, 1), Ok(2));
}

#[test]
fn interrupted_precompute_answers_what_it_has_covered() {
    let actions = [BASIC_SYNTHESIS, CAREFUL_SYNTHESIS];
    let settings = scenario_settings(100, 0, 30, &actions);
    let effects = Effects::new();
    let interrupt = AtomicFlag::new();
    let calls = Arc::new(AtomicUsize::new(0));
    let raise_at = Arc::new(AtomicUsize::new(usize::MAX));
    let counting = {
        let interrupt = interrupt.clone();
        let calls = calls.clone();
        let raise_at = raise_at.clone();
        move |settings: &Settings, state: SimulationState, action: Action| {
            let seen = calls.fetch_add(1, Ordering::SeqCst) + 1;
            if seen >= raise_at.load(Ordering::SeqCst) {
                interrupt.set();
            }
            apply(settings, state, action)
        }
    };
    let simulator = SimulatorCore::new(
        actions.iter().map(|action| ActionCombo::single(*action)).collect(),
        Vec::new(),
        effects,
        [0; 11],
        45,
        counting,
    );
    let mut solver = StepLbSolver::new(settings, simulator, interrupt.clone());
    // The signal is raised by the first call of the simulator in the first round.
    raise_at.store(calls.load(Ordering::SeqCst) + 1, Ordering::SeqCst);
    assert_eq!(solver.precompute(), Err(SolverException::Interrupted));
    assert!(interrupt.is_set());
    assert_eq!(solver.covered_layers(), 1);

    let initial = SimulationState::new(&settings.simulator_settings, effects);
    assert_eq!(solver.quality_upper_bound(initial, 1), Ok(None));
    assert_eq!(
        solver.quality_upper_bound(initial, 2),
        Err(SolverException::InternalError("StepLbSolver: Unknown state queried.".to_string()))
    );
    assert_eq!(
        solver.step_lower_bound(initial, 1),
        Err(SolverException::InternalError("StepLbSolver: Unknown state queried.".to_string()))
    );
    // One step is enough for a state that lacks 40 progress only.
    let nearly_done = SimulationState { progress: 60, ..initial };
    assert_eq!(solver.quality_upper_bound(nearly_done, 1), Ok(Some(0)));
    assert_eq!(solver.step_lower_bound(nearly_done, 1), Ok(1));

    // A second call does nothing, whatever the signal says.
    interrupt.clear();
    assert_eq!(solver.precompute(), Ok(()));
    assert_eq!(solver.covered_layers(), 1);
}

#[test]
fn raised_signal_stops_before_the_first_round() {
    let actions = [BASIC_SYNTHESIS, CAREFUL_SYNTHESIS];
    let settings = scenario_settings(100, 0, 30, &actions);
    let interrupt = AtomicFlag::new();
    interrupt.set();
    let mut solver =
        StepLbSolver::new(settings, scenario_simulator(&actions, Effects::new()), interrupt);
    assert_eq!(solver.precompute(), Err(SolverException::Interrupted));
    assert_eq!(solver.covered_layers(), 0);
    assert_eq!(solver.runtime_stats().parallel_states, 0);
    assert_eq!(solver.runtime_stats().pareto_values, 0);
}

#[test]
fn two_solvers_hold_the_same_frontiers() {
    let actions = [BASIC_SYNTHESIS, CAREFUL_SYNTHESIS, BASIC_TOUCH];
    let settings = scenario_settings(100, 100, 70, &actions);
    let effects = quality_allowed();
    let mut first =
        StepLbSolver::new(settings, scenario_simulator(&actions, effects), AtomicFlag::new());
    let mut second =
        StepLbSolver::new(settings, scenario_simulator(&actions, effects), AtomicFlag::new());
    let templates = first.alive_templates().clone();
    // One solver works on one thread, the other on three.
    let single = rayon::ThreadPoolBuilder::new().num_threads(1).build().unwrap();
    let triple = rayon::ThreadPoolBuilder::new().num_threads(3).build().unwrap();
    assert_eq!(single.install(|| first.precompute()), Ok(()));
    assert_eq!(triple.install(|| second.precompute()), Ok(()));
    assert_eq!(first.covered_layers(), second.covered_layers());
    assert_eq!(first.runtime_stats().parallel_states, second.runtime_stats().parallel_states);
    assert_eq!(first.runtime_stats().pareto_values, second.runtime_stats().pareto_values);
    let mut compared = 0;
    for template in &templates {
        for budget in 1..=first.covered_layers() {
            let state: ReducedState = template.instantiate(budget);
            assert_eq!(first.solved_front(&state), second.solved_front(&state));
            if first.solved_front(&state).is_some() {
                compared += 1;
            }
        }
    }
    assert_eq!(compared, first.runtime_stats().parallel_states);
}

#[test]
fn a_round_under_a_raised_signal_computes_nothing() {
    let actions = [BASIC_SYNTHESIS, CAREFUL_SYNTHESIS];
    let settings = scenario_settings(100, 0, 30, &actions);
    let mut solver =
        StepLbSolver::new(settings, scenario_simulator(&actions, Effects::new()), AtomicFlag::new());
    let templates = solver.alive_templates().clone();
    assert_eq!(solver.precompute_round(true), Err(SolverException::Interrupted));
    assert_eq!(solver.covered_layers(), 0);
    assert_eq!(solver.runtime_stats().parallel_states, 0);
    assert_eq!(solver.runtime_stats().pareto_values, 0);
    assert_eq!(solver.alive_templates(), &templates);
}

#[test]
fn rounds_by_hand_cover_one_step_budget_each() {
    let actions = [BASIC_SYNTHESIS, CAREFUL_SYNTHESIS];
    let settings = scenario_settings(100, 0, 30, &actions);
    let effects = Effects::new();
    let mut solver =
        StepLbSolver::new(settings, scenario_simulator(&actions, effects), AtomicFlag::new());
    let initial = SimulationState::new(&settings.simulator_settings, effects);
    assert_eq!(solver.precompute_round(false), Ok(()));
    assert_eq!(solver.covered_layers(), 1);
    // Three templates, of 30, 20 and 10 durability, with one point each.
    assert_eq!(solver.runtime_stats().parallel_states, 3);
    assert_eq!(solver.runtime_stats().pareto_values, 3);
    assert_eq!(solver.quality_upper_bound(initial, 1), Ok(None));
    assert!(solver.quality_upper_bound(initial, 2).is_err());
    assert_eq!(solver.precompute_round(false), Ok(()));
    assert_eq!(solver.precompute_round(true), Err(SolverException::Interrupted));
    assert_eq!(solver.precompute_round(false), Ok(()));
    assert_eq!(solver.covered_layers(), 3);
    assert_eq!(solver.step_lower_bound(initial, 1), Ok(3));
    // The start has full progress in reach now and is dropped; the others stay.
    assert_eq!(solver.alive_templates().len(), 2);
    // The rounds were the precomputation: the call itself does nothing more.
    assert_eq!(solver.precompute(), Ok(()));
    assert_eq!(solver.covered_layers(), 3);
}
