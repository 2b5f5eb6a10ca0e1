use step_lb_solver::actions::{use_action_combo, ActionCombo, ActionError, SimulatorCore};
use step_lb_solver::effects::Effects;
use step_lb_solver::frontier::{next_step, Step};
use step_lb_solver::reduced_state::ReducedState;
use step_lb_solver::simulation::{Action, ActionMask, Settings, SimulationState, SolverSettings};
use step_lb_solver::templates::generate_precompute_templates;

/// Action 0 adds 10 progress for 10 durability, action 1 adds 5 quality for
/// 7 CP, action 2 is always refused.
fn bench(_settings: &Settings, state: SimulationState, action: Action) -> Option<SimulationState> {
    match action.id {
        0 if state.durability >= 10 => Some(SimulationState {
            durability: state.durability - 10,
            progress: state.progress + 10,
            ..state
        }),
        1 if state.cp >= 7 => {
            Some(SimulationState { cp: state.cp - 7, quality: state.quality + 5, ..state })
        }
        _ => None,
    }
}

type Bench = fn(&Settings, SimulationState, Action) -> Option<SimulationState>;

fn bench_settings(allowed: &[u8]) -> SolverSettings {
    let mut mask = ActionMask::none();
    for id in allowed {
        mask = mask.insert(Action { id: *id });
    }
    SolverSettings {
        simulator_settings: Settings {
            max_cp: 20,
            max_durability: 30,
            max_progress: 100,
            max_quality: 100,
            base_progress: 10,
            base_quality: 5,
            job_level: 1,
            allowed_action_mask: mask,
            adversarial: false,
        },
    }
}

fn bench_simulator(combos: Vec<ActionCombo>) -> SimulatorCore<Bench> {
    SimulatorCore::new(
        combos,
        Vec::new(),
        Effects::new(),
        [0; 11],
        10,
        bench as Bench,
    )
}

fn actions(ids: &[u8]) -> Vec<Action> {
    ids.iter().map(|id| Action { id: *id }).collect()
}

fn start() -> SimulationState {
    SimulationState {
        cp: 20,
        durability: 30,
        progress: 0,
        quality: 0,
        unreliable_quality: 0,
        effects: Effects::new(),
    }
}

#[test]
fn use_action_asks_the_settings_first() {
    let simulator = bench_simulator(Vec::new());
    let settings = bench_settings(&[0, 2]).simulator_settings;
    assert_eq!(
        simulator.use_action(&settings, start(), Action { id: 0 }),
        Ok(SimulationState { durability: 20, progress: 10, ..start() })
    );
    assert_eq!(simulator.use_action(&settings, start(), Action { id: 1 }), Err(ActionError::NotAllowed));
    assert_eq!(simulator.use_action(&settings, start(), Action { id: 2 }), Err(ActionError::Rejected));
    assert_eq!(simulator.use_action(&settings, start(), Action { id: 99 }), Err(ActionError::NotAllowed));
}

#[test]
fn a_combo_uses_its_actions_in_a_row() {
    let simulator = bench_simulator(Vec::new());
    let settings = bench_settings(&[0, 1]);
    let combo = ActionCombo::new(actions(&[0, 1, 0]), 3);
    assert_eq!(
        use_action_combo(&simulator, &settings, start(), &combo),
        Ok(SimulationState { cp: 13, durability: 10, progress: 20, quality: 5, ..start() })
    );
    let nothing = ActionCombo::new(Vec::new(), 1);
    assert_eq!(use_action_combo(&simulator, &settings, start(), &nothing), Ok(start()));
}

#[test]
fn a_combo_fails_as_a_whole() {
    let simulator = bench_simulator(Vec::new());
    let settings = bench_settings(&[0, 1]);
    // The third touch lacks the CP.
    let touches = ActionCombo::new(actions(&[1, 1, 1]), 3);
    assert_eq!(
        use_action_combo(&simulator, &settings, start(), &touches),
        Err(ActionError::Rejected)
    );
    // The first failure is the one that is returned.
    let mixed = ActionCombo::new(actions(&[0, 2, 1, 1, 1]), 2);
    assert_eq!(use_action_combo(&simulator, &settings, start(), &mixed), Err(ActionError::NotAllowed));
    let only_progress = bench_settings(&[0]);
    let combo = ActionCombo::new(actions(&[0, 1]), 2);
    assert_eq!(
        use_action_combo(&simulator, &only_progress, start(), &combo),
        Err(ActionError::NotAllowed)
    );
}

#[test]
fn single_combo_takes_one_step() {
    let combo = ActionCombo::single(Action { id: 4 });
    assert_eq!(combo.actions, actions(&[4]));
    assert_eq!(combo.steps(), 1);
    assert_eq!(ActionCombo::new(actions(&[1, 2]), 2).steps(), 2);
}

#[test]
fn next_step_tells_the_three_cases_apart() {
    let simulator = bench_simulator(Vec::new());
    let settings = bench_settings(&[0, 1]);
    let state = ReducedState { steps_budget: 2, durability: 20, effects: Effects::new() };
    let progress = ActionCombo::single(Action { id: 0 });
    // A step and durability are left: the craft goes on.
    assert_eq!(
        next_step(&simulator, &settings, state, &progress),
        Step::Child {
            child: ReducedState { steps_budget: 1, durability: 10, effects: Effects::new() },
            progress: 10,
            quality: 0
        }
    );
    // No step is left.
    let last = ReducedState { steps_budget: 1, ..state };
    assert_eq!(
        next_step(&simulator, &settings, last, &progress),
        Step::Last { progress: 10, quality: 0 }
    );
    // No durability is left.
    let worn = ReducedState { durability: 10, ..state };
    assert_eq!(
        next_step(&simulator, &settings, worn, &progress),
        Step::Last { progress: 10, quality: 0 }
    );
    // The entry takes more steps than are left, takes none, or is refused.
    let long = ActionCombo::new(actions(&[0, 0, 0]), 3);
    assert_eq!(next_step(&simulator, &settings, state, &long), Step::Skip);
    let idle = ActionCombo::new(actions(&[1]), 0);
    assert_eq!(next_step(&simulator, &settings, state, &idle), Step::Skip);
    let refused = ActionCombo::single(Action { id: 2 });
    assert_eq!(next_step(&simulator, &settings, state, &refused), Step::Skip);
    // The reduced state has all the CP that a state can hold.
    let touch = ActionCombo::single(Action { id: 1 });
    assert_eq!(
        next_step(&simulator, &settings, state, &touch),
        Step::Child {
            child: ReducedState { steps_budget: 1, durability: 20, effects: Effects::new() },
            progress: 0,
            quality: 5
        }
    );
}

#[test]
fn templates_are_what_the_catalog_reaches_from_the_seed() {
    let settings = bench_settings(&[0, 1]);
    let simulator = bench_simulator(vec![
        ActionCombo::single(Action { id: 0 }),
        ActionCombo::single(Action { id: 1 }),
    ]);
    let templates = generate_precompute_templates(&simulator, &settings);
    let durabilities: Vec<u16> = templates.iter().map(|template| template.durability).collect();
    assert_eq!(durabilities, vec![30, 20, 10]);
    assert!(templates.iter().all(|template| template.effects == Effects::new()));
    // Without the progress action nothing but the seed is reached.
    let touch_only = bench_simulator(vec![ActionCombo::single(Action { id: 1 })]);
    assert_eq!(generate_precompute_templates(&touch_only, &settings).len(), 1);
    // Nor with an empty catalog.
    assert_eq!(generate_precompute_templates(&bench_simulator(Vec::new()), &settings).len(), 1);
}

#[test]
fn templates_do_not_depend_on_the_steps_of_an_entry() {
    let settings = bench_settings(&[0, 1]);
    // The progress action is in the catalog only as an entry of 255 steps and
    // as one of no step: what it leads to is listed all the same.
    for steps in [255u8, 0, 1, 254] {
        let simulator = bench_simulator(vec![ActionCombo::new(actions(&[0]), steps)]);
        let templates = generate_precompute_templates(&simulator, &settings);
        let durabilities: Vec<u16> = templates.iter().map(|template| template.durability).collect();
        assert_eq!(durabilities, vec![30, 20, 10]);
    }
    // Two actions in one entry lead twenty durability on.
    let double = bench_simulator(vec![ActionCombo::new(actions(&[0, 0]), 255)]);
    let templates = generate_precompute_templates(&double, &settings);
    let durabilities: Vec<u16> = templates.iter().map(|template| template.durability).collect();
    assert_eq!(durabilities, vec![30, 10]);
}
