use step_lb_solver::actions::DominanceRule;
use step_lb_solver::effects::{Combo, Effects};
use step_lb_solver::reduced_state::{reduce_effects, ReducedState, Template};
use step_lb_solver::simulation::{Action, ActionMask, Settings, SimulationState};

fn busy_effects() -> Effects {
    Effects::new()
        .with_inner_quiet(4)
        .with_manipulation(6)
        .with_allow_quality_actions(true)
        .with_adversarial_guard(true)
        .with_combo(Combo::BasicTouch)
}

fn full_state() -> SimulationState {
    SimulationState {
        cp: 321,
        durability: 35,
        progress: 1234,
        quality: 5678,
        unreliable_quality: 9,
        effects: busy_effects(),
    }
}

#[test]
fn from_state_keeps_durability_and_clears_guard_and_combo() {
    let reduced = ReducedState::from_state(full_state(), 12);
    assert_eq!(reduced.steps_budget, 12);
    assert_eq!(reduced.durability, 35);
    assert!(!reduced.effects.adversarial_guard());
    assert_eq!(reduced.effects.combo(), Combo::NoCombo);
    assert_eq!(reduced.effects.inner_quiet(), 4);
    assert_eq!(reduced.effects.manipulation(), 6);
    assert!(reduced.effects.allow_quality_actions());
    assert_eq!(
        reduced.effects,
        Effects::new().with_inner_quiet(4).with_manipulation(6).with_allow_quality_actions(true)
    );
}

#[test]
fn states_that_differ_in_cp_progress_and_quality_share_a_class() {
    let other = SimulationState {
        cp: 0,
        progress: 1,
        quality: 2,
        unreliable_quality: 3,
        effects: busy_effects().with_combo(Combo::SynthesisBegin).with_adversarial_guard(false),
        ..full_state()
    };
    assert_eq!(ReducedState::from_state(full_state(), 5), ReducedState::from_state(other, 5));
    assert_ne!(ReducedState::from_state(full_state(), 5), ReducedState::from_state(other, 6));
    let worn = SimulationState { durability: 34, ..full_state() };
    assert_ne!(ReducedState::from_state(full_state(), 5), ReducedState::from_state(worn, 5));
}

#[test]
fn to_state_is_the_plain_member_of_the_class() {
    let state = ReducedState::from_state(full_state(), 3).to_state();
    assert_eq!(state.cp, u16::MAX);
    assert_eq!(state.durability, 35);
    assert_eq!(state.progress, 0);
    assert_eq!(state.quality, 0);
    assert_eq!(state.unreliable_quality, 0);
    assert_eq!(state.effects, reduce_effects(busy_effects()));
}

#[test]
fn reducing_the_plain_member_gives_the_class_back() {
    for budget in [0u8, 1, 7, 255] {
        let reduced = ReducedState::from_state(full_state(), budget);
        assert_eq!(ReducedState::from_state(reduced.to_state(), budget), reduced);
    }
    let simple = SimulationState { effects: Effects::new(), ..full_state() };
    let reduced = ReducedState::from_state(simple, 9);
    assert_eq!(ReducedState::from_state(reduced.to_state(), 9), reduced);
}

#[test]
fn key_puts_budget_durability_and_effects_side_by_side() {
    let state = ReducedState {
        steps_budget: 3,
        durability: 0x0102,
        effects: Effects::new().with_inner_quiet(5),
    };
    assert_eq!(state.key(), (3u64 << 48) | (0x0102u64 << 32) | 5);
    let other = ReducedState { steps_budget: 4, ..state };
    assert_ne!(state.key(), other.key());
    let template = Template { durability: 0x0102, effects: Effects::new().with_inner_quiet(5) };
    assert_eq!(template.key(), (0x0102u64 << 32) | 5);
}

#[test]
fn instantiate_attaches_the_budget() {
    let template = Template { durability: 20, effects: busy_effects() };
    let state = template.instantiate(9);
    assert_eq!(state.steps_budget, 9);
    assert_eq!(state.durability, 20);
    assert_eq!(state.effects, reduce_effects(busy_effects()));
    assert_eq!(state, ReducedState::from_state(SimulationState { durability: 20, ..full_state() }, 9));
}

fn settings_with(mask: ActionMask) -> Settings {
    Settings {
        max_cp: 500,
        max_durability: 70,
        max_progress: 1000,
        max_quality: 2000,
        base_progress: 100,
        base_quality: 100,
        job_level: 90,
        allowed_action_mask: mask,
        adversarial: true,
    }
}

fn mask_of(ids: &[u8]) -> ActionMask {
    let mut mask = ActionMask::none();
    for id in ids {
        mask = mask.insert(Action { id: *id });
    }
    mask
}

fn rule(better: u8, worse: u8) -> DominanceRule {
    DominanceRule { better: Action { id: better }, worse: Action { id: worse } }
}

#[test]
fn a_rule_takes_the_worse_action_out_if_the_better_one_is_allowed() {
    let mut settings = settings_with(mask_of(&[1, 2, 3]));
    ReducedState::optimize_action_mask(&mut settings, &vec![rule(1, 2)]);
    assert_eq!(settings.allowed_action_mask, mask_of(&[1, 3]));
    // Nothing else changes.
    assert_eq!(settings, settings_with(mask_of(&[1, 3])));
}

#[test]
fn a_rule_without_its_better_action_changes_nothing() {
    let mut settings = settings_with(mask_of(&[2, 3]));
    ReducedState::optimize_action_mask(&mut settings, &vec![rule(1, 2), rule(5, 3)]);
    assert_eq!(settings.allowed_action_mask, mask_of(&[2, 3]));
}

#[test]
fn rules_apply_one_after_the_other() {
    // 1 takes out 2; then 2 is gone and cannot take out 3.
    let mut settings = settings_with(mask_of(&[1, 2, 3]));
    ReducedState::optimize_action_mask(&mut settings, &vec![rule(1, 2), rule(2, 3)]);
    assert_eq!(settings.allowed_action_mask, mask_of(&[1, 3]));
    // The other way round both go, and 1 stands for both.
    let mut settings = settings_with(mask_of(&[1, 2, 3]));
    ReducedState::optimize_action_mask(&mut settings, &vec![rule(2, 3), rule(1, 2)]);
    assert_eq!(settings.allowed_action_mask, mask_of(&[1]));
}

#[test]
fn two_actions_that_dominate_each_other_do_not_both_go() {
    let mut settings = settings_with(mask_of(&[1, 2]));
    ReducedState::optimize_action_mask(&mut settings, &vec![rule(1, 2), rule(2, 1), rule(1, 1)]);
    assert_eq!(settings.allowed_action_mask, mask_of(&[1]));
}

#[test]
fn action_mask_holds_numbers_below_64() {
    let mask = ActionMask::none();
    assert!(!mask.has(Action { id: 0 }));
    let mask = mask.insert(Action { id: 0 }).insert(Action { id: 63 }).insert(Action { id: 64 });
    assert!(mask.has(Action { id: 0 }));
    assert!(mask.has(Action { id: 63 }));
    assert!(!mask.has(Action { id: 64 }));
    assert!(!mask.has(Action { id: 200 }));
    assert_eq!(mask.bits, 1 | (1 << 63));
    assert_eq!(mask.remove(Action { id: 63 }).bits, 1);
    assert_eq!(mask.remove(Action { id: 5 }), mask);
    assert_eq!(mask.remove(Action { id: 64 }), mask);
    let all = ActionMask::all();
    assert!(all.has(Action { id: 17 }));
    assert!(!all.has(Action { id: 64 }));
    assert!(!all.remove(Action { id: 17 }).has(Action { id: 17 }));
}
