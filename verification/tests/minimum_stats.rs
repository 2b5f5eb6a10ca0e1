use step_lb_solver::actions::SimulatorCore;
use step_lb_solver::config::CrafterStats;
use step_lb_solver::effects::Effects;
use step_lb_solver::minimum_stats::{find_minimum_bases, run_macro, BaseSearch, MacroTargets};
use step_lb_solver::simulation::{Action, ActionMask, Settings, SimulationState};

/// Action 0 adds the base progress, action 1 the base quality, each for ten
/// durability; action 2 fixes the quality at 500 where nothing is done yet.
fn forge(settings: &Settings, state: SimulationState, action: Action) -> Option<SimulationState> {
    if state.durability < 10 {
        return None;
    }
    let mut next = SimulationState { durability: state.durability - 10, ..state };
    match action.id {
        0 => next.progress += u32::from(settings.base_progress),
        1 => next.quality += u32::from(settings.base_quality),
        2 if state.progress == 0 && state.quality == 0 => next.quality = 500,
        _ => return None,
    }
    Some(next)
}

type Forge = fn(&Settings, SimulationState, Action) -> Option<SimulationState>;

fn forge_simulator() -> SimulatorCore<Forge> {
    SimulatorCore::new(
        Vec::new(),
        Vec::new(),
        Effects::new(),
        [0; 11],
        0,
        forge as Forge,
    )
}

fn forge_settings(base_progress: u16, base_quality: u16) -> Settings {
    Settings {
        max_cp: 100,
        max_durability: 60,
        max_progress: 1000,
        max_quality: 1000,
        base_progress,
        base_quality,
        job_level: 90,
        allowed_action_mask: ActionMask::all(),
        adversarial: false,
    }
}

fn macro_of(ids: &[u8]) -> Vec<Action> {
    ids.iter().map(|id| Action { id: *id }).collect()
}

#[test]
fn a_macro_goes_on_after_an_action_that_fails() {
    let settings = forge_settings(100, 40);
    let initial = SimulationState::new(&settings, Effects::new());
    let end = run_macro(&forge_simulator(), &settings, initial, &macro_of(&[0, 9, 1, 2, 0]));
    assert_eq!(end.progress, 200);
    assert_eq!(end.quality, 40);
    assert_eq!(end.durability, 30);
    // Seven actions: the last one finds no durability.
    let long = run_macro(&forge_simulator(), &settings, initial, &macro_of(&[0; 7]));
    assert_eq!(long.progress, 600);
    assert_eq!(long.durability, 0);
}

#[test]
fn least_bases_are_found_by_halving() {
    let settings = forge_settings(400, 300);
    let initial = SimulationState::new(&settings, Effects::new());
    // Three progress actions for 1000 progress: 334 each. Two quality actions
    // for 500 quality: 250 each.
    let found = find_minimum_bases(
        &forge_simulator(),
        &settings,
        initial,
        &macro_of(&[0, 0, 0, 1, 1]),
        MacroTargets { progress: 1000, quality: 500 },
        false,
    );
    assert_eq!(
        found,
        Some(BaseSearch {
            min_progress: 333,
            max_progress: 334,
            min_quality: 249,
            max_quality: 250,
            can_target_quality: true
        })
    );
}

#[test]
fn a_macro_short_of_progress_has_no_least_bases() {
    let settings = forge_settings(400, 300);
    let initial = SimulationState::new(&settings, Effects::new());
    let found = find_minimum_bases(
        &forge_simulator(),
        &settings,
        initial,
        &macro_of(&[0, 0, 1]),
        MacroTargets { progress: 1000, quality: 100 },
        false,
    );
    assert_eq!(found, None);
}

#[test]
fn quality_out_of_reach_is_searched_above_the_base() {
    let settings = forge_settings(400, 300);
    let initial = SimulationState::new(&settings, Effects::new());
    // One quality action for 400 quality: the base of 300 is short, 400 is
    // within half as much again.
    let found = find_minimum_bases(
        &forge_simulator(),
        &settings,
        initial,
        &macro_of(&[0, 0, 0, 1]),
        MacroTargets { progress: 1000, quality: 400 },
        false,
    )
    .unwrap();
    assert_eq!((found.min_quality, found.max_quality), (399, 400));
    assert!(found.can_target_quality);
    // For 460 quality even 450 is short.
    let found = find_minimum_bases(
        &forge_simulator(),
        &settings,
        initial,
        &macro_of(&[0, 0, 0, 1]),
        MacroTargets { progress: 1000, quality: 460 },
        false,
    )
    .unwrap();
    assert_eq!((found.min_quality, found.max_quality), (449, 450));
    assert!(!found.can_target_quality);
}

#[test]
fn fixed_or_absent_quality_needs_no_base_quality() {
    let settings = forge_settings(400, 300);
    let initial = SimulationState::new(&settings, Effects::new());
    let fixed = find_minimum_bases(
        &forge_simulator(),
        &settings,
        initial,
        &macro_of(&[2, 0, 0, 0]),
        MacroTargets { progress: 1000, quality: 500 },
        true,
    )
    .unwrap();
    assert_eq!((fixed.min_progress, fixed.max_progress), (333, 334));
    assert_eq!(fixed.max_quality, 1);
    assert!(fixed.can_target_quality);
    let absent = find_minimum_bases(
        &forge_simulator(),
        &settings,
        initial,
        &macro_of(&[0, 0, 0]),
        MacroTargets { progress: 1000, quality: 0 },
        false,
    )
    .unwrap();
    assert_eq!((absent.min_quality, absent.max_quality), (1, 1));
}

#[test]
fn stats_with_their_bonus_meet_the_requirements() {
    let stats = CrafterStats {
        craftsmanship: 3000,
        control: 2000,
        cp: 500,
        level: 90,
        manipulation: false,
        heart_and_soul: false,
        quick_innovation: false,
    };
    assert!(stats.meets_requirements(0, 0, 3000, 2000));
    assert!(stats.meets_requirements(100, 50, 3100, 2050));
    assert!(!stats.meets_requirements(99, 50, 3100, 2050));
    assert!(!stats.meets_requirements(100, 49, 3100, 2050));
    let top = CrafterStats { craftsmanship: u16::MAX, control: u16::MAX, ..stats };
    assert!(top.meets_requirements(u16::MAX, u16::MAX, u16::MAX, u16::MAX));
}
