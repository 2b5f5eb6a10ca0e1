use crate::actions::SimulatorCore;
use crate::bounds::{
    first_sufficient_budget, quality_at, query_state, required_progress, spec_quality_upper_bound,
    spec_step_lower_bound, without_muscle_memory,
};
use crate::effects::{lemma_effects_of, lemma_muscle_memory_cleared_exists};
use crate::frontier::{child_front, state_points, step_of, step_points, Step};
use crate::monotonicity::{outcomes_well_formed, quality_locked};
use crate::layers::{coherent, entry_solved, lemma_frontiers_well_formed};
use crate::pareto::{
    clamp, covered, covering_index, dominates, is_front, lemma_covered_by, shift_clamp,
    ParetoValue,
};
use crate::reduced_state::{
    lemma_reduced_effects_idempotent, reduced_effects, ReducedState, Template,
};
use crate::simulation::{Action, Settings, SimulationState, SolverSettings};
use vstd::prelude::*;

verus! {

/// The craft is over in `state`: the progress is complete, or no durability
/// is left.
pub open spec fn craft_over(settings: SolverSettings, state: SimulationState) -> bool {
    state.durability == 0 || state.progress >= settings.spec_max_progress()
}

/// The state that a craft ends in: the entries of the catalog at the places
/// `run[from..]`, used one after the other from `state`. `None` where an entry
/// is refused, takes no step, or is used after the craft is over.
pub open spec fn craft_end<F: Fn(&Settings, SimulationState, Action) -> Option<SimulationState>>(
    simulator: &SimulatorCore<F>,
    settings: SolverSettings,
    state: SimulationState,
    run: Seq<int>,
    from: int,
) -> Option<SimulationState>
    decreases run.len() - from,
{
    if from < 0 || from >= run.len() {
        Some(state)
    } else if run[from] < 0 || run[from] >= simulator.combos.len() || simulator.combos[run[from]].steps
        == 0 || craft_over(settings, state) {
        None
    } else {
        match simulator.spec_use_combo(
            settings.simulator_settings,
            state,
            simulator.combos[run[from]],
        ) {
            Ok(next) => craft_end(simulator, settings, next, run, from + 1),
            Err(_) => None,
        }
    }
}

/// The number of steps that the entries at the places `run[from..]` take.
pub open spec fn craft_steps<F: Fn(&Settings, SimulationState, Action) -> Option<SimulationState>>(
    simulator: &SimulatorCore<F>,
    run: Seq<int>,
    from: int,
) -> int
    decreases run.len() - from,
{
    if from < 0 || from >= run.len() {
        0
    } else if run[from] < 0 || run[from] >= simulator.combos.len() {
        craft_steps(simulator, run, from + 1)
    } else {
        simulator.combos[run[from]].steps + craft_steps(simulator, run, from + 1)
    }
}

/// The reduction loses nothing: whatever an entry of the catalog does in a
/// state, it does at least as much in the plain member of the state's class,
/// and it leads to the same class. Progress and quality never fall.
pub open spec fn reduction_sound<
    F: Fn(&Settings, SimulationState, Action) -> Option<SimulationState>,
>(
    simulator: &SimulatorCore<F>,
    settings: SolverSettings,
) -> bool {
    forall|state: SimulationState, k: int|
        0 <= k < simulator.combos.len() && state.effects.wf() ==> match (
        #[trigger] simulator.spec_use_combo(
            settings.simulator_settings,
            state,
            simulator.combos[k],
        )) {
            Ok(next) => {
                &&& next.progress >= state.progress
                &&& next.quality >= state.quality
                &&& next.effects.wf()
                &&& match simulator.spec_use_combo(
                    settings.simulator_settings,
                    ReducedState::spec_from_state(state, 0).spec_to_state(),
                    simulator.combos[k],
                ) {
                    Ok(reduced) => {
                        &&& reduced.progress >= next.progress - state.progress
                        &&& reduced.quality >= next.quality - state.quality
                        &&& reduced.durability == next.durability
                        &&& reduced_effects(reduced.effects) == reduced_effects(next.effects)
                    },
                    Err(_) => false,
                }
            },
            Err(_) => true,
        }
}

/// What a craft adds to `state` on its way to `end`, cut off at the targets.
pub open spec fn craft_gain(
    settings: SolverSettings,
    state: SimulationState,
    end: SimulationState,
) -> ParetoValue {
    clamp(
        ParetoValue {
            progress: (end.progress - state.progress) as u32,
            quality: (end.quality - state.quality) as u32,
        },
        settings.spec_max_progress(),
        settings.spec_max_quality(),
    )
}

/// Progress and quality never fall in a craft, and a craft from a state that
/// allows no quality action adds no quality.
proof fn lemma_craft_grows<F: Fn(&Settings, SimulationState, Action) -> Option<SimulationState>>(
    simulator: &SimulatorCore<F>,
    settings: SolverSettings,
    state: SimulationState,
    run: Seq<int>,
    from: int,
)
    requires
        outcomes_well_formed(simulator, settings),
        quality_locked(simulator, settings),
        reduction_sound(simulator, settings),
        state.effects.wf(),
        0 <= from <= run.len(),
        craft_end(simulator, settings, state, run, from) is Some,
    ensures
        ({
            let end = craft_end(simulator, settings, state, run, from).unwrap();
            &&& end.progress >= state.progress
            &&& end.quality >= state.quality
            &&& !state.effects@.allow_quality_actions ==> end.quality == state.quality
        }),
    decreases run.len() - from,
{
    if from < run.len() {
        let combo = simulator.combos[run[from]];
        let next = simulator.spec_use_combo(settings.simulator_settings, state, combo).unwrap();
        crate::monotonicity::lemma_locked_combo(simulator, settings, state, combo);
        lemma_craft_grows(simulator, settings, next, run, from + 1);
    }
}

/// The frontier that stands for the class of `state` covers what any
/// complete craft of `step_budget` steps at most adds to `state`.
pub proof fn lemma_frontier_covers_craft<
    F: Fn(&Settings, SimulationState, Action) -> Option<SimulationState>,
>(
    simulator: &SimulatorCore<F>,
    settings: SolverSettings,
    templates: Seq<Template>,
    layers: int,
    solved: Map<ReducedState, Seq<ParetoValue>>,
    state: SimulationState,
    step_budget: u8,
    run: Seq<int>,
    from: int,
)
    requires
        coherent(simulator, settings, templates, layers, solved),
        outcomes_well_formed(simulator, settings),
        quality_locked(simulator, settings),
        reduction_sound(simulator, settings),
        state.effects.wf(),
        0 <= from <= run.len(),
        craft_end(simulator, settings, state, run, from) is Some,
        craft_end(simulator, settings, state, run, from).unwrap().progress
            >= settings.spec_max_progress(),
        craft_steps(simulator, run, from) <= step_budget,
        solved.contains_key(ReducedState::spec_from_state(state, step_budget))
            || !state.effects@.allow_quality_actions,
    ensures
        covered(
            child_front(settings, solved, ReducedState::spec_from_state(state, step_budget)),
            craft_gain(
                settings,
                state,
                craft_end(simulator, settings, state, run, from).unwrap(),
            ),
        ),
    decreases run.len() - from,
{
    let max_progress = settings.spec_max_progress();
    let max_quality = settings.spec_max_quality();
    let origin = ParetoValue { progress: 0, quality: 0 };
    let reduced = ReducedState::spec_from_state(state, step_budget);
    let front = child_front(settings, solved, reduced);
    let end = craft_end(simulator, settings, state, run, from).unwrap();
    let gain = craft_gain(settings, state, end);
    lemma_craft_grows(simulator, settings, state, run, from);
    lemma_reduced_effects_idempotent(state.effects);
    if !solved.contains_key(reduced) {
        // the frontier of a state that was dropped: full progress, no quality
        assert(gain.quality == 0);
        lemma_covered_by(front, 0, gain);
    } else {
        assert(entry_solved(simulator, settings, solved, reduced));
        let points = state_points(simulator, settings, solved, reduced);
        if from >= run.len() {
            assert(gain == origin);
            assert(points.contains(origin));
        } else {
            let k = run[from];
            let combo = simulator.combos[k];
            let next = simulator.spec_use_combo(settings.simulator_settings, state, combo).unwrap();
            assert(ReducedState::spec_from_state(state, 0).spec_to_state()
                == reduced.spec_to_state());
            let plain = simulator.spec_use_combo(
                settings.simulator_settings,
                reduced.spec_to_state(),
                combo,
            ).unwrap();
            let step = step_of(simulator, settings, reduced, combo);
            lemma_craft_grows(simulator, settings, next, run, from + 1);
            lemma_steps_not_negative(simulator, run, from + 1);
            assert(!(step is Skip));
            // a point w that the entry opens from the class and that is as good as the gain
            let w: ParetoValue = match step {
                Step::Child { child, progress, quality } => {
                    let rest = (step_budget - combo.steps) as u8;
                    assert(child == ReducedState::spec_from_state(next, rest));
                    lemma_reduced_effects_idempotent(next.effects);
                    crate::monotonicity::lemma_locked_combo(simulator, settings, state, combo);
                    lemma_frontier_covers_craft(
                        simulator,
                        settings,
                        templates,
                        layers,
                        solved,
                        next,
                        rest,
                        run,
                        from + 1,
                    );
                    let child_points = child_front(settings, solved, child);
                    let j = covering_index(child_points, craft_gain(settings, next, end));
                    shift_clamp(child_points[j], progress, quality, max_progress, max_quality)
                },
                _ => {
                    // nothing follows: no step or no durability is left
                    assert(from + 1 >= run.len()) by {
                        if from + 1 < run.len() {
                            lemma_steps_of_rest(simulator, settings, next, run, from + 1);
                        }
                    }
                    assert(end == next);
                    clamp(
                        ParetoValue { progress: plain.progress, quality: plain.quality },
                        max_progress,
                        max_quality,
                    )
                },
            };
            assert(dominates(w, gain));
            assert(step_points(settings, solved, step).contains(w));
            assert(points.contains(w));
            let m = covering_index(front, w);
            lemma_covered_by(front, m, gain);
        }
    }
}

/// `front` has a point with the quality of `v` at least and with at most
/// `slack` less progress.
pub open spec fn covered_within(front: Seq<ParetoValue>, v: ParetoValue, slack: int) -> bool {
    exists|i: int|
        0 <= i < front.len() && (#[trigger] front[i]).quality >= v.quality && front[i].progress
            + slack >= v.progress
}

/// Muscle Memory is worth no more than the largest progress increase. What an
/// entry of the catalog does in a state under Muscle Memory, it does in the
/// plain member of the state's class without Muscle Memory, but for the
/// progress: none is lost while Muscle Memory lasts, and when it ends the
/// largest progress increase at most, and not all progress.
pub open spec fn muscle_memory_sound<
    F: Fn(&Settings, SimulationState, Action) -> Option<SimulationState>,
>(simulator: &SimulatorCore<F>, settings: SolverSettings) -> bool {
    forall|state: SimulationState, k: int|
        0 <= k < simulator.combos.len() && state.effects.wf() && state.effects@.muscle_memory
            > 0 ==> match (#[trigger] simulator.spec_use_combo(
            settings.simulator_settings,
            state,
            simulator.combos[k],
        )) {
            Ok(next) => match simulator.spec_use_combo(
                settings.simulator_settings,
                query_state(state, 0).spec_to_state(),
                simulator.combos[k],
            ) {
                Ok(reduced) => {
                    &&& reduced.quality >= next.quality - state.quality
                    &&& reduced.durability == next.durability
                    &&& reduced_effects(reduced.effects) == reduced_effects(
                        without_muscle_memory(next.effects),
                    )
                    &&& if next.effects@.muscle_memory > 0 {
                        reduced.progress >= next.progress - state.progress
                    } else {
                        reduced.progress + simulator.largest_progress_increase >= next.progress
                            - state.progress && (next.progress > state.progress
                            ==> reduced.progress > 0)
                    }
                },
                Err(_) => false,
            },
            Err(_) => true,
        }
}

/// What the first entry of a craft does to a state under Muscle Memory, and
/// what it does from the state that answers for it.
proof fn lemma_stripped_step<F: Fn(&Settings, SimulationState, Action) -> Option<SimulationState>>(
    simulator: &SimulatorCore<F>,
    settings: SolverSettings,
    state: SimulationState,
    step_budget: u8,
    k: int,
)
    requires
        outcomes_well_formed(simulator, settings),
        quality_locked(simulator, settings),
        reduction_sound(simulator, settings),
        muscle_memory_sound(simulator, settings),
        state.effects.wf(),
        state.effects@.muscle_memory > 0,
        0 <= k < simulator.combos.len(),
        1 <= simulator.combos[k].steps <= step_budget,
        simulator.spec_use_combo(settings.simulator_settings, state, simulator.combos[k]) is Ok,
    ensures
        ({
            let next = simulator.spec_use_combo(
                settings.simulator_settings,
                state,
                simulator.combos[k],
            ).unwrap();
            let rest = (step_budget - simulator.combos[k].steps) as u8;
            let slack = simulator.largest_progress_increase;
            &&& next.effects.wf()
            &&& next.progress >= state.progress
            &&& next.quality >= state.quality
            &&& !state.effects@.allow_quality_actions ==> !next.effects@.allow_quality_actions
            &&& match step_of(
                simulator,
                settings,
                query_state(state, step_budget),
                simulator.combos[k],
            ) {
                Step::Skip => false,
                Step::Last { progress, quality } => {
                    &&& rest == 0 || next.durability == 0
                    &&& quality >= next.quality - state.quality
                    &&& progress + slack >= next.progress - state.progress
                    &&& next.progress > state.progress ==> progress > 0
                },
                Step::Child { child, progress, quality } => {
                    &&& rest > 0
                    &&& child == if next.effects@.muscle_memory > 0 {
                        query_state(next, rest)
                    } else {
                        ReducedState::spec_from_state(next, rest)
                    }
                    &&& quality >= next.quality - state.quality
                    &&& progress + slack >= next.progress - state.progress
                    &&& next.effects@.muscle_memory > 0 ==> progress >= next.progress
                        - state.progress
                },
            }
        }),
{
    let combo = simulator.combos[k];
    let next = simulator.spec_use_combo(settings.simulator_settings, state, combo).unwrap();
    let reduced = query_state(state, step_budget);
    assert(query_state(state, 0).spec_to_state() == reduced.spec_to_state());
    crate::monotonicity::lemma_locked_combo(simulator, settings, state, combo);
    lemma_muscle_memory_cleared_exists(next.effects);
    if next.effects@.muscle_memory == 0 {
        lemma_effects_of(next.effects);
    }
}

/// A point that is moved along with a point that it covers within a slack
/// covers it still, if it is moved by no less quality and by no more than the
/// slack less progress; without a slack before, within the slack after.
proof fn lemma_shift_within(
    f: ParetoValue,
    target: ParetoValue,
    moved: ParetoValue,
    f_slack: int,
    progress: u32,
    quality: u32,
    by_progress: int,
    by_quality: int,
    slack: int,
    max_progress: u32,
    max_quality: u32,
)
    requires
        f.quality >= target.quality,
        f.progress + f_slack >= target.progress,
        0 <= f_slack <= slack,
        quality >= by_quality >= 0,
        by_progress >= 0,
        progress + (slack - f_slack) >= by_progress,
        moved.progress <= max_progress,
        moved.quality <= max_quality,
        moved.progress <= target.progress + by_progress,
        moved.quality <= target.quality + by_quality,
    ensures
        shift_clamp(f, progress, quality, max_progress, max_quality).quality >= moved.quality,
        shift_clamp(f, progress, quality, max_progress, max_quality).progress + slack
            >= moved.progress,
{
}

/// The frontier that answers for a state under Muscle Memory covers what any
/// complete craft of `step_budget` steps at most adds to the state, but for
/// the largest progress increase.
pub proof fn lemma_stripped_frontier_covers_craft<
    F: Fn(&Settings, SimulationState, Action) -> Option<SimulationState>,
>(
    simulator: &SimulatorCore<F>,
    settings: SolverSettings,
    templates: Seq<Template>,
    layers: int,
    solved: Map<ReducedState, Seq<ParetoValue>>,
    state: SimulationState,
    step_budget: u8,
    run: Seq<int>,
    from: int,
)
    requires
        coherent(simulator, settings, templates, layers, solved),
        outcomes_well_formed(simulator, settings),
        quality_locked(simulator, settings),
        reduction_sound(simulator, settings),
        muscle_memory_sound(simulator, settings),
        state.effects.wf(),
        state.effects@.muscle_memory > 0,
        0 <= from <= run.len(),
        craft_end(simulator, settings, state, run, from) is Some,
        craft_end(simulator, settings, state, run, from).unwrap().progress
            >= settings.spec_max_progress(),
        craft_steps(simulator, run, from) <= step_budget,
        solved.contains_key(query_state(state, step_budget))
            || !state.effects@.allow_quality_actions,
    ensures
        covered_within(
            child_front(settings, solved, query_state(state, step_budget)),
            craft_gain(
                settings,
                state,
                craft_end(simulator, settings, state, run, from).unwrap(),
            ),
            simulator.largest_progress_increase as int,
        ),
    decreases run.len() - from,
{
    let max_progress = settings.spec_max_progress();
    let max_quality = settings.spec_max_quality();
    let slack = simulator.largest_progress_increase as int;
    let origin = ParetoValue { progress: 0, quality: 0 };
    let reduced = query_state(state, step_budget);
    let front = child_front(settings, solved, reduced);
    let end = craft_end(simulator, settings, state, run, from).unwrap();
    let gain = craft_gain(settings, state, end);
    lemma_craft_grows(simulator, settings, state, run, from);
    lemma_muscle_memory_cleared_exists(state.effects);
    lemma_reduced_effects_idempotent(without_muscle_memory(state.effects));
    if !solved.contains_key(reduced) {
        assert(gain.quality == 0);
        assert(front[0].progress + slack >= gain.progress);
    } else {
        assert(entry_solved(simulator, settings, solved, reduced));
        let points = state_points(simulator, settings, solved, reduced);
        let w: ParetoValue = if from >= run.len() {
            assert(gain == origin);
            origin
        } else {
            let k = run[from];
            let combo = simulator.combos[k];
            let next = simulator.spec_use_combo(settings.simulator_settings, state, combo).unwrap();
            let step = step_of(simulator, settings, reduced, combo);
            let rest = (step_budget - combo.steps) as u8;
            lemma_steps_not_negative(simulator, run, from + 1);
            lemma_stripped_step(simulator, settings, state, step_budget, k);
            lemma_craft_grows(simulator, settings, next, run, from + 1);
            let later = craft_gain(settings, next, end);
            let w: ParetoValue = match step {
                Step::Child { child, progress, quality } => {
                    let child_points = child_front(settings, solved, child);
                    assert(!crate::frontier::step_fails(solved, step));
                    lemma_muscle_memory_cleared_exists(next.effects);
                    lemma_reduced_effects_idempotent(without_muscle_memory(next.effects));
                    lemma_reduced_effects_idempotent(next.effects);
                    if next.effects@.muscle_memory > 0 {
                        lemma_stripped_frontier_covers_craft(
                            simulator,
                            settings,
                            templates,
                            layers,
                            solved,
                            next,
                            rest,
                            run,
                            from + 1,
                        );
                        let j = choose|j: int|
                            0 <= j < child_points.len() && (#[trigger] child_points[j]).quality
                                >= later.quality && child_points[j].progress + slack
                                >= later.progress;
                        lemma_shift_within(
                            child_points[j],
                            later,
                            gain,
                            slack,
                            progress,
                            quality,
                            next.progress - state.progress,
                            next.quality - state.quality,
                            slack,
                            max_progress,
                            max_quality,
                        );
                        shift_clamp(child_points[j], progress, quality, max_progress, max_quality)
                    } else {
                        lemma_frontier_covers_craft(
                            simulator,
                            settings,
                            templates,
                            layers,
                            solved,
                            next,
                            rest,
                            run,
                            from + 1,
                        );
                        let j = covering_index(child_points, later);
                        lemma_shift_within(
                            child_points[j],
                            later,
                            gain,
                            0,
                            progress,
                            quality,
                            next.progress - state.progress,
                            next.quality - state.quality,
                            slack,
                            max_progress,
                            max_quality,
                        );
                        shift_clamp(child_points[j], progress, quality, max_progress, max_quality)
                    }
                },
                Step::Last { progress, quality } => {
                    assert(from + 1 >= run.len()) by {
                        if from + 1 < run.len() {
                            lemma_steps_of_rest(simulator, settings, next, run, from + 1);
                        }
                    }
                    assert(end == next);
                    clamp(ParetoValue { progress, quality }, max_progress, max_quality)
                },
                Step::Skip => origin,
            };
            assert(step_points(settings, solved, step).contains(w));
            w
        };
        assert(w.quality >= gain.quality && w.progress + slack >= gain.progress);
        assert(points.contains(w));
        let m = covering_index(front, w);
        assert(front[m].quality >= gain.quality && front[m].progress + slack >= gain.progress);
    }
}

/// A craft that goes on takes a step at least, from a state that has
/// durability left.
proof fn lemma_steps_of_rest<F: Fn(&Settings, SimulationState, Action) -> Option<SimulationState>>(
    simulator: &SimulatorCore<F>,
    settings: SolverSettings,
    state: SimulationState,
    run: Seq<int>,
    from: int,
)
    requires
        0 <= from < run.len(),
        craft_end(simulator, settings, state, run, from) is Some,
    ensures
        craft_steps(simulator, run, from) >= 1,
        state.durability > 0,
        state.progress < settings.spec_max_progress(),
{
    lemma_steps_not_negative(simulator, run, from + 1);
}

proof fn lemma_steps_not_negative<
    F: Fn(&Settings, SimulationState, Action) -> Option<SimulationState>,
>(simulator: &SimulatorCore<F>, run: Seq<int>, from: int)
    ensures
        craft_steps(simulator, run, from) >= 0,
    decreases run.len() - from,
{
    if 0 <= from < run.len() {
        lemma_steps_not_negative(simulator, run, from + 1);
    }
}

/// A point of a frontier with enough progress vouches for the quality that a
/// query finds.
proof fn lemma_quality_at_least(front: Seq<ParetoValue>, required: int, i: int, from: int)
    requires
        is_front(front),
        0 <= from <= i < front.len(),
        front[i].progress >= required,
    ensures
        quality_at(front, required, from) is Some,
        quality_at(front, required, from).unwrap() >= front[i].quality,
    decreases i - from,
{
    if front[from].progress < required {
        lemma_quality_at_least(front, required, i, from + 1);
    } else if from < i {
        assert(front[from].quality > front[i].quality);
    }
}

/// The quality bound is admissible. Where the query is answered, no complete
/// craft of `step_budget` steps at most ends with more quality than the
/// bound; quality beyond the target, on top of what the state has, does not
/// count. This holds where the reduction loses nothing, a state that allows
/// no quality action gains no quality, and Muscle Memory is worth no more
/// than the largest progress increase.
pub proof fn lemma_quality_upper_bound_admissible<
    F: Fn(&Settings, SimulationState, Action) -> Option<SimulationState>,
>(
    simulator: &SimulatorCore<F>,
    settings: SolverSettings,
    templates: Seq<Template>,
    layers: int,
    solved: Map<ReducedState, Seq<ParetoValue>>,
    state: SimulationState,
    step_budget: u8,
    run: Seq<int>,
)
    requires
        coherent(simulator, settings, templates, layers, solved),
        outcomes_well_formed(simulator, settings),
        quality_locked(simulator, settings),
        reduction_sound(simulator, settings),
        muscle_memory_sound(simulator, settings),
        state.effects.wf(),
        craft_end(simulator, settings, state, run, 0) is Some,
        craft_end(simulator, settings, state, run, 0).unwrap().progress
            >= settings.spec_max_progress(),
        craft_steps(simulator, run, 0) <= step_budget,
        spec_quality_upper_bound(
            settings,
            simulator.largest_progress_increase,
            solved,
            state,
            step_budget,
        ) is Some,
    ensures
        ({
            let end = craft_end(simulator, settings, state, run, 0).unwrap();
            let bound = spec_quality_upper_bound(
                settings,
                simulator.largest_progress_increase,
                solved,
                state,
                step_budget,
            ).unwrap();
            &&& bound is Some
            &&& bound.unwrap() >= end.quality || bound.unwrap() >= state.quality
                + settings.spec_max_quality()
        }),
{
    let reduced = query_state(state, step_budget);
    let end = craft_end(simulator, settings, state, run, 0).unwrap();
    let required = required_progress(settings, simulator.largest_progress_increase, state);
    lemma_craft_grows(simulator, settings, state, run, 0);
    lemma_frontiers_well_formed(simulator, settings, templates, layers, solved, reduced);
    let front = solved[reduced];
    if state.effects@.muscle_memory == 0 {
        lemma_frontier_covers_craft(
            simulator,
            settings,
            templates,
            layers,
            solved,
            state,
            step_budget,
            run,
            0,
        );
        let i = covering_index(front, craft_gain(settings, state, end));
        lemma_quality_at_least(front, required, i, 0);
    } else {
        lemma_stripped_frontier_covers_craft(
            simulator,
            settings,
            templates,
            layers,
            solved,
            state,
            step_budget,
            run,
            0,
        );
        let gain = craft_gain(settings, state, end);
        let i = choose|i: int|
            0 <= i < front.len() && (#[trigger] front[i]).quality >= gain.quality && front[i].progress
                + simulator.largest_progress_increase >= gain.progress;
        lemma_quality_at_least(front, required, i, 0);
    }
}

/// Before the first sufficient step budget every query is answered, and none
/// is sufficient.
proof fn lemma_before_first_sufficient(
    settings: SolverSettings,
    largest_progress_increase: u32,
    solved: Map<ReducedState, Seq<ParetoValue>>,
    state: SimulationState,
    start: int,
    budget: int,
)
    requires
        1 <= start <= budget <= 255,
        first_sufficient_budget(settings, largest_progress_increase, solved, state, start)
            is Some,
        first_sufficient_budget(settings, largest_progress_increase, solved, state, start).unwrap()
            > budget,
    ensures
        match spec_quality_upper_bound(
            settings,
            largest_progress_increase,
            solved,
            state,
            budget as u8,
        ) {
            Some(Some(quality)) => quality < settings.spec_max_quality(),
            Some(None) => true,
            None => false,
        },
    decreases budget - start,
{
    if start < budget {
        lemma_before_first_sufficient(
            settings,
            largest_progress_increase,
            solved,
            state,
            start + 1,
            budget,
        );
    }
}

/// The step bound is admissible. Where the query is answered, no craft that
/// reaches both targets takes fewer steps than the bound. A craft takes one
/// step at least: of a state that has reached both targets already the bound
/// is 1 all the same. This holds under the conditions of the quality bound.
pub proof fn lemma_step_lower_bound_admissible<
    F: Fn(&Settings, SimulationState, Action) -> Option<SimulationState>,
>(
    simulator: &SimulatorCore<F>,
    settings: SolverSettings,
    templates: Seq<Template>,
    layers: int,
    solved: Map<ReducedState, Seq<ParetoValue>>,
    state: SimulationState,
    run: Seq<int>,
)
    requires
        coherent(simulator, settings, templates, layers, solved),
        outcomes_well_formed(simulator, settings),
        quality_locked(simulator, settings),
        reduction_sound(simulator, settings),
        muscle_memory_sound(simulator, settings),
        state.effects.wf(),
        run.len() >= 1,
        craft_end(simulator, settings, state, run, 0) is Some,
        craft_end(simulator, settings, state, run, 0).unwrap().progress
            >= settings.spec_max_progress(),
        craft_end(simulator, settings, state, run, 0).unwrap().quality
            >= settings.spec_max_quality(),
        spec_step_lower_bound(settings, simulator.largest_progress_increase, solved, state, 1)
            is Some,
    ensures
        spec_step_lower_bound(
            settings,
            simulator.largest_progress_increase,
            solved,
            state,
            1,
        ).unwrap() <= craft_steps(simulator, run, 0),
{
    let largest = simulator.largest_progress_increase;
    let steps = craft_steps(simulator, run, 0);
    let bound = spec_step_lower_bound(settings, largest, solved, state, 1).unwrap();
    lemma_steps_of_rest(simulator, settings, state, run, 0);
    lemma_craft_grows(simulator, settings, state, run, 0);
    if bound > steps {
        assert(steps <= 254);
        lemma_before_first_sufficient(settings, largest, solved, state, 1, steps);
        lemma_quality_upper_bound_admissible(
            simulator,
            settings,
            templates,
            layers,
            solved,
            state,
            steps as u8,
            run,
        );
    }
}

} // verus!
