use crate::actions::{ActionCombo, SimulatorCore};
use crate::frontier::{child_front, state_points, step_fails, step_of, step_points, Step};
use crate::layers::{coherent, entry_solved, survives};
use crate::pareto::{
    covered, covering_index, dominates, front_covers, lemma_covered_by, shift_clamp, ParetoValue,
};
use crate::reduced_state::{lemma_reduced_effects_idempotent, ReducedState, Template};
use crate::simulation::{Action, Settings, SimulationState, SolverSettings};
use vstd::prelude::*;

verus! {

/// The simulator hands out well-formed effects only.
pub open spec fn outcomes_well_formed<
    F: Fn(&Settings, SimulationState, Action) -> Option<SimulationState>,
>(simulator: &SimulatorCore<F>, settings: SolverSettings) -> bool {
    forall|state: SimulationState, action: Action|
        state.effects.wf() ==> match (#[trigger] simulator.outcome(
            settings.simulator_settings,
            state,
            action,
        )) {
            Some(next) => next.effects.wf(),
            None => true,
        }
}

/// A state that allows no quality action gains no quality, and what follows
/// it allows none either.
pub open spec fn quality_locked<
    F: Fn(&Settings, SimulationState, Action) -> Option<SimulationState>,
>(
    simulator: &SimulatorCore<F>,
    settings: SolverSettings,
) -> bool {
    forall|state: SimulationState, action: Action|
        !state.effects@.allow_quality_actions ==> match (#[trigger] simulator.outcome(
            settings.simulator_settings,
            state,
            action,
        )) {
            Some(next) => next.quality == state.quality && !next.effects@.allow_quality_actions,
            None => true,
        }
}

/// What holds of single actions under `quality_locked` holds of whole entries
/// of the catalog.
proof fn lemma_locked_actions<F: Fn(&Settings, SimulationState, Action) -> Option<SimulationState>>(
    simulator: &SimulatorCore<F>,
    settings: SolverSettings,
    state: SimulationState,
    actions: Seq<Action>,
    from: int,
)
    requires
        outcomes_well_formed(simulator, settings),
        quality_locked(simulator, settings),
        state.effects.wf(),
        0 <= from <= actions.len(),
    ensures
        match simulator.spec_use_actions(settings.simulator_settings, state, actions, from) {
            Ok(next) => next.effects.wf() && (!state.effects@.allow_quality_actions ==> next.quality
                == state.quality && !next.effects@.allow_quality_actions),
            Err(_) => true,
        },
    decreases actions.len() - from,
{
    if from < actions.len() {
        match simulator.spec_use_action(settings.simulator_settings, state, actions[from]) {
            Ok(next) => {
                assert(simulator.outcome(settings.simulator_settings, state, actions[from])
                    == Some(next));
                lemma_locked_actions(simulator, settings, next, actions, from + 1);
            },
            Err(_) => {},
        }
    }
}

/// The step from a reduced state with well-formed effects: its child has
/// well-formed effects, and under `quality_locked` a state that allows no
/// quality action gains none and has no child that allows one.
proof fn lemma_locked_step<F: Fn(&Settings, SimulationState, Action) -> Option<SimulationState>>(
    simulator: &SimulatorCore<F>,
    settings: SolverSettings,
    state: ReducedState,
    combo: ActionCombo,
)
    requires
        outcomes_well_formed(simulator, settings),
        quality_locked(simulator, settings),
        state.effects.wf(),
    ensures
        match step_of(simulator, settings, state, combo) {
            Step::Skip => true,
            Step::Last { progress, quality } => !state.effects@.allow_quality_actions ==> quality
                == 0,
            Step::Child { child, progress, quality } => {
                &&& child.effects.wf()
                &&& child.durability > 0
                &&& 1 <= child.steps_budget < state.steps_budget
                &&& !state.effects@.allow_quality_actions ==> quality == 0
                    && !child.effects@.allow_quality_actions
            },
        },
{
    lemma_locked_actions(simulator, settings, state.spec_to_state(), combo.actions@, 0);
    match simulator.spec_use_combo(settings.simulator_settings, state.spec_to_state(), combo) {
        Ok(next) => {
            lemma_reduced_effects_idempotent(next.effects);
        },
        Err(_) => {},
    }
}

/// What holds of single actions under `quality_locked` holds of an entry of
/// the catalog.
pub proof fn lemma_locked_combo<
    F: Fn(&Settings, SimulationState, Action) -> Option<SimulationState>,
>(
    simulator: &SimulatorCore<F>,
    settings: SolverSettings,
    state: SimulationState,
    combo: ActionCombo,
)
    requires
        outcomes_well_formed(simulator, settings),
        quality_locked(simulator, settings),
        state.effects.wf(),
    ensures
        match simulator.spec_use_combo(settings.simulator_settings, state, combo) {
            Ok(next) => next.effects.wf() && (!state.effects@.allow_quality_actions ==> next.quality
                == state.quality && !next.effects@.allow_quality_actions),
            Err(_) => true,
        },
{
    lemma_locked_actions(simulator, settings, state, combo.actions@, 0);
}

/// A point that one entry of the catalog opens is a point that the state opens.
proof fn lemma_step_point<F: Fn(&Settings, SimulationState, Action) -> Option<SimulationState>>(
    simulator: &SimulatorCore<F>,
    settings: SolverSettings,
    solved: Map<ReducedState, Seq<ParetoValue>>,
    state: ReducedState,
    k: int,
    v: ParetoValue,
)
    requires
        0 <= k < simulator.combos.len(),
        step_points(
            settings,
            solved,
            step_of(simulator, settings, state, simulator.combos[k]),
        ).contains(v),
    ensures
        state_points(simulator, settings, solved, state).contains(v),
{
}

/// A template that was kept up to a round has a frontier at every step
/// budget up to that round.
proof fn lemma_survivor_has_frontiers(
    settings: SolverSettings,
    iq_quality_lut: [u32; 11],
    solved: Map<ReducedState, Seq<ParetoValue>>,
    template: Template,
    layers: nat,
    budget: nat,
)
    requires
        survives(settings, iq_quality_lut, solved, template, layers),
        1 <= budget <= layers <= 255,
    ensures
        solved.contains_key(template.spec_instantiate(budget as u8)),
    decreases layers,
{
    if budget < layers {
        lemma_survivor_has_frontiers(
            settings,
            iq_quality_lut,
            solved,
            template,
            (layers - 1) as nat,
            budget,
        );
    }
}

/// Of two states of one template, the one with more steps left has a
/// frontier only if the other one has.
proof fn lemma_frontiers_downward<
    F: Fn(&Settings, SimulationState, Action) -> Option<SimulationState>,
>(
    simulator: &SimulatorCore<F>,
    settings: SolverSettings,
    templates: Seq<Template>,
    layers: int,
    solved: Map<ReducedState, Seq<ParetoValue>>,
    lower: ReducedState,
    higher: ReducedState,
)
    requires
        coherent(simulator, settings, templates, layers, solved),
        Template::of(lower) == Template::of(higher),
        1 <= lower.steps_budget <= higher.steps_budget,
        solved.contains_key(higher),
    ensures
        solved.contains_key(lower),
{
    let template = Template::of(higher);
    assert(template.spec_instantiate(higher.steps_budget) == higher);
    assert(template.spec_instantiate(lower.steps_budget) == lower);
    if lower.steps_budget < higher.steps_budget {
        assert(solved.contains_key(template.spec_instantiate(higher.steps_budget)) <==> survives(
            settings,
            simulator.iq_quality_lut,
            solved,
            template,
            (higher.steps_budget - 1) as nat,
        ));
        lemma_survivor_has_frontiers(
            settings,
            simulator.iq_quality_lut,
            solved,
            template,
            (higher.steps_budget - 1) as nat,
            lower.steps_budget as nat,
        );
    }
}

/// Under `quality_locked`, a state that allows no quality action opens
/// points without quality only.
pub proof fn lemma_locked_state_has_no_quality<
    F: Fn(&Settings, SimulationState, Action) -> Option<SimulationState>,
>(
    simulator: &SimulatorCore<F>,
    settings: SolverSettings,
    templates: Seq<Template>,
    layers: int,
    solved: Map<ReducedState, Seq<ParetoValue>>,
    state: ReducedState,
    v: ParetoValue,
)
    requires
        coherent(simulator, settings, templates, layers, solved),
        outcomes_well_formed(simulator, settings),
        quality_locked(simulator, settings),
        state.effects.wf(),
        !state.effects@.allow_quality_actions,
        state_points(simulator, settings, solved, state).contains(v),
    ensures
        v.quality == 0,
    decreases state.steps_budget,
{
    if v != (ParetoValue { progress: 0, quality: 0 }) {
        let k = choose|k: int|
            0 <= k < simulator.combos.len() && #[trigger] step_points(
                settings,
                solved,
                step_of(simulator, settings, state, simulator.combos[k]),
            ).contains(v);
        let step = step_of(simulator, settings, state, simulator.combos[k]);
        lemma_locked_step(simulator, settings, state, simulator.combos[k]);
        match step {
            Step::Child { child, progress, quality } => {
                let front = child_front(settings, solved, child);
                let i = choose|i: int|
                    0 <= i < front.len() && v == shift_clamp(
                        #[trigger] front[i],
                        progress,
                        quality,
                        settings.spec_max_progress(),
                        settings.spec_max_quality(),
                    );
                if solved.contains_key(child) {
                    assert(entry_solved(simulator, settings, solved, child));
                    assert(state_points(simulator, settings, solved, child).contains(front[i]));
                    lemma_locked_state_has_no_quality(
                        simulator,
                        settings,
                        templates,
                        layers,
                        solved,
                        child,
                        front[i],
                    );
                }
            },
            _ => {},
        }
    }
}

/// More steps never hurt: of two states of one template that both have a
/// frontier, the frontier of the one with more steps left covers every point
/// of the other frontier. This holds where a state that allows no quality
/// action gains no quality.
pub proof fn lemma_monotone_layers<
    F: Fn(&Settings, SimulationState, Action) -> Option<SimulationState>,
>(
    simulator: &SimulatorCore<F>,
    settings: SolverSettings,
    templates: Seq<Template>,
    layers: int,
    solved: Map<ReducedState, Seq<ParetoValue>>,
    lower: ReducedState,
    higher: ReducedState,
)
    requires
        coherent(simulator, settings, templates, layers, solved),
        outcomes_well_formed(simulator, settings),
        quality_locked(simulator, settings),
        Template::of(lower) == Template::of(higher),
        lower.steps_budget < higher.steps_budget,
        solved.contains_key(lower),
        solved.contains_key(higher),
    ensures
        front_covers(solved[higher], solved[lower]),
{
    assert forall|i: int| 0 <= i < solved[lower].len() implies covered(
        solved[higher],
        #[trigger] solved[lower][i],
    ) by {
        assert(entry_solved(simulator, settings, solved, lower));
        assert(state_points(simulator, settings, solved, lower).contains(solved[lower][i]));
        lemma_more_steps_cover(
            simulator,
            settings,
            templates,
            layers,
            solved,
            lower,
            higher,
            solved[lower][i],
        );
    }
}

/// Every point that a state opens is covered by the frontier of the state of
/// the same template with more steps left.
proof fn lemma_more_steps_cover<
    F: Fn(&Settings, SimulationState, Action) -> Option<SimulationState>,
>(
    simulator: &SimulatorCore<F>,
    settings: SolverSettings,
    templates: Seq<Template>,
    layers: int,
    solved: Map<ReducedState, Seq<ParetoValue>>,
    lower: ReducedState,
    higher: ReducedState,
    v: ParetoValue,
)
    requires
        coherent(simulator, settings, templates, layers, solved),
        outcomes_well_formed(simulator, settings),
        quality_locked(simulator, settings),
        Template::of(lower) == Template::of(higher),
        lower.steps_budget <= higher.steps_budget,
        solved.contains_key(lower),
        solved.contains_key(higher),
        state_points(simulator, settings, solved, lower).contains(v),
    ensures
        covered(solved[higher], v),
    decreases lower.steps_budget,
{
    let max_progress = settings.spec_max_progress();
    let max_quality = settings.spec_max_quality();
    let origin = ParetoValue { progress: 0, quality: 0 };
    assert(entry_solved(simulator, settings, solved, lower));
    assert(entry_solved(simulator, settings, solved, higher));
    let high_points = state_points(simulator, settings, solved, higher);
    if v == origin {
        assert(high_points.contains(v));
    } else {
        let k = choose|k: int|
            0 <= k < simulator.combos.len() && #[trigger] step_points(
                settings,
                solved,
                step_of(simulator, settings, lower, simulator.combos[k]),
            ).contains(v);
        let combo = simulator.combos[k];
        let low_step = step_of(simulator, settings, lower, combo);
        let high_step = step_of(simulator, settings, higher, combo);
        assert(lower.spec_to_state() == higher.spec_to_state());
        assert(Template::of(lower).is_reduced());
        lemma_locked_step(simulator, settings, lower, combo);
        lemma_locked_step(simulator, settings, higher, combo);
        assert(!step_fails(solved, high_step));
        // a point w that the step opens from `higher` and that is as good as v
        let w: ParetoValue = match low_step {
            Step::Skip => v,
            Step::Last { progress, quality } => match high_step {
                Step::Child { child, progress: p, quality: q } => {
                    let front = child_front(settings, solved, child);
                    let j = if solved.contains_key(child) {
                        assert(entry_solved(simulator, settings, solved, child));
                        assert(state_points(simulator, settings, solved, child).contains(origin));
                        covering_index(front, origin)
                    } else {
                        0
                    };
                    shift_clamp(front[j], p, q, max_progress, max_quality)
                },
                _ => v,
            },
            Step::Child { child: low_child, progress, quality } => match high_step {
                Step::Child { child: high_child, progress: p, quality: q } => {
                    let low_front = child_front(settings, solved, low_child);
                    let high_front = child_front(settings, solved, high_child);
                    let i = choose|i: int|
                        0 <= i < low_front.len() && v == shift_clamp(
                            #[trigger] low_front[i],
                            progress,
                            quality,
                            max_progress,
                            max_quality,
                        );
                    let j = if solved.contains_key(high_child) {
                        lemma_frontiers_downward(
                            simulator,
                            settings,
                            templates,
                            layers,
                            solved,
                            low_child,
                            high_child,
                        );
                        assert(entry_solved(simulator, settings, solved, low_child));
                        assert(state_points(simulator, settings, solved, low_child).contains(
                            low_front[i],
                        ));
                        lemma_more_steps_cover(
                            simulator,
                            settings,
                            templates,
                            layers,
                            solved,
                            low_child,
                            high_child,
                            low_front[i],
                        );
                        covering_index(high_front, low_front[i])
                    } else {
                        if solved.contains_key(low_child) {
                            assert(entry_solved(simulator, settings, solved, low_child));
                            assert(state_points(simulator, settings, solved, low_child).contains(
                                low_front[i],
                            ));
                            lemma_locked_state_has_no_quality(
                                simulator,
                                settings,
                                templates,
                                layers,
                                solved,
                                low_child,
                                low_front[i],
                            );
                            crate::layers::lemma_frontiers_well_formed(
                                simulator,
                                settings,
                                templates,
                                layers,
                                solved,
                                low_child,
                            );
                        }
                        0
                    };
                    shift_clamp(high_front[j], p, q, max_progress, max_quality)
                },
                _ => v,
            },
        };
        assert(dominates(w, v));
        assert(step_points(settings, solved, high_step).contains(w));
        lemma_step_point(simulator, settings, solved, higher, k, w);
        let m = covering_index(solved[higher], w);
        lemma_covered_by(solved[higher], m, v);
    }
}

} // verus!
