use crate::actions::SimulatorCore;
use crate::frontier::{child_front, saturated_front, state_points, step_of, step_points, Step};
use crate::layers::{coherent, entry_solved};
use crate::pareto::{clamp, shift_clamp, ParetoValue};
use crate::reduced_state::{ReducedState, Template};
use crate::simulation::{Action, Settings, SimulationState, SolverSettings};
use vstd::prelude::*;

verus! {

/// The entry at the place `k` of the catalog leads from `state` to the point
/// `v`: it ends the craft with `v`, or it leads to a child and moves the point
/// `w` to `v`, where `w` is a point of the child's frontier or, for a child
/// that was dropped, full progress without quality.
pub open spec fn leads_to<F: Fn(&Settings, SimulationState, Action) -> Option<SimulationState>>(
    simulator: &SimulatorCore<F>,
    settings: SolverSettings,
    solved: Map<ReducedState, Seq<ParetoValue>>,
    state: ReducedState,
    k: int,
    w: ParetoValue,
    v: ParetoValue,
) -> bool {
    match step_of(simulator, settings, state, simulator.combos[k]) {
        Step::Skip => false,
        Step::Last { progress, quality } => progress > 0 && v == clamp(
            ParetoValue { progress, quality },
            settings.spec_max_progress(),
            settings.spec_max_quality(),
        ),
        Step::Child { child, progress, quality } => {
            &&& v == shift_clamp(
                w,
                progress,
                quality,
                settings.spec_max_progress(),
                settings.spec_max_quality(),
            )
            &&& if solved.contains_key(child) {
                solved[child].contains(w)
            } else {
                w == saturated_front(settings)[0]
            }
        },
    }
}

/// The point `v` is made of entries of the catalog, used one after the other
/// from `state`: it is the point of doing nothing, or an entry leads to it,
/// from a point of the child that is made of entries in its turn.
pub open spec fn attained<F: Fn(&Settings, SimulationState, Action) -> Option<SimulationState>>(
    simulator: &SimulatorCore<F>,
    settings: SolverSettings,
    solved: Map<ReducedState, Seq<ParetoValue>>,
    state: ReducedState,
    v: ParetoValue,
) -> bool
    decreases state.steps_budget,
{
    v == (ParetoValue { progress: 0, quality: 0 }) || exists|k: int, w: ParetoValue|
        0 <= k < simulator.combos.len() && #[trigger] leads_to(
            simulator,
            settings,
            solved,
            state,
            k,
            w,
            v,
        ) && match step_of(simulator, settings, state, simulator.combos[k]) {
            Step::Child { child, progress, quality } => solved.contains_key(child)
                && child.steps_budget < state.steps_budget ==> attained(
                simulator,
                settings,
                solved,
                child,
                w,
            ),
            _ => true,
        }
}

/// No point of a frontier is made up: each is made of entries of the catalog.
pub proof fn lemma_points_are_attained<
    F: Fn(&Settings, SimulationState, Action) -> Option<SimulationState>,
>(
    simulator: &SimulatorCore<F>,
    settings: SolverSettings,
    templates: Seq<Template>,
    layers: int,
    solved: Map<ReducedState, Seq<ParetoValue>>,
    state: ReducedState,
    i: int,
)
    requires
        coherent(simulator, settings, templates, layers, solved),
        solved.contains_key(state),
        0 <= i < solved[state].len(),
    ensures
        attained(simulator, settings, solved, state, solved[state][i]),
    decreases state.steps_budget,
{
    let v = solved[state][i];
    assert(entry_solved(simulator, settings, solved, state));
    assert(state_points(simulator, settings, solved, state).contains(v));
    if v != (ParetoValue { progress: 0, quality: 0 }) {
        let k = choose|k: int|
            0 <= k < simulator.combos.len() && #[trigger] step_points(
                settings,
                solved,
                step_of(simulator, settings, state, simulator.combos[k]),
            ).contains(v);
        let step = step_of(simulator, settings, state, simulator.combos[k]);
        match step {
            Step::Child { child, progress, quality } => {
                let front = child_front(settings, solved, child);
                let j = choose|j: int|
                    0 <= j < front.len() && v == shift_clamp(
                        #[trigger] front[j],
                        progress,
                        quality,
                        settings.spec_max_progress(),
                        settings.spec_max_quality(),
                    );
                let w = front[j];
                if solved.contains_key(child) {
                    assert(solved[child][j] == w);
                    lemma_points_are_attained(
                        simulator,
                        settings,
                        templates,
                        layers,
                        solved,
                        child,
                        j,
                    );
                }
                assert(leads_to(simulator, settings, solved, state, k, w, v));
            },
            _ => {
                assert(leads_to(simulator, settings, solved, state, k, v, v));
            },
        }
    }
}

} // verus!
