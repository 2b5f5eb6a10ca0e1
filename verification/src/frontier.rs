use crate::actions::{use_action_combo, ActionCombo, SimulatorCore};
use crate::error::{is_internal_error, SolverException};
use crate::pareto::{clamp, is_front_of, shifted_points, ParetoValue};
use crate::reduced_state::{ReducedState, Template};
use crate::simulation::{Action, Settings, SimulationState, SolverSettings};
use vstd::prelude::*;

verus! {

/// What one entry of the catalog does from a reduced state.
#[derive(Clone, Copy, Debug, PartialEq, Eq, Structural)]
pub enum Step {
    /// The entry cannot be used: it takes no step or more steps than are left,
    /// or an action of it is refused.
    Skip,
    /// The entry can be used and nothing can follow it: no step or no
    /// durability is left.
    Last { progress: u32, quality: u32 },
    /// The entry can be used, and the craft goes on from `child`.
    Child { child: ReducedState, progress: u32, quality: u32 },
}

/// The step that `combo` is from `state`.
pub open spec fn step_of<F: Fn(&Settings, SimulationState, Action) -> Option<SimulationState>>(
    simulator: &SimulatorCore<F>,
    settings: SolverSettings,
    state: ReducedState,
    combo: ActionCombo,
) -> Step {
    if combo.steps == 0 || state.steps_budget < combo.steps {
        Step::Skip
    } else {
        match simulator.spec_use_combo(settings.simulator_settings, state.spec_to_state(), combo) {
            Err(_) => Step::Skip,
            Ok(next) => if state.steps_budget > combo.steps && next.durability > 0 {
                Step::Child {
                    child: ReducedState::spec_from_state(
                        next,
                        (state.steps_budget - combo.steps) as u8,
                    ),
                    progress: next.progress,
                    quality: next.quality,
                }
            } else {
                Step::Last { progress: next.progress, quality: next.quality }
            },
        }
    }
}

/// The frontier that stands for a state without a stored one: the state was
/// dropped because it had reached full progress.
pub open spec fn saturated_front(settings: SolverSettings) -> Seq<ParetoValue> {
    seq![ParetoValue { progress: settings.spec_max_progress(), quality: 0 }]
}

/// The frontier that a parent reads for `child`.
pub open spec fn child_front(
    settings: SolverSettings,
    solved: Map<ReducedState, Seq<ParetoValue>>,
    child: ReducedState,
) -> Seq<ParetoValue> {
    if solved.contains_key(child) {
        solved[child]
    } else {
        saturated_front(settings)
    }
}

/// The outcomes that a step opens.
pub open spec fn step_points(
    settings: SolverSettings,
    solved: Map<ReducedState, Seq<ParetoValue>>,
    step: Step,
) -> Set<ParetoValue> {
    match step {
        Step::Skip => Set::empty(),
        Step::Last { progress, quality } => if progress > 0 {
            set![clamp(
                ParetoValue { progress, quality },
                settings.spec_max_progress(),
                settings.spec_max_quality(),
            )]
        } else {
            Set::empty()
        },
        Step::Child { child, progress, quality } => shifted_points(
            child_front(settings, solved, child),
            progress,
            quality,
            settings.spec_max_progress(),
            settings.spec_max_quality(),
        ),
    }
}

/// The step leads to a child that has no frontier though it should have one:
/// only a state that allows no quality action is ever dropped for good.
pub open spec fn step_fails(solved: Map<ReducedState, Seq<ParetoValue>>, step: Step) -> bool {
    match step {
        Step::Child { child, progress, quality } => !solved.contains_key(child)
            && child.effects@.allow_quality_actions,
        _ => false,
    }
}

/// The outcomes that the first `upto` entries of the catalog open from
/// `state`, together with the outcome of doing nothing.
pub open spec fn candidate_points<
    F: Fn(&Settings, SimulationState, Action) -> Option<SimulationState>,
>(
    simulator: &SimulatorCore<F>,
    settings: SolverSettings,
    solved: Map<ReducedState, Seq<ParetoValue>>,
    state: ReducedState,
    upto: int,
) -> Set<ParetoValue> {
    Set::new(
        |v: ParetoValue|
            v == (ParetoValue { progress: 0, quality: 0 }) || exists|k: int|
                0 <= k < upto && k < simulator.combos.len() && #[trigger] step_points(
                    settings,
                    solved,
                    step_of(simulator, settings, state, simulator.combos[k]),
                ).contains(v),
    )
}

/// All outcomes that are open from `state`.
pub open spec fn state_points<F: Fn(&Settings, SimulationState, Action) -> Option<SimulationState>>(
    simulator: &SimulatorCore<F>,
    settings: SolverSettings,
    solved: Map<ReducedState, Seq<ParetoValue>>,
    state: ReducedState,
) -> Set<ParetoValue> {
    candidate_points(simulator, settings, solved, state, simulator.combos.len() as int)
}

/// No entry of the catalog leads from `state` to a child that is missing.
pub open spec fn solvable<F: Fn(&Settings, SimulationState, Action) -> Option<SimulationState>>(
    simulator: &SimulatorCore<F>,
    settings: SolverSettings,
    solved: Map<ReducedState, Seq<ParetoValue>>,
    state: ReducedState,
) -> bool {
    forall|k: int|
        0 <= k < simulator.combos.len() ==> !step_fails(
            solved,
            #[trigger] step_of(simulator, settings, state, simulator.combos[k]),
        )
}

/// What solving `state` against the table `solved` gives: the Pareto front of
/// what the state opens, or the internal error if a child is missing.
pub open spec fn solve_outcome<
    F: Fn(&Settings, SimulationState, Action) -> Option<SimulationState>,
>(
    simulator: &SimulatorCore<F>,
    settings: SolverSettings,
    solved: Map<ReducedState, Seq<ParetoValue>>,
    state: ReducedState,
    outcome: Result<Vec<ParetoValue>, SolverException>,
) -> bool {
    match outcome {
        Ok(front) => solvable(simulator, settings, solved, state) && is_front_of(
            front@,
            state_points(simulator, settings, solved, state),
        ),
        Err(e) => !solvable(simulator, settings, solved, state) && is_internal_error(
            e,
            "StepLbSolver: Missing child state."@,
        ),
    }
}

/// Two tables hold the same for every state with fewer than `budget` steps left.
pub open spec fn agree_below(
    a: Map<ReducedState, Seq<ParetoValue>>,
    b: Map<ReducedState, Seq<ParetoValue>>,
    budget: int,
) -> bool {
    forall|state: ReducedState|
        state.steps_budget < budget ==> (#[trigger] a.contains_key(state) == b.contains_key(state))
            && (a.contains_key(state) ==> a[state] == b[state])
}

/// The step that `combo` is from `state`.
pub fn next_step<F: Fn(&Settings, SimulationState, Action) -> Option<SimulationState>>(
    simulator: &SimulatorCore<F>,
    settings: &SolverSettings,
    state: ReducedState,
    combo: &ActionCombo,
) -> (r: Step)
    requires
        simulator.wf(),
    ensures
        r == step_of(simulator, *settings, state, *combo),
        r matches Step::Child { child, progress, quality } ==> Template::of(child).is_reduced()
            && 1 <= child.steps_budget < state.steps_budget,
{
    if combo.steps() == 0 || state.steps_budget < combo.steps() {
        return Step::Skip;
    }
    let new_step_budget = state.steps_budget - combo.steps();
    match use_action_combo(simulator, settings, state.to_state(), combo) {
        Err(_) => Step::Skip,
        Ok(new_state) => {
            if new_step_budget > 0 && new_state.durability > 0 {
                Step::Child {
                    child: ReducedState::from_state(new_state, new_step_budget),
                    progress: new_state.progress,
                    quality: new_state.quality,
                }
            } else {
                Step::Last { progress: new_state.progress, quality: new_state.quality }
            }
        },
    }
}

/// What a state opens depends only on the frontiers of states with fewer
/// steps left.
pub proof fn lemma_points_depend_on_lower_budgets<
    F: Fn(&Settings, SimulationState, Action) -> Option<SimulationState>,
>(
    simulator: &SimulatorCore<F>,
    settings: SolverSettings,
    a: Map<ReducedState, Seq<ParetoValue>>,
    b: Map<ReducedState, Seq<ParetoValue>>,
    state: ReducedState,
)
    requires
        agree_below(a, b, state.steps_budget as int),
    ensures
        state_points(simulator, settings, a, state) == state_points(simulator, settings, b, state),
        solvable(simulator, settings, a, state) == solvable(simulator, settings, b, state),
{
    assert forall|k: int| 0 <= k < simulator.combos.len() implies ({
        let step = #[trigger] step_of(simulator, settings, state, simulator.combos[k]);
        &&& step_points(settings, a, step) == step_points(settings, b, step)
        &&& step_fails(a, step) == step_fails(b, step)
    }) by {
        let step = step_of(simulator, settings, state, simulator.combos[k]);
        match step {
            Step::Child { child, progress, quality } => {
                assert(a.contains_key(child) == b.contains_key(child));
            },
            _ => {},
        }
    }
    assert(state_points(simulator, settings, a, state) =~= state_points(
        simulator,
        settings,
        b,
        state,
    ));
}

} // verus!
