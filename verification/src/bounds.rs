use crate::effects::{effects_of, Effects, EffectsView};
use crate::pareto::{is_front, ParetoValue};
use crate::reduced_state::ReducedState;
use crate::simulation::{SimulationState, SolverSettings};
use vstd::prelude::*;

verus! {

/// The quality of the first point, from the place `from` on, that has at least
/// the progress `required`. On a frontier this is the most quality that goes
/// with that much progress.
pub open spec fn quality_at(front: Seq<ParetoValue>, required: int, from: int) -> Option<u32>
    decreases front.len() - from,
{
    if from < 0 || from >= front.len() {
        None
    } else if front[from].progress >= required {
        Some(front[from].quality)
    } else {
        quality_at(front, required, from + 1)
    }
}

/// The progress that `state` still lacks. A state under Muscle Memory is
/// taken to gain the most that one action can add.
pub open spec fn required_progress(
    settings: SolverSettings,
    largest_progress_increase: u32,
    state: SimulationState,
) -> int {
    let open = if settings.spec_max_progress() > state.progress {
        settings.spec_max_progress() - state.progress
    } else {
        0
    };
    if state.effects@.muscle_memory == 0 {
        open
    } else if open > largest_progress_increase {
        open - largest_progress_increase
    } else {
        0
    }
}

/// The effects without Muscle Memory.
pub open spec fn without_muscle_memory(effects: Effects) -> Effects {
    effects_of(EffectsView { muscle_memory: 0, ..effects@ })
}

/// The reduced state whose frontier answers for `state`: that of `state`
/// without Muscle Memory.
pub open spec fn query_state(state: SimulationState, step_budget: u8) -> ReducedState {
    if state.effects@.muscle_memory == 0 {
        ReducedState::spec_from_state(state, step_budget)
    } else {
        ReducedState::spec_from_state(
            SimulationState { effects: without_muscle_memory(state.effects), ..state },
            step_budget,
        )
    }
}

/// The sum of two qualities, or the largest `u32` where the sum is larger.
pub open spec fn quality_sum(a: u32, b: u32) -> u32 {
    if a + b <= u32::MAX {
        (a + b) as u32
    } else {
        u32::MAX
    }
}

/// The answer of a quality query. `None`: the table has no frontier for the
/// state. `Some(None)`: full progress is out of reach within the step budget.
/// `Some(Some(q))`: with full progress, the quality can come to `q` at most.
pub open spec fn spec_quality_upper_bound(
    settings: SolverSettings,
    largest_progress_increase: u32,
    solved: Map<ReducedState, Seq<ParetoValue>>,
    state: SimulationState,
    step_budget: u8,
) -> Option<Option<u32>> {
    let reduced = query_state(state, step_budget);
    if !solved.contains_key(reduced) {
        None
    } else {
        Some(
            match quality_at(
                solved[reduced],
                required_progress(settings, largest_progress_increase, state),
                0,
            ) {
                Some(quality) => Some(quality_sum(state.quality, quality)),
                None => None,
            },
        )
    }
}

/// The first step budget from `step_budget` on whose quality bound reaches the
/// target, or 255 if none below 255 does. `None`: a query on the way met a
/// state without a frontier.
pub open spec fn first_sufficient_budget(
    settings: SolverSettings,
    largest_progress_increase: u32,
    solved: Map<ReducedState, Seq<ParetoValue>>,
    state: SimulationState,
    step_budget: int,
) -> Option<u8>
    decreases 256 - step_budget,
{
    if step_budget < 0 || step_budget > 255 {
        Some(u8::MAX)
    } else {
        match spec_quality_upper_bound(
            settings,
            largest_progress_increase,
            solved,
            state,
            step_budget as u8,
        ) {
            None => None,
            Some(bound) => if step_budget == 255 || (bound is Some && bound.unwrap()
                >= settings.spec_max_quality()) {
                Some(step_budget as u8)
            } else {
                first_sufficient_budget(
                    settings,
                    largest_progress_increase,
                    solved,
                    state,
                    step_budget + 1,
                )
            },
        }
    }
}

/// The answer of a step query: 255 at once for a state that is short of the
/// target quality and allows no quality action, else the first sufficient step
/// budget from the hint on, and from 1 at least.
pub open spec fn spec_step_lower_bound(
    settings: SolverSettings,
    largest_progress_increase: u32,
    solved: Map<ReducedState, Seq<ParetoValue>>,
    state: SimulationState,
    hint: u8,
) -> Option<u8> {
    if !state.effects@.allow_quality_actions && state.quality < settings.spec_max_quality() {
        Some(u8::MAX)
    } else {
        first_sufficient_budget(
            settings,
            largest_progress_increase,
            solved,
            state,
            if hint >= 1 {
                hint as int
            } else {
                1
            },
        )
    }
}

/// On a list in the order of rising progress, the points before `upto` that
/// all lack progress do not count.
proof fn lemma_quality_at_skips(front: Seq<ParetoValue>, required: int, from: int, upto: int)
    requires
        0 <= from <= upto <= front.len(),
        forall|i: int| from <= i < upto ==> (#[trigger] front[i]).progress < required,
    ensures
        quality_at(front, required, from) == quality_at(front, required, upto),
    decreases upto - from,
{
    if from < upto {
        lemma_quality_at_skips(front, required, from + 1, upto);
    }
}

/// The quality of the first point of `front` with at least the progress
/// `required`, found by bisection.
pub fn best_quality(front: &Vec<ParetoValue>, required: u32) -> (r: Option<u32>)
    requires
        is_front(front@),
    ensures
        r == quality_at(front@, required as int, 0),
{
    let mut low: usize = 0;
    let mut high: usize = front.len();
    while low < high
        invariant
            low <= high <= front.len(),
            is_front(front@),
            forall|i: int| 0 <= i < low ==> (#[trigger] front[i]).progress < required,
            forall|i: int| high <= i < front.len() ==> (#[trigger] front[i]).progress >= required,
        decreases high - low,
    {
        let mid = low + (high - low) / 2;
        if front[mid].progress < required {
            proof {
                assert forall|i: int| 0 <= i < mid + 1 implies (#[trigger] front[i]).progress
                    < required by {
                    if i < mid {
                        assert(front[i].progress < front[mid as int].progress);
                    }
                }
            }
            low = mid + 1;
        } else {
            proof {
                assert forall|i: int| mid <= i < front.len() implies (#[trigger] front[i]).progress
                    >= required by {
                    if i > mid {
                        assert(front[mid as int].progress < front[i].progress);
                    }
                }
            }
            high = mid;
        }
    }
    proof {
        lemma_quality_at_skips(front@, required as int, 0, low as int);
    }
    if low < front.len() {
        Some(front[low].quality)
    } else {
        None
    }
}

} // verus!
