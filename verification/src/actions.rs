use crate::effects::Effects;
use crate::simulation::{Action, Settings, SimulationState, SolverSettings};
use vstd::prelude::*;

verus! {

/// Why an action could not be used.
#[derive(Clone, Copy, Debug, PartialEq, Eq, Hash, Structural)]
pub enum ActionError {
    /// The settings do not allow the action.
    NotAllowed,
    /// The simulator refused the action in this state.
    Rejected,
}

/// One entry of the catalog: a few actions that are used in a row, and the
/// number of steps that they take together. An entry that takes no step adds
/// nothing to a frontier; the templates that it leads to are listed all the
/// same.
#[derive(Clone, Debug)]
pub struct ActionCombo {
    pub actions: Vec<Action>,
    pub steps: u8,
}

impl ActionCombo {
    pub fn new(actions: Vec<Action>, steps: u8) -> (r: ActionCombo)
        ensures
            r.actions == actions,
            r.steps == steps,
    {
        ActionCombo { actions, steps }
    }

    /// An entry of one action and one step.
    pub fn single(action: Action) -> (r: ActionCombo)
        ensures
            r.actions@ == seq![action],
            r.steps == 1,
    {
        let mut actions: Vec<Action> = Vec::new();
        actions.push(action);
        ActionCombo { actions, steps: 1 }
    }

    /// The number of steps that the entry takes.
    pub fn steps(&self) -> (r: u8)
        ensures
            r == self.steps,
    {
        self.steps
    }
}

/// `better` is never worse than `worse`: where both are allowed, `worse` can go.
#[derive(Clone, Copy, Debug, PartialEq, Eq, Hash, Structural)]
pub struct DominanceRule {
    pub better: Action,
    pub worse: Action,
}

/// What the solver takes from the simulator: the catalog, what is known of the
/// game's actions, and the function that applies one action to a state.
pub struct SimulatorCore<F> {
    /// The catalog of entries that the search tries.
    pub combos: Vec<ActionCombo>,
    /// Which action makes which other one superfluous.
    pub dominance: Vec<DominanceRule>,
    /// The effects that a craft starts with.
    pub initial_effects: Effects,
    /// For each number of Inner Quiet stacks, a quality that a state with that
    /// many stacks has reached at least.
    pub iq_quality_lut: [u32; 11],
    /// The most progress that one action can add.
    pub largest_progress_increase: u32,
    /// Applies one action. `None` where the action cannot be used.
    pub apply: F,
    /// What `apply` returns, as a function of its arguments.
    pub model: Ghost<spec_fn(Settings, SimulationState, Action) -> Option<SimulationState>>,
}

/// `apply` can be called on every input.
pub open spec fn applies_everywhere<
    F: Fn(&Settings, SimulationState, Action) -> Option<SimulationState>,
>(apply: &F) -> bool {
    forall|settings: &Settings, state: SimulationState, action: Action|
        apply.requires((settings, state, action))
}

/// `apply` returns nothing but what `model` gives for its arguments.
pub open spec fn answers_as<F: Fn(&Settings, SimulationState, Action) -> Option<SimulationState>>(
    apply: &F,
    model: spec_fn(Settings, SimulationState, Action) -> Option<SimulationState>,
) -> bool {
    forall|settings: &Settings, state: SimulationState, action: Action, r: Option<SimulationState>|
        #[trigger] apply.ensures((settings, state, action), r) ==> r == model(
            *settings,
            state,
            action,
        )
}

/// `apply` returns the same for the same arguments.
pub open spec fn answers_alike<F: Fn(&Settings, SimulationState, Action) -> Option<SimulationState>>(
    apply: &F,
) -> bool {
    forall|
        settings: &Settings,
        state: SimulationState,
        action: Action,
        r1: Option<SimulationState>,
        r2: Option<SimulationState>,
    |
        apply.ensures((settings, state, action), r1) && apply.ensures((settings, state, action), r2)
            ==> r1 == r2
}

impl<F: Fn(&Settings, SimulationState, Action) -> Option<SimulationState>> SimulatorCore<F> {
    /// `apply` can be called on every input, and returns what `model` gives.
    pub open spec fn wf(&self) -> bool {
        applies_everywhere(&self.apply) && answers_as(&self.apply, self.model@)
    }

    /// What `apply` returns.
    pub open spec fn outcome(
        &self,
        settings: Settings,
        state: SimulationState,
        action: Action,
    ) -> Option<SimulationState> {
        (self.model@)(settings, state, action)
    }

    /// A simulator around a function of which no more is known than that it
    /// can be called on every input and returns the same for the same arguments.
    pub fn new(
        combos: Vec<ActionCombo>,
        dominance: Vec<DominanceRule>,
        initial_effects: Effects,
        iq_quality_lut: [u32; 11],
        largest_progress_increase: u32,
        apply: F,
    ) -> (r: Self)
        requires
            applies_everywhere(&apply),
            answers_alike(&apply),
        ensures
            r.wf(),
            r.combos == combos,
            r.dominance == dominance,
            r.initial_effects == initial_effects,
            r.iq_quality_lut == iq_quality_lut,
            r.largest_progress_increase == largest_progress_increase,
            r.apply == apply,
    {
        let ghost model = |settings: Settings, state: SimulationState, action: Action|
            choose|r: Option<SimulationState>| apply.ensures((&settings, state, action), r);
        SimulatorCore {
            combos,
            dominance,
            initial_effects,
            iq_quality_lut,
            largest_progress_increase,
            apply,
            model: Ghost(model),
        }
    }

    /// One action: refused where the settings do not allow it, else as the
    /// simulator says.
    pub open spec fn spec_use_action(
        &self,
        settings: Settings,
        state: SimulationState,
        action: Action,
    ) -> Result<SimulationState, ActionError> {
        if !settings.allowed_action_mask@.contains(action) {
            Err(ActionError::NotAllowed)
        } else {
            match self.outcome(settings, state, action) {
                Some(next) => Ok(next),
                None => Err(ActionError::Rejected),
            }
        }
    }

    /// The actions from `from` on, one after the other; the first failure ends it.
    pub open spec fn spec_use_actions(
        &self,
        settings: Settings,
        state: SimulationState,
        actions: Seq<Action>,
        from: int,
    ) -> Result<SimulationState, ActionError>
        decreases actions.len() - from,
    {
        if from < 0 || from >= actions.len() {
            Ok(state)
        } else {
            match self.spec_use_action(settings, state, actions[from]) {
                Ok(next) => self.spec_use_actions(settings, next, actions, from + 1),
                Err(e) => Err(e),
            }
        }
    }

    /// A whole entry of the catalog, applied as one.
    pub open spec fn spec_use_combo(
        &self,
        settings: Settings,
        state: SimulationState,
        combo: ActionCombo,
    ) -> Result<SimulationState, ActionError> {
        self.spec_use_actions(settings, state, combo.actions@, 0)
    }

    /// Uses one action.
    pub fn use_action(&self, settings: &Settings, state: SimulationState, action: Action) -> (r:
        Result<SimulationState, ActionError>)
        requires
            self.wf(),
        ensures
            r == self.spec_use_action(*settings, state, action),
    {
        if !settings.allowed_action_mask.has(action) {
            return Err(ActionError::NotAllowed);
        }
        match (self.apply)(settings, state, action) {
            Some(next) => Ok(next),
            None => Err(ActionError::Rejected),
        }
    }
}

/// Uses all actions of an entry, or none: the state is returned only if every
/// action went through.
pub fn use_action_combo<F: Fn(&Settings, SimulationState, Action) -> Option<SimulationState>>(
    simulator: &SimulatorCore<F>,
    settings: &SolverSettings,
    state: SimulationState,
    combo: &ActionCombo,
) -> (r: Result<SimulationState, ActionError>)
    requires
        simulator.wf(),
    ensures
        r == simulator.spec_use_combo(settings.simulator_settings, state, *combo),
{
    let mut current = state;
    let mut i: usize = 0;
    while i < combo.actions.len()
        invariant
            simulator.wf(),
            i <= combo.actions.len(),
            simulator.spec_use_combo(settings.simulator_settings, state, *combo)
                == simulator.spec_use_actions(
                settings.simulator_settings,
                current,
                combo.actions@,
                i as int,
            ),
        decreases combo.actions.len() - i,
    {
        match simulator.use_action(&settings.simulator_settings, current, combo.actions[i]) {
            Ok(next) => {
                current = next;
            },
            Err(e) => {
                return Err(e);
            },
        }
        i = i + 1;
    }
    Ok(current)
}

} // verus!
