use crate::actions::SimulatorCore;
use crate::bounds::{query_state, spec_quality_upper_bound};
use crate::effects::Effects;
use crate::frontier::{agree_below, lemma_points_depend_on_lower_budgets, solvable, state_points};
use crate::pareto::{
    covering_index, is_front, is_front_of, lemma_front_unique, within_limits, ParetoValue,
};
use crate::reduced_state::{ReducedState, Template};
use crate::simulation::{Action, Settings, SimulationState, SolverSettings};
use vstd::prelude::*;

verus! {

/// The most quality that a state with these effects can still need: none if it
/// allows no quality action, else the target less what its Inner Quiet stacks
/// show that it has reached.
pub open spec fn max_needed_quality(
    settings: SolverSettings,
    iq_quality_lut: [u32; 11],
    effects: Effects,
) -> int {
    if effects@.allow_quality_actions && effects@.inner_quiet <= 10 {
        let reached = iq_quality_lut[effects@.inner_quiet as int];
        if settings.spec_max_quality() > reached {
            settings.spec_max_quality() - reached
        } else {
            0
        }
    } else {
        0
    }
}

/// A state with this frontier can still gain from more steps: its best
/// progress is short of the target, or the quality that goes with it is short
/// of what is needed.
pub open spec fn retains(
    settings: SolverSettings,
    iq_quality_lut: [u32; 11],
    effects: Effects,
    front: Seq<ParetoValue>,
) -> bool {
    front.len() > 0 && (front.last().progress < settings.spec_max_progress()
        || front.last().quality < max_needed_quality(settings, iq_quality_lut, effects))
}

/// The template has a frontier at each of the first `layers` step budgets,
/// and was kept after each.
pub open spec fn survives(
    settings: SolverSettings,
    iq_quality_lut: [u32; 11],
    solved: Map<ReducedState, Seq<ParetoValue>>,
    template: Template,
    layers: nat,
) -> bool
    decreases layers,
{
    layers == 0 || {
        let state = template.spec_instantiate(layers as u8);
        &&& survives(settings, iq_quality_lut, solved, template, (layers - 1) as nat)
        &&& solved.contains_key(state)
        &&& retains(settings, iq_quality_lut, state.effects, solved[state])
    }
}

/// The entry of `state` is what solving `state` against the table gives.
pub open spec fn entry_solved<F: Fn(&Settings, SimulationState, Action) -> Option<SimulationState>>(
    simulator: &SimulatorCore<F>,
    settings: SolverSettings,
    solved: Map<ReducedState, Seq<ParetoValue>>,
    state: ReducedState,
) -> bool {
    &&& solvable(simulator, settings, solved, state)
    &&& is_front_of(solved[state], state_points(simulator, settings, solved, state))
}

/// The table is what `layers` rounds of the precomputation leave: it holds a
/// state exactly if the state's template was kept up to the round before the
/// state's step budget, each frontier in it is the Pareto front of what its
/// state opens, and the last round had a template to work on.
pub open spec fn coherent<F: Fn(&Settings, SimulationState, Action) -> Option<SimulationState>>(
    simulator: &SimulatorCore<F>,
    settings: SolverSettings,
    templates: Seq<Template>,
    layers: int,
    solved: Map<ReducedState, Seq<ParetoValue>>,
) -> bool {
    &&& 0 <= layers <= 255
    &&& forall|state: ReducedState| #[trigger]
        solved.contains_key(state) ==> {
            &&& 1 <= state.steps_budget <= layers
            &&& templates.contains(Template::of(state))
            &&& Template::of(state).is_reduced()
            &&& entry_solved(simulator, settings, solved, state)
        }
    &&& forall|template: Template, budget: u8|
        templates.contains(template) && template.is_reduced() && 1 <= budget <= layers ==> (
        #[trigger] solved.contains_key(template.spec_instantiate(budget)) <==> survives(
            settings,
            simulator.iq_quality_lut,
            solved,
            template,
            (budget - 1) as nat,
        ))
    &&& layers > 0 ==> exists|template: Template|
        templates.contains(template) && template.is_reduced() && #[trigger] survives(
            settings,
            simulator.iq_quality_lut,
            solved,
            template,
            (layers - 1) as nat,
        )
}

/// Every frontier of the table is well formed: progress strictly rising,
/// quality strictly falling, nothing above the targets.
pub proof fn lemma_frontiers_well_formed<
    F: Fn(&Settings, SimulationState, Action) -> Option<SimulationState>,
>(
    simulator: &SimulatorCore<F>,
    settings: SolverSettings,
    templates: Seq<Template>,
    layers: int,
    solved: Map<ReducedState, Seq<ParetoValue>>,
    state: ReducedState,
)
    requires
        coherent(simulator, settings, templates, layers, solved),
        solved.contains_key(state),
    ensures
        is_front(solved[state]),
        within_limits(solved[state], settings.spec_max_progress(), settings.spec_max_quality()),
        solved[state].len() > 0,
{
    let front = solved[state];
    let points = state_points(simulator, settings, solved, state);
    lemma_state_points_within_limits(simulator, settings, solved, state);
    crate::pareto::lemma_front_within_limits(
        front,
        points,
        settings.spec_max_progress(),
        settings.spec_max_quality(),
    );
    assert(points.contains(ParetoValue { progress: 0, quality: 0 }));
    let i = covering_index(front, ParetoValue { progress: 0, quality: 0 });
}

/// What a state opens lies within the targets.
pub proof fn lemma_state_points_within_limits<
    F: Fn(&Settings, SimulationState, Action) -> Option<SimulationState>,
>(
    simulator: &SimulatorCore<F>,
    settings: SolverSettings,
    solved: Map<ReducedState, Seq<ParetoValue>>,
    state: ReducedState,
)
    ensures
        forall|v: ParetoValue| #[trigger]
            state_points(simulator, settings, solved, state).contains(v) ==> v.progress
                <= settings.spec_max_progress() && v.quality <= settings.spec_max_quality(),
{
}

/// Whether a template was kept up to a round depends only on the frontiers of
/// states with no more steps left than that round.
pub proof fn lemma_survives_depends_on_lower_budgets(
    settings: SolverSettings,
    iq_quality_lut: [u32; 11],
    a: Map<ReducedState, Seq<ParetoValue>>,
    b: Map<ReducedState, Seq<ParetoValue>>,
    template: Template,
    layers: nat,
)
    requires
        layers <= 255,
        agree_below(a, b, layers as int + 1),
    ensures
        survives(settings, iq_quality_lut, a, template, layers) == survives(
            settings,
            iq_quality_lut,
            b,
            template,
            layers,
        ),
    decreases layers,
{
    if layers > 0 {
        lemma_survives_depends_on_lower_budgets(
            settings,
            iq_quality_lut,
            a,
            b,
            template,
            (layers - 1) as nat,
        );
        let state = template.spec_instantiate(layers as u8);
        assert(a.contains_key(state) == b.contains_key(state));
    }
}

/// A reduced state with reduced effects is its template at its step budget.
pub proof fn lemma_instance_of_template(state: ReducedState)
    requires
        Template::of(state).is_reduced(),
    ensures
        Template::of(state).spec_instantiate(state.steps_budget) == state,
{
}

/// One more round: a table that holds what `layers` rounds leave, and on top
/// the frontier of each template that was kept so far at the next step
/// budget, holds what `layers + 1` rounds leave.
pub proof fn lemma_next_layer<F: Fn(&Settings, SimulationState, Action) -> Option<SimulationState>>(
    simulator: &SimulatorCore<F>,
    settings: SolverSettings,
    templates: Seq<Template>,
    layers: int,
    before: Map<ReducedState, Seq<ParetoValue>>,
    after: Map<ReducedState, Seq<ParetoValue>>,
)
    requires
        coherent(simulator, settings, templates, layers, before),
        layers < 255,
        forall|state: ReducedState| #[trigger]
            before.contains_key(state) ==> after.contains_key(state) && after[state]
                == before[state],
        forall|state: ReducedState| #[trigger]
            after.contains_key(state) && !before.contains_key(state) ==> {
                &&& state.steps_budget == layers + 1
                &&& templates.contains(Template::of(state))
                &&& Template::of(state).is_reduced()
                &&& survives(
                    settings,
                    simulator.iq_quality_lut,
                    before,
                    Template::of(state),
                    layers as nat,
                )
                &&& solvable(simulator, settings, before, state)
                &&& is_front_of(after[state], state_points(simulator, settings, before, state))
            },
        forall|template: Template|
            templates.contains(template) && template.is_reduced() && survives(
                settings,
                simulator.iq_quality_lut,
                before,
                template,
                layers as nat,
            ) ==> #[trigger] after.contains_key(template.spec_instantiate((layers + 1) as u8)),
        exists|template: Template|
            templates.contains(template) && template.is_reduced() && #[trigger] survives(
                settings,
                simulator.iq_quality_lut,
                before,
                template,
                layers as nat,
            ),
    ensures
        coherent(simulator, settings, templates, layers + 1, after),
        agree_below(before, after, layers + 1),
{
    let lut = simulator.iq_quality_lut;
    let worked = choose|template: Template|
        templates.contains(template) && template.is_reduced() && #[trigger] survives(
            settings,
            lut,
            before,
            template,
            layers as nat,
        );
    assert(agree_below(before, after, layers + 1)) by {
        assert forall|state: ReducedState| state.steps_budget < layers + 1 implies (
        #[trigger] before.contains_key(state) == after.contains_key(state)) && (
        before.contains_key(state) ==> before[state] == after[state]) by {
            if after.contains_key(state) && !before.contains_key(state) {
                assert(state.steps_budget == layers + 1);
            }
        }
    }
    assert forall|state: ReducedState| #[trigger] after.contains_key(state) implies {
        &&& 1 <= state.steps_budget <= layers + 1
        &&& templates.contains(Template::of(state))
        &&& Template::of(state).is_reduced()
        &&& entry_solved(simulator, settings, after, state)
    } by {
        assert(agree_below(before, after, state.steps_budget as int));
        lemma_points_depend_on_lower_budgets(simulator, settings, before, after, state);
        if before.contains_key(state) {
            assert(entry_solved(simulator, settings, before, state));
        }
    }
    assert forall|template: Template, budget: u8|
        templates.contains(template) && template.is_reduced() && 1 <= budget <= layers
            + 1 implies (#[trigger] after.contains_key(template.spec_instantiate(budget))
        <==> survives(settings, lut, after, template, (budget - 1) as nat)) by {
        let state = template.spec_instantiate(budget);
        assert(agree_below(before, after, budget as int));
        lemma_survives_depends_on_lower_budgets(
            settings,
            lut,
            before,
            after,
            template,
            (budget - 1) as nat,
        );
        if budget <= layers {
            assert(before.contains_key(state) == after.contains_key(state));
            assert(before.contains_key(template.spec_instantiate(budget)) <==> survives(
                settings,
                lut,
                before,
                template,
                (budget - 1) as nat,
            ));
        } else {
            assert(budget == (layers + 1) as u8);
            assert((budget - 1) as nat == layers as nat);
            assert(Template::of(state) == template);
            if before.contains_key(state) {
                assert(state.steps_budget <= layers);
            }
            if survives(settings, lut, before, template, layers as nat) {
                assert(after.contains_key(template.spec_instantiate((layers + 1) as u8)));
            }
        }
    }
    lemma_survives_depends_on_lower_budgets(settings, lut, before, after, worked, layers as nat);
    assert(survives(settings, lut, after, worked, ((layers + 1) - 1) as nat));
}

/// Two runs on the same input agree as far as both have come: the table after
/// fewer rounds is the table after more rounds, cut off at the step budget of
/// the shorter run.
pub proof fn lemma_runs_agree<F: Fn(&Settings, SimulationState, Action) -> Option<SimulationState>>(
    simulator: &SimulatorCore<F>,
    settings: SolverSettings,
    templates: Seq<Template>,
    shorter: int,
    longer: int,
    a: Map<ReducedState, Seq<ParetoValue>>,
    b: Map<ReducedState, Seq<ParetoValue>>,
)
    requires
        coherent(simulator, settings, templates, shorter, a),
        coherent(simulator, settings, templates, longer, b),
        shorter <= longer,
    ensures
        agree_below(a, b, shorter + 1),
{
    lemma_runs_agree_below(simulator, settings, templates, shorter, longer, a, b, shorter + 1);
}

proof fn lemma_runs_agree_below<
    F: Fn(&Settings, SimulationState, Action) -> Option<SimulationState>,
>(
    simulator: &SimulatorCore<F>,
    settings: SolverSettings,
    templates: Seq<Template>,
    shorter: int,
    longer: int,
    a: Map<ReducedState, Seq<ParetoValue>>,
    b: Map<ReducedState, Seq<ParetoValue>>,
    budget: int,
)
    requires
        coherent(simulator, settings, templates, shorter, a),
        coherent(simulator, settings, templates, longer, b),
        shorter <= longer,
        0 <= budget <= shorter + 1,
    ensures
        agree_below(a, b, budget),
    decreases budget,
{
    if budget <= 1 {
        assert forall|state: ReducedState| state.steps_budget < budget implies (
        #[trigger] a.contains_key(state) == b.contains_key(state)) && (a.contains_key(state)
            ==> a[state] == b[state]) by {}
    } else {
        lemma_runs_agree_below(simulator, settings, templates, shorter, longer, a, b, budget - 1);
        let lut = simulator.iq_quality_lut;
        assert forall|state: ReducedState| state.steps_budget < budget implies (
        #[trigger] a.contains_key(state) == b.contains_key(state)) && (a.contains_key(state)
            ==> a[state] == b[state]) by {
            if state.steps_budget == budget - 1 && (a.contains_key(state) || b.contains_key(
                state,
            )) {
                let template = Template::of(state);
                lemma_instance_of_template(state);
                lemma_survives_depends_on_lower_budgets(
                    settings,
                    lut,
                    a,
                    b,
                    template,
                    (budget - 2) as nat,
                );
                assert(a.contains_key(template.spec_instantiate(state.steps_budget)) <==> survives(
                    settings,
                    lut,
                    a,
                    template,
                    (state.steps_budget - 1) as nat,
                ));
                assert(b.contains_key(template.spec_instantiate(state.steps_budget)) <==> survives(
                    settings,
                    lut,
                    b,
                    template,
                    (state.steps_budget - 1) as nat,
                ));
                lemma_points_depend_on_lower_budgets(simulator, settings, a, b, state);
                lemma_front_unique(
                    a[state],
                    b[state],
                    state_points(simulator, settings, a, state),
                );
            }
        }
    }
}

/// The precomputation has nothing left to do: every step budget is covered,
/// or no template gains from a larger one.
pub open spec fn complete<F: Fn(&Settings, SimulationState, Action) -> Option<SimulationState>>(
    simulator: &SimulatorCore<F>,
    settings: SolverSettings,
    templates: Seq<Template>,
    layers: int,
    solved: Map<ReducedState, Seq<ParetoValue>>,
) -> bool {
    layers == 255 || forall|template: Template|
        templates.contains(template) ==> !#[trigger] survives(
            settings,
            simulator.iq_quality_lut,
            solved,
            template,
            layers as nat,
        )
}

/// A template that was kept up to a round was kept up to every earlier one.
proof fn lemma_survives_earlier(
    settings: SolverSettings,
    iq_quality_lut: [u32; 11],
    solved: Map<ReducedState, Seq<ParetoValue>>,
    template: Template,
    layers: nat,
    earlier: nat,
)
    requires
        survives(settings, iq_quality_lut, solved, template, layers),
        earlier <= layers,
    ensures
        survives(settings, iq_quality_lut, solved, template, earlier),
    decreases layers,
{
    if earlier < layers {
        lemma_survives_earlier(
            settings,
            iq_quality_lut,
            solved,
            template,
            (layers - 1) as nat,
            earlier,
        );
    }
}

/// Two complete runs on the same input leave the same table after the same
/// number of rounds, whatever the order in which the templates were listed.
pub proof fn lemma_complete_runs_agree<
    F: Fn(&Settings, SimulationState, Action) -> Option<SimulationState>,
>(
    simulator: &SimulatorCore<F>,
    settings: SolverSettings,
    templates: Seq<Template>,
    other_templates: Seq<Template>,
    layers: int,
    other_layers: int,
    solved: Map<ReducedState, Seq<ParetoValue>>,
    other_solved: Map<ReducedState, Seq<ParetoValue>>,
)
    requires
        forall|template: Template|
            templates.contains(template) <==> other_templates.contains(template),
        coherent(simulator, settings, templates, layers, solved),
        coherent(simulator, settings, other_templates, other_layers, other_solved),
        complete(simulator, settings, templates, layers, solved),
        complete(simulator, settings, other_templates, other_layers, other_solved),
    ensures
        layers == other_layers,
        solved == other_solved,
{
    lemma_same_templates(simulator, settings, other_templates, templates, other_layers, other_solved);
    if layers < other_layers {
        lemma_shorter_run_is_not_complete(
            simulator,
            settings,
            templates,
            layers,
            other_layers,
            solved,
            other_solved,
        );
    } else if other_layers < layers {
        lemma_shorter_run_is_not_complete(
            simulator,
            settings,
            templates,
            other_layers,
            layers,
            other_solved,
            solved,
        );
    } else {
        lemma_runs_agree(simulator, settings, templates, layers, layers, solved, other_solved);
        assert(solved =~= other_solved);
    }
}

/// What holds of a table with one list of templates holds with every list
/// of the same templates.
proof fn lemma_same_templates<F: Fn(&Settings, SimulationState, Action) -> Option<SimulationState>>(
    simulator: &SimulatorCore<F>,
    settings: SolverSettings,
    templates: Seq<Template>,
    other_templates: Seq<Template>,
    layers: int,
    solved: Map<ReducedState, Seq<ParetoValue>>,
)
    requires
        forall|template: Template|
            templates.contains(template) <==> other_templates.contains(template),
        coherent(simulator, settings, templates, layers, solved),
    ensures
        coherent(simulator, settings, other_templates, layers, solved),
        complete(simulator, settings, templates, layers, solved) ==> complete(
            simulator,
            settings,
            other_templates,
            layers,
            solved,
        ),
{
    if layers > 0 {
        let worked = choose|template: Template|
            templates.contains(template) && template.is_reduced() && #[trigger] survives(
                settings,
                simulator.iq_quality_lut,
                solved,
                template,
                (layers - 1) as nat,
            );
        assert(other_templates.contains(worked));
    }
}

/// Of two runs on the same input, the one with fewer rounds still had a
/// template to work on.
proof fn lemma_shorter_run_is_not_complete<
    F: Fn(&Settings, SimulationState, Action) -> Option<SimulationState>,
>(
    simulator: &SimulatorCore<F>,
    settings: SolverSettings,
    templates: Seq<Template>,
    shorter: int,
    longer: int,
    a: Map<ReducedState, Seq<ParetoValue>>,
    b: Map<ReducedState, Seq<ParetoValue>>,
)
    requires
        coherent(simulator, settings, templates, shorter, a),
        coherent(simulator, settings, templates, longer, b),
        shorter < longer,
    ensures
        !complete(simulator, settings, templates, shorter, a),
{
    let lut = simulator.iq_quality_lut;
    let worked = choose|template: Template|
        templates.contains(template) && template.is_reduced() && #[trigger] survives(
            settings,
            lut,
            b,
            template,
            (longer - 1) as nat,
        );
    lemma_survives_earlier(settings, lut, b, worked, (longer - 1) as nat, shorter as nat);
    lemma_runs_agree(simulator, settings, templates, shorter, longer, a, b);
    lemma_survives_depends_on_lower_budgets(settings, lut, a, b, worked, shorter as nat);
}

/// A run that was cut short answers as a longer run does: up to the step
/// budget that both have covered, a quality query has the same answer from
/// both tables.
pub proof fn lemma_answers_agree<
    F: Fn(&Settings, SimulationState, Action) -> Option<SimulationState>,
>(
    simulator: &SimulatorCore<F>,
    settings: SolverSettings,
    templates: Seq<Template>,
    shorter: int,
    longer: int,
    a: Map<ReducedState, Seq<ParetoValue>>,
    b: Map<ReducedState, Seq<ParetoValue>>,
    state: SimulationState,
    step_budget: u8,
)
    requires
        coherent(simulator, settings, templates, shorter, a),
        coherent(simulator, settings, templates, longer, b),
        shorter <= longer,
        step_budget <= shorter,
    ensures
        spec_quality_upper_bound(
            settings,
            simulator.largest_progress_increase,
            a,
            state,
            step_budget,
        ) == spec_quality_upper_bound(
            settings,
            simulator.largest_progress_increase,
            b,
            state,
            step_budget,
        ),
{
    lemma_runs_agree(simulator, settings, templates, shorter, longer, a, b);
    let reduced = query_state(state, step_budget);
    assert(a.contains_key(reduced) == b.contains_key(reduced));
}

} // verus!
