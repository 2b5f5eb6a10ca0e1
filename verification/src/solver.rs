use crate::actions::SimulatorCore;
use crate::bounds::{
    best_quality, first_sufficient_budget, spec_quality_upper_bound, spec_step_lower_bound,
};
use crate::effects::lemma_effects_of;
use crate::error::{is_internal_error, missing_child_error, unknown_state_error, SolverException};
use crate::flag::AtomicFlag;
use crate::frontier::{
    candidate_points, child_front, next_step, solvable, solve_outcome, state_points, step_fails,
    step_of, step_points, Step,
};
use crate::layers::{
    coherent, complete, lemma_frontiers_well_formed, lemma_next_layer,
    lemma_survives_depends_on_lower_budgets, retains, survives,
};
use crate::pareto::{
    clamped_points, is_front, is_front_of, lemma_front_of_union, lemma_shifted_points,
    within_limits, ParetoFrontBuilder, ParetoValue,
};
use crate::reduced_state::{lemma_key_determines_state, pruned_actions, ReducedState, Template};
use crate::simulation::{Action, Settings, SimulationState, SolverSettings};
use crate::solved_states::{capped, total_points, KeySet, SolvedStates};
use crate::templates::{generate_precompute_templates, is_enumeration};
use rayon::iter::{IntoParallelRefIterator, ParallelIterator};
use vstd::prelude::*;

verus! {

/// How much the solver holds.
#[derive(Debug, Clone, Copy)]
pub struct StepLbSolverStats {
    pub parallel_states: usize,
    pub pareto_values: usize,
}

/// Answers how many steps a craft needs at least, from frontiers that it
/// computes for every reduced state, one step budget after the other.
pub struct StepLbSolver<F> {
    settings: SolverSettings,
    simulator: SimulatorCore<F>,
    interrupt_signal: AtomicFlag,
    solved_states: SolvedStates,
    precompute_templates: Vec<Template>,
    templates: Ghost<Seq<Template>>,
    layers: u8,
    ready: bool,
}

/// A copy of a list of points.
fn copy_front(front: &Vec<ParetoValue>) -> (r: Vec<ParetoValue>)
    ensures
        r@ == front@,
{
    let mut r: Vec<ParetoValue> = Vec::new();
    let mut i: usize = 0;
    while i < front.len()
        invariant
            i <= front.len(),
            r@ == front@.subrange(0, i as int),
        decreases front.len() - i,
    {
        r.push(front[i]);
        i = i + 1;
        proof {
            assert(r@ =~= front@.subrange(0, i as int));
        }
    }
    proof {
        assert(r@ =~= front@);
    }
    r
}

impl<F: Fn(&Settings, SimulationState, Action) -> Option<SimulationState> + Sync> StepLbSolver<F> {
    /// The settings that the solver works with.
    pub closed spec fn settings(&self) -> SolverSettings {
        self.settings
    }

    /// What the solver has from the simulator.
    pub closed spec fn simulator(&self) -> &SimulatorCore<F> {
        &self.simulator
    }

    /// The frontiers that are computed.
    pub closed spec fn solved(&self) -> Map<ReducedState, Seq<ParetoValue>> {
        self.solved_states@
    }

    /// All templates that can be reached from the start of a craft.
    pub closed spec fn templates(&self) -> Seq<Template> {
        self.templates@
    }

    /// The templates that gain from a larger step budget than those covered.
    pub closed spec fn alive(&self) -> Seq<Template> {
        self.precompute_templates@
    }

    /// The number of step budgets that are covered.
    pub closed spec fn layers(&self) -> int {
        self.layers as int
    }

    /// Whether `precompute` has run.
    pub closed spec fn is_ready(&self) -> bool {
        self.ready
    }

    /// What holds of a solver between calls.
    pub open spec fn wf(&self) -> bool {
        &&& self.simulator().wf()
        &&& self.table_wf()
        &&& !self.settings().simulator_settings.adversarial
        &&& is_enumeration(self.simulator(), self.settings(), self.templates())
        &&& coherent(
            self.simulator(),
            self.settings(),
            self.templates(),
            self.layers(),
            self.solved(),
        )
        &&& forall|template: Template| #[trigger]
            self.alive().contains(template) <==> self.templates().contains(template) && survives(
                self.settings(),
                self.simulator().iq_quality_lut,
                self.solved(),
                template,
                self.layers() as nat,
            )
        &&& !self.is_ready() ==> self.layers() == 0
    }

    /// The table's counts are in order.
    pub closed spec fn table_wf(&self) -> bool {
        self.solved_states.wf()
    }

    /// A solver for `settings`. The adversarial mode is switched off, the
    /// superfluous actions are taken out of the allowed ones, and the templates
    /// are listed; no frontier is computed yet.
    pub fn new(
        mut settings: SolverSettings,
        simulator: SimulatorCore<F>,
        interrupt_signal: AtomicFlag,
    ) -> (r: Self)
        requires
            simulator.wf(),
        ensures
            r.wf(),
            !r.is_ready(),
            r.layers() == 0,
            r.solved() == Map::<ReducedState, Seq<ParetoValue>>::empty(),
            r.alive() == r.templates(),
            *r.simulator() == simulator,
            r.settings().simulator_settings.allowed_action_mask@ == pruned_actions(
                settings.simulator_settings.allowed_action_mask@,
                simulator.dominance@,
            ),
            r.settings().simulator_settings == (Settings {
                adversarial: false,
                allowed_action_mask: r.settings().simulator_settings.allowed_action_mask,
                ..settings.simulator_settings
            }),
    {
        settings.simulator_settings.adversarial = false;
        ReducedState::optimize_action_mask(&mut settings.simulator_settings, &simulator.dominance);
        let precompute_templates = generate_precompute_templates(&simulator, &settings);
        let r = Self {
            settings,
            interrupt_signal,
            solved_states: SolvedStates::new(),
            templates: Ghost(precompute_templates@),
            precompute_templates,
            simulator,
            layers: 0,
            ready: false,
        };
        r
    }

    /// A scratch space with the targets of this solver as limits.
    fn new_builder(&self) -> (builder: ParetoFrontBuilder)
        ensures
            builder.wf(),
            builder.max_progress() == self.settings().spec_max_progress(),
            builder.max_quality() == self.settings().spec_max_quality(),
    {
        ParetoFrontBuilder::new(self.settings.max_progress(), self.settings.max_quality())
    }

    /// The frontier of `state`: the Pareto front of the outcomes of doing
    /// nothing, of each entry of the catalog that ends the craft, and of each
    /// entry that leads to a child, followed by any outcome on the child's
    /// frontier.
    pub fn solve_precompute_state(
        &self,
        pareto_front_builder: &mut ParetoFrontBuilder,
        state: ReducedState,
    ) -> (r: Result<Vec<ParetoValue>, SolverException>)
        requires
            self.wf(),
            old(pareto_front_builder).wf(),
            old(pareto_front_builder).max_progress() == self.settings().spec_max_progress(),
            old(pareto_front_builder).max_quality() == self.settings().spec_max_quality(),
        ensures
            final(pareto_front_builder).wf(),
            final(pareto_front_builder).max_progress() == self.settings().spec_max_progress(),
            final(pareto_front_builder).max_quality() == self.settings().spec_max_quality(),
            solve_outcome(self.simulator(), self.settings(), self.solved(), state, r),
    {
        let ghost max_progress = self.settings.spec_max_progress();
        let ghost max_quality = self.settings.spec_max_quality();
        let ghost solved = self.solved_states@;
        let ghost origin = ParetoValue { progress: 0, quality: 0 };
        pareto_front_builder.clear();
        pareto_front_builder.push_empty();
        proof {
            let top = pareto_front_builder@[0];
            let points = candidate_points(&self.simulator, self.settings, solved, state, 0);
            assert(top[0] == origin);
            crate::pareto::lemma_covered_by(top, 0, origin);
            assert(is_front_of(top, points));
        }
        let mut k: usize = 0;
        while k < self.simulator.combos.len()
            invariant
                self.wf(),
                k <= self.simulator.combos.len(),
                max_progress == self.settings.spec_max_progress(),
                max_quality == self.settings.spec_max_quality(),
                solved == self.solved_states@,
                pareto_front_builder.wf(),
                pareto_front_builder.max_progress() == max_progress,
                pareto_front_builder.max_quality() == max_quality,
                pareto_front_builder@.len() == 1,
                is_front_of(
                    pareto_front_builder@[0],
                    candidate_points(&self.simulator, self.settings, solved, state, k as int),
                ),
                within_limits(pareto_front_builder@[0], max_progress, max_quality),
                forall|j: int|
                    0 <= j < k ==> !step_fails(
                        solved,
                        #[trigger] step_of(
                            &self.simulator,
                            self.settings,
                            state,
                            self.simulator.combos[j],
                        ),
                    ),
            decreases self.simulator.combos.len() - k,
        {
            let ghost top = pareto_front_builder@[0];
            let ghost before = candidate_points(
                &self.simulator,
                self.settings,
                solved,
                state,
                k as int,
            );
            let ghost after = candidate_points(
                &self.simulator,
                self.settings,
                solved,
                state,
                k + 1,
            );
            let step = next_step(&self.simulator, &self.settings, state, &self.simulator.combos[k]);
            let ghost opened = step_points(self.settings, solved, step);
            proof {
                assert(after =~= before.union(opened)) by {
                    assert forall|v: ParetoValue| before.union(opened).contains(v) implies after.contains(
                        v,
                    ) by {
                        if opened.contains(v) {
                            assert(step_points(
                                self.settings,
                                solved,
                                step_of(
                                    &self.simulator,
                                    self.settings,
                                    state,
                                    self.simulator.combos[k as int],
                                ),
                            ).contains(v));
                        }
                    }
                }
            }
            match step {
                Step::Skip => {},
                Step::Last { progress, quality } => {
                    if progress != 0 {
                        let mut single: Vec<ParetoValue> = Vec::new();
                        single.push(ParetoValue::new(progress, quality));
                        pareto_front_builder.push_slice(single.as_slice());
                        pareto_front_builder.merge();
                        proof {
                            assert(clamped_points(single@, max_progress, max_quality) =~= opened) by {
                                assert(single@[0] == (ParetoValue { progress, quality }));
                            }
                            lemma_front_of_union(
                                pareto_front_builder@[0],
                                top,
                                before,
                                opened,
                                max_progress,
                                max_quality,
                            );
                        }
                    }
                },
                Step::Child { child, progress, quality } => {
                    match self.solved_states.get(&child) {
                        Some(pareto_front) => {
                            proof {
                                lemma_frontiers_well_formed(
                                    &self.simulator,
                                    self.settings,
                                    self.templates@,
                                    self.layers as int,
                                    solved,
                                    child,
                                );
                            }
                            pareto_front_builder.push_slice(pareto_front.as_slice());
                        },
                        None => {
                            if !child.effects.allow_quality_actions() {
                                // The child was dropped after it reached full progress.
                                let mut single: Vec<ParetoValue> = Vec::new();
                                single.push(ParetoValue::new(self.settings.max_progress(), 0));
                                proof {
                                    assert(single@ =~= child_front(self.settings, solved, child));
                                }
                                pareto_front_builder.push_slice(single.as_slice());
                            } else {
                                return Err(missing_child_error());
                            }
                        },
                    }
                    pareto_front_builder.shift_top(progress, quality);
                    pareto_front_builder.merge();
                    proof {
                        lemma_shifted_points(
                            child_front(self.settings, solved, child),
                            progress,
                            quality,
                            max_progress,
                            max_quality,
                        );
                        lemma_front_of_union(
                            pareto_front_builder@[0],
                            top,
                            before,
                            opened,
                            max_progress,
                            max_quality,
                        );
                    }
                },
            }
            k = k + 1;
        }
        let front = copy_front(pareto_front_builder.peek().unwrap());
        Ok(front)
    }

    /// The frontier of `state`, together with `state`.
    fn solve_entry(&self, pareto_front_builder: &mut ParetoFrontBuilder, state: ReducedState) -> (r:
        (ReducedState, Result<Vec<ParetoValue>, SolverException>))
        requires
            self.wf(),
            old(pareto_front_builder).wf(),
            old(pareto_front_builder).max_progress() == self.settings().spec_max_progress(),
            old(pareto_front_builder).max_quality() == self.settings().spec_max_quality(),
        ensures
            final(pareto_front_builder).wf(),
            final(pareto_front_builder).max_progress() == self.settings().spec_max_progress(),
            final(pareto_front_builder).max_quality() == self.settings().spec_max_quality(),
            r.0 == state,
            solve_outcome(self.simulator(), self.settings(), self.solved(), state, r.1),
    {
        (state, self.solve_precompute_state(pareto_front_builder, state))
    }

    /// rayon's `par_iter` on the list of states, `map_init` and `collect` into a
    /// `Vec`. rayon hands each state, with a scratch space that `new_builder`
    /// made and that only this solver's calls have touched, to `solve_entry`,
    /// and collects what the calls return: every entry of the result is what
    /// `solve_entry` returns for a state of the list, and every state of the
    /// list has its entry. Nothing is claimed of the order.
    #[verifier::external_body]
    fn solve_in_parallel(&self, states: &Vec<ReducedState>) -> (results: Vec<
        (ReducedState, Result<Vec<ParetoValue>, SolverException>),
    >)
        requires
            self.wf(),
        ensures
            forall|i: int|
                0 <= i < results@.len() ==> states@.contains((#[trigger] results@[i]).0)
                    && solve_outcome(
                    self.simulator(),
                    self.settings(),
                    self.solved(),
                    results@[i].0,
                    results@[i].1,
                ),
            forall|state: ReducedState|
                states@.contains(state) ==> exists|i: int|
                    0 <= i < results@.len() && (#[trigger] results@[i]).0 == state,
    {
        states.par_iter().map_init(
            || self.new_builder(),
            |builder, state| self.solve_entry(builder, *state),
        ).collect()
    }

    /// The reduced states of the templates that are still of use, at
    /// `step_budget`, each once.
    fn instantiate_templates(&self, step_budget: u8) -> (states: Vec<ReducedState>)
        ensures
            states@.no_duplicates(),
            forall|state: ReducedState| #[trigger]
                states@.contains(state) <==> exists|i: int|
                    0 <= i < self.alive().len() && state == (#[trigger] self.alive()[i]).spec_instantiate(
                        step_budget,
                    ),
    {
        let mut seen = KeySet::new();
        let mut states: Vec<ReducedState> = Vec::new();
        let mut i: usize = 0;
        while i < self.precompute_templates.len()
            invariant
                i <= self.precompute_templates.len(),
                states@.no_duplicates(),
                forall|key: u64|
                    seen@.contains(key) <==> exists|j: int|
                        0 <= j < states.len() && (#[trigger] states[j]).spec_key() == key,
                forall|state: ReducedState| #[trigger]
                    states@.contains(state) <==> exists|j: int|
                        0 <= j < i && state == (#[trigger] self.precompute_templates[j]).spec_instantiate(
                            step_budget,
                        ),
            decreases self.precompute_templates.len() - i,
        {
            let state = self.precompute_templates[i].instantiate(step_budget);
            let ghost before = states@;
            if seen.insert(state.key()) {
                states.push(state);
                proof {
                    assert forall|key: u64| seen@.contains(key) <==> exists|j: int|
                        0 <= j < states.len() && (#[trigger] states[j]).spec_key() == key by {
                        if key == state.spec_key() {
                            assert(states[before.len() as int].spec_key() == key);
                        } else if seen@.contains(key) {
                            let j = choose|j: int|
                                0 <= j < before.len() && (#[trigger] before[j]).spec_key() == key;
                            assert(states[j].spec_key() == key);
                        } else if exists|j: int|
                            0 <= j < states.len() && (#[trigger] states[j]).spec_key() == key {
                            let j = choose|j: int|
                                0 <= j < states.len() && (#[trigger] states[j]).spec_key() == key;
                            assert(before[j].spec_key() == key);
                        }
                    }
                    assert forall|x: int, y: int|
                        0 <= x < states.len() && 0 <= y < states.len() && x != y implies states[x]
                        != states[y] by {
                        if x == before.len() {
                            assert(before[y].spec_key() != state.spec_key());
                        } else if y == before.len() {
                            assert(before[x].spec_key() != state.spec_key());
                        }
                    }
                    assert forall|other: ReducedState| #[trigger]
                        states@.contains(other) <==> exists|j: int|
                            0 <= j < i + 1 && other == (
                            #[trigger] self.precompute_templates[j]).spec_instantiate(step_budget) by {
                        if states@.contains(other) {
                            let x = choose|x: int| 0 <= x < states.len() && states[x] == other;
                            if x < before.len() {
                                assert(before.contains(other));
                            } else {
                                assert(other == self.precompute_templates[i as int].spec_instantiate(
                                    step_budget,
                                ));
                            }
                        }
                        if exists|j: int|
                            0 <= j < i + 1 && other == (
                            #[trigger] self.precompute_templates[j]).spec_instantiate(step_budget) {
                            let j = choose|j: int|
                                0 <= j < i + 1 && other == (
                                #[trigger] self.precompute_templates[j]).spec_instantiate(
                                    step_budget,
                                );
                            if j < i {
                                assert(before.contains(other));
                                let x = choose|x: int| 0 <= x < before.len() && before[x] == other;
                                assert(states[x] == other);
                            } else {
                                assert(states[before.len() as int] == other);
                            }
                        }
                    }
                }
            } else {
                proof {
                    let j = choose|j: int|
                        0 <= j < states.len() && (#[trigger] states[j]).spec_key() == state.spec_key();
                    lemma_key_determines_state(states[j], state);
                    assert(states@.contains(state));
                    assert forall|other: ReducedState| #[trigger]
                        states@.contains(other) <==> exists|j: int|
                            0 <= j < i + 1 && other == (
                            #[trigger] self.precompute_templates[j]).spec_instantiate(step_budget) by {
                        if exists|j: int|
                            0 <= j < i + 1 && other == (
                            #[trigger] self.precompute_templates[j]).spec_instantiate(step_budget) {
                            let j = choose|j: int|
                                0 <= j < i + 1 && other == (
                                #[trigger] self.precompute_templates[j]).spec_instantiate(
                                    step_budget,
                                );
                            if j == i {
                                assert(other == state);
                            }
                        }
                    }
                }
            }
            i = i + 1;
        }
        proof {
            assert forall|state: ReducedState| #[trigger]
                states@.contains(state) <==> exists|j: int|
                    0 <= j < self.alive().len() && state == (
                    #[trigger] self.alive()[j]).spec_instantiate(step_budget) by {
                if states@.contains(state) {
                    let j = choose|j: int|
                        0 <= j < i && state == (
                        #[trigger] self.precompute_templates[j]).spec_instantiate(step_budget);
                    assert(state == self.alive()[j].spec_instantiate(step_budget));
                }
                if exists|j: int|
                    0 <= j < self.alive().len() && state == (
                    #[trigger] self.alive()[j]).spec_instantiate(step_budget) {
                    let j = choose|j: int|
                        0 <= j < self.alive().len() && state == (
                        #[trigger] self.alive()[j]).spec_instantiate(step_budget);
                    assert(state == self.precompute_templates[j].spec_instantiate(step_budget));
                }
            }
        }
        states
    }

    /// The most quality that a state with these effects can still need.
    fn max_needed_quality(&self, state: &ReducedState) -> (r: u32)
        ensures
            r == crate::layers::max_needed_quality(
                self.settings(),
                self.simulator().iq_quality_lut,
                state.effects,
            ),
    {
        if state.effects.allow_quality_actions() {
            let min_cur_quality = self.simulator.iq_quality_lut[state.effects.inner_quiet() as usize];
            let max_quality = self.settings.max_quality();
            if max_quality > min_cur_quality {
                max_quality - min_cur_quality
            } else {
                0
            }
        } else {
            0
        }
    }

    /// Whether `template` gains from a larger step budget than `step_budget`,
    /// at which it has a frontier.
    fn keeps_template(&self, template: &Template, step_budget: u8) -> (keep: bool)
        requires
            self.solved().contains_key(template.spec_instantiate(step_budget)),
            self.solved()[template.spec_instantiate(step_budget)].len() > 0,
        ensures
            keep == retains(
                self.settings(),
                self.simulator().iq_quality_lut,
                template.spec_instantiate(step_budget).effects,
                self.solved()[template.spec_instantiate(step_budget)],
            ),
    {
        let state = template.instantiate(step_budget);
        let pareto_front = self.solved_states.get(&state).unwrap();
        // The points are in the order of rising progress: the last one has the most.
        let value = pareto_front[pareto_front.len() - 1];
        let max_needed_quality = self.max_needed_quality(&state);
        value.progress < self.settings.max_progress() || value.quality < max_needed_quality
    }

    /// rayon's `par_iter` on the list of templates, `filter`, `copied` and
    /// `collect` into a `Vec`. rayon asks `keeps_template` of each template of
    /// the list and collects those of which it says yes: the result holds the
    /// templates of the list that are kept, and no others. Nothing is claimed
    /// of the order.
    #[verifier::external_body]
    fn filter_in_parallel(&self, step_budget: u8) -> (kept: Vec<Template>)
        requires
            forall|i: int|
                0 <= i < self.alive().len() ==> ({
                    let state = (#[trigger] self.alive()[i]).spec_instantiate(step_budget);
                    self.solved().contains_key(state) && self.solved()[state].len() > 0
                }),
        ensures
            forall|template: Template| #[trigger]
                kept@.contains(template) ==> self.alive().contains(template) && retains(
                    self.settings(),
                    self.simulator().iq_quality_lut,
                    template.spec_instantiate(step_budget).effects,
                    self.solved()[template.spec_instantiate(step_budget)],
                ),
            forall|template: Template| #[trigger]
                self.alive().contains(template) && retains(
                    self.settings(),
                    self.simulator().iq_quality_lut,
                    template.spec_instantiate(step_budget).effects,
                    self.solved()[template.spec_instantiate(step_budget)],
                ) ==> kept@.contains(template),
    {
        self.precompute_templates.par_iter().filter(
            |template| self.keeps_template(template, step_budget),
        ).copied().collect()
    }

    /// One round of the precomputation, given what the interrupt signal said.
    /// Where the signal was raised nothing is computed. Else the frontier of
    /// every template that is still of use is computed at the next step budget
    /// and stored, and the templates that gain nothing from a larger step
    /// budget are dropped; if a state turns up whose child is missing, the
    /// table stays as it was and the error is returned.
    pub fn precompute_round(&mut self, interrupted: bool) -> (r: Result<(), SolverException>)
        requires
            old(self).wf(),
            old(self).alive().len() > 0,
            old(self).layers() < 255,
        ensures
            final(self).wf(),
            final(self).is_ready(),
            final(self).simulator() == old(self).simulator(),
            final(self).settings() == old(self).settings(),
            final(self).templates() == old(self).templates(),
            interrupted ==> r == Err::<(), SolverException>(SolverException::Interrupted),
            !interrupted ==> (r is Ok <==> forall|i: int|
                0 <= i < old(self).alive().len() ==> solvable(
                    old(self).simulator(),
                    old(self).settings(),
                    old(self).solved(),
                    (#[trigger] old(self).alive()[i]).spec_instantiate(
                        (old(self).layers() + 1) as u8,
                    ),
                )),
            r is Ok ==> final(self).layers() == old(self).layers() + 1,
            r is Err ==> final(self).layers() == old(self).layers() && final(self).solved() == old(
                self,
            ).solved() && final(self).alive() == old(self).alive(),
            !interrupted && r is Err ==> is_internal_error(
                r.unwrap_err(),
                "StepLbSolver: Missing child state."@,
            ),
    {
        self.ready = true;
        proof {
            assert(self.simulator() == old(self).simulator());
            assert(self.settings() == old(self).settings());
            assert(self.templates() == old(self).templates());
            assert(self.solved() == old(self).solved());
            assert(self.alive() == old(self).alive());
            assert(self.layers() == old(self).layers());
            assert(self.table_wf());
        }
        if interrupted {
            return Err(SolverException::Interrupted);
        }
        let next_precompute_step_budget: u8 = self.layers + 1;
        let ghost budget = next_precompute_step_budget;
        let ghost before = self.solved_states@;
        let ghost lut = self.simulator.iq_quality_lut;
        let ghost alive = self.precompute_templates@;
        let states = self.instantiate_templates(next_precompute_step_budget);
        let mut results = self.solve_in_parallel(&states);
        let ghost all = results@;
        proof {
            assert forall|state: ReducedState| #[trigger]
                states@.contains(state) <==> exists|j: int|
                    0 <= j < alive.len() && state == (#[trigger] alive[j]).spec_instantiate(
                        budget,
                    ) by {
                if states@.contains(state) {
                    let j = choose|j: int|
                        0 <= j < self.alive().len() && state == (
                        #[trigger] self.alive()[j]).spec_instantiate(budget);
                    assert(state == alive[j].spec_instantiate(budget));
                }
                if exists|j: int|
                    0 <= j < alive.len() && state == (#[trigger] alive[j]).spec_instantiate(
                        budget,
                    ) {
                    let j = choose|j: int|
                        0 <= j < alive.len() && state == (#[trigger] alive[j]).spec_instantiate(
                            budget,
                        );
                    assert(state == self.alive()[j].spec_instantiate(budget));
                }
            }
        }
        let mut i: usize = 0;
        while i < results.len()
            invariant
                i <= results.len(),
                results@ == all,
                self.wf(),
                self.ready,
                !interrupted,
                alive == old(self).alive(),
                before == old(self).solved(),
                self.layers == old(self).layers,
                        self.simulator == old(self).simulator,
                self.settings == old(self).settings,
                self.templates == old(self).templates,
                alive.len() > 0,
                self.layers < 255,
                self.precompute_templates@ == alive,
                self.solved_states@ == before,
                self.layers + 1 == budget,
                forall|j: int| 0 <= j < i ==> (#[trigger] all[j]).1 is Ok,
                forall|j: int|
                    0 <= j < all.len() ==> states@.contains((#[trigger] all[j]).0)
                        && solve_outcome(
                        &self.simulator,
                        self.settings,
                        before,
                        all[j].0,
                        all[j].1,
                    ),
                forall|state: ReducedState| #[trigger]
                    states@.contains(state) <==> exists|j: int|
                        0 <= j < alive.len() && state == (#[trigger] alive[j]).spec_instantiate(
                            budget,
                        ),
            decreases results.len() - i,
        {
            if results[i].1.is_err() {
                proof {
                    let state = all[i as int].0;
                    assert(states@.contains(state));
                    let t = choose|t: int|
                        0 <= t < alive.len() && state == (#[trigger] alive[t]).spec_instantiate(
                            budget,
                        );
                    assert(!solvable(
                        &self.simulator,
                        self.settings,
                        before,
                        self.alive()[t].spec_instantiate((self.layers() + 1) as u8),
                    ));
                }
                return Err(missing_child_error());
            }
            i = i + 1;
        }
        proof {
            assert(results@ =~= all.subrange(0, results.len() as int));
        }
        while results.len() > 0
            invariant
                results.len() <= all.len(),
                results@ == all.subrange(0, results.len() as int),
                forall|j: int| 0 <= j < all.len() ==> (#[trigger] all[j]).1 is Ok,
                forall|j: int|
                    0 <= j < all.len() ==> states@.contains((#[trigger] all[j]).0)
                        && solve_outcome(
                        &self.simulator,
                        self.settings,
                        before,
                        all[j].0,
                        all[j].1,
                    ),
                self.solved_states.wf(),
                self.ready,
                self.simulator == old(self).simulator,
                self.settings == old(self).settings,
                self.templates == old(self).templates,
                self.precompute_templates@ == alive,
                self.layers + 1 == budget,
                        forall|state: ReducedState| #[trigger]
                    before.contains_key(state) ==> self.solved_states@.contains_key(state)
                        && self.solved_states@[state] == before[state],
                forall|state: ReducedState| #[trigger]
                    self.solved_states@.contains_key(state) && !before.contains_key(state) ==> {
                        &&& states@.contains(state)
                        &&& solvable(&self.simulator, self.settings, before, state)
                        &&& is_front_of(
                            self.solved_states@[state],
                            state_points(&self.simulator, self.settings, before, state),
                        )
                    },
                forall|j: int|
                    results.len() <= j < all.len() ==> self.solved_states@.contains_key(
                        (#[trigger] all[j]).0,
                    ),
            decreases results.len(),
        {
            let ghost n = results.len() - 1;
            let ghost rest = results@;
            let (state, outcome) = results.pop().unwrap();
            proof {
                assert(rest[n] == all[n]);
                assert(results@ =~= all.subrange(0, n));
                assert(all[n].0 == state && all[n].1 == outcome);
            }
            match outcome {
                Ok(pareto_front) => {
                    if self.solved_states.get(&state).is_none() {
                        self.solved_states.insert(state, pareto_front);
                    }
                },
                Err(_) => {},
            }
        }
        proof {
            let after = self.solved_states@;
            assert forall|state: ReducedState| #[trigger]
                after.contains_key(state) && !before.contains_key(state) implies {
                &&& state.steps_budget == self.layers + 1
                &&& self.templates@.contains(Template::of(state))
                &&& Template::of(state).is_reduced()
                &&& survives(
                    self.settings,
                    lut,
                    before,
                    Template::of(state),
                    self.layers as nat,
                )
                &&& solvable(&self.simulator, self.settings, before, state)
                &&& is_front_of(
                    after[state],
                    state_points(&self.simulator, self.settings, before, state),
                )
            } by {
                assert(states@.contains(state));
                let t = choose|t: int|
                    0 <= t < alive.len() && state == (#[trigger] alive[t]).spec_instantiate(
                        budget,
                    );
                assert(alive.contains(alive[t]));
                assert(self.templates@.contains(alive[t]));
                assert(alive[t].is_reduced());
                assert(Template::of(state) == alive[t]);
            }
            assert forall|template: Template|
                self.templates@.contains(template) && template.is_reduced() && survives(
                    self.settings,
                    lut,
                    before,
                    template,
                    self.layers as nat,
                ) implies #[trigger] after.contains_key(
                template.spec_instantiate((self.layers + 1) as u8),
            ) by {
                assert(alive.contains(template));
                let t = choose|t: int| 0 <= t < alive.len() && alive[t] == template;
                let state = alive[t].spec_instantiate(budget);
                assert(states@.contains(state));
                let j = choose|j: int| 0 <= j < all.len() && (#[trigger] all[j]).0 == state;
                assert(after.contains_key(all[j].0));
            }
            assert(alive.contains(alive[0]));
            assert(alive[0].is_reduced());
            assert(survives(self.settings, lut, before, alive[0], self.layers as nat));
            lemma_next_layer(
                &self.simulator,
                self.settings,
                self.templates@,
                self.layers as int,
                before,
                after,
            );
        }
        let ghost after = self.solved_states@;
        proof {
            assert forall|j: int| 0 <= j < alive.len() implies after.contains_key(
                (#[trigger] alive[j]).spec_instantiate(budget),
            ) by {
                let state = alive[j].spec_instantiate(budget);
                assert(states@.contains(state));
                let x = choose|x: int| 0 <= x < all.len() && (#[trigger] all[x]).0 == state;
                assert(after.contains_key(all[x].0));
            }
        }
        proof {
            assert forall|j: int| 0 <= j < self.alive().len() implies ({
                let state = (#[trigger] self.alive()[j]).spec_instantiate(budget);
                self.solved().contains_key(state) && self.solved()[state].len() > 0
            }) by {
                lemma_frontiers_well_formed(
                    &self.simulator,
                    self.settings,
                    self.templates@,
                    self.layers + 1,
                    after,
                    alive[j].spec_instantiate(budget),
                );
            }
        }
        let kept = self.filter_in_parallel(next_precompute_step_budget);
        proof {
            assert forall|template: Template| #[trigger]
                kept@.contains(template) <==> self.templates@.contains(template) && survives(
                    self.settings,
                    lut,
                    after,
                    template,
                    (self.layers + 1) as nat,
                ) by {
                lemma_survives_depends_on_lower_budgets(
                    self.settings,
                    lut,
                    before,
                    after,
                    template,
                    self.layers as nat,
                );
                assert(self.alive().contains(template) == alive.contains(template));
                if alive.contains(template) {
                    let j = choose|j: int| 0 <= j < alive.len() && alive[j] == template;
                    assert(after.contains_key(alive[j].spec_instantiate(budget)));
                }
            }
        }
        self.precompute_templates = kept;
        self.layers = next_precompute_step_budget;
        Ok(())
    }

    /// Computes the frontiers, one step budget after the other, until no
    /// template gains from a larger step budget, all 255 step budgets are
    /// covered, the interrupt signal is seen raised, or a state turns up whose
    /// child is missing. The signal is read before each round. A second call
    /// does nothing.
    pub fn precompute(&mut self) -> (r: Result<(), SolverException>)
        requires
            old(self).wf(),
        ensures
            final(self).wf(),
            final(self).is_ready(),
            final(self).simulator() == old(self).simulator(),
            final(self).settings() == old(self).settings(),
            final(self).templates() == old(self).templates(),
            final(self).layers() >= old(self).layers(),
            old(self).is_ready() ==> r is Ok && final(self).solved() == old(self).solved()
                && final(self).layers() == old(self).layers() && final(self).alive() == old(
                self,
            ).alive(),
            !old(self).is_ready() ==> match r {
                Ok(_) => complete(
                    final(self).simulator(),
                    final(self).settings(),
                    final(self).templates(),
                    final(self).layers(),
                    final(self).solved(),
                ) && (final(self).alive().len() == 0 || final(self).layers() == 255),
                Err(e) => final(self).alive().len() > 0 && final(self).layers() < 255 && (e
                    == SolverException::Interrupted || (is_internal_error(
                    e,
                    "StepLbSolver: Missing child state."@,
                ) && exists|i: int|
                    0 <= i < final(self).alive().len() && !solvable(
                        final(self).simulator(),
                        final(self).settings(),
                        final(self).solved(),
                        (#[trigger] final(self).alive()[i]).spec_instantiate(
                            (final(self).layers() + 1) as u8,
                        ),
                    ))),
            },
    {
        if self.ready {
            return Ok(());
        }
        self.ready = true;
        proof {
            assert(self.simulator() == old(self).simulator());
            assert(self.settings() == old(self).settings());
            assert(self.templates() == old(self).templates());
            assert(self.solved() == old(self).solved());
            assert(self.alive() == old(self).alive());
            assert(self.layers() == old(self).layers());
            assert(self.table_wf());
        }
        while self.precompute_templates.len() > 0 && self.layers < u8::MAX
            invariant
                self.wf(),
                self.ready,
                !old(self).ready,
                self.layers >= old(self).layers,
                self.simulator == old(self).simulator,
                self.settings == old(self).settings,
                self.templates == old(self).templates,
            decreases 255 - self.layers,
        {
            let interrupted = self.interrupt_signal.is_set();
            let ghost before = *self;
            match self.precompute_round(interrupted) {
                Ok(_) => {},
                Err(e) => {
                    proof {
                        if !interrupted {
                            let i = choose|i: int|
                                0 <= i < before.alive().len() && !solvable(
                                    before.simulator(),
                                    before.settings(),
                                    before.solved(),
                                    (#[trigger] before.alive()[i]).spec_instantiate(
                                        (before.layers() + 1) as u8,
                                    ),
                                );
                            assert(!solvable(
                                self.simulator(),
                                self.settings(),
                                self.solved(),
                                self.alive()[i].spec_instantiate((self.layers() + 1) as u8),
                            ));
                        }
                    }
                    return Err(e);
                },
            }
        }
        proof {
            if self.precompute_templates.len() == 0 {
                assert forall|template: Template|
                    self.templates().contains(template) implies !#[trigger] survives(
                    self.settings(),
                    self.simulator().iq_quality_lut,
                    self.solved(),
                    template,
                    self.layers() as nat,
                ) by {
                    assert(!self.alive().contains(template));
                }
            }
        }
        Ok(())
    }

    /// The most quality that `state` can reach together with full progress in
    /// `step_budget` steps, as far as the frontiers tell. `Ok(None)`: full
    /// progress is out of reach. An error: no frontier is stored for the state.
    pub fn quality_upper_bound(&mut self, state: SimulationState, step_budget: u8) -> (r: Result<
        Option<u32>,
        SolverException,
    >)
        requires
            old(self).wf(),
        ensures
            *final(self) == *old(self),
            match r {
                Ok(bound) => spec_quality_upper_bound(
                    old(self).settings(),
                    old(self).simulator().largest_progress_increase,
                    old(self).solved(),
                    state,
                    step_budget,
                ) == Some(bound),
                Err(e) => spec_quality_upper_bound(
                    old(self).settings(),
                    old(self).simulator().largest_progress_increase,
                    old(self).solved(),
                    state,
                    step_budget,
                ) is None && is_internal_error(e, "StepLbSolver: Unknown state queried."@),
            },
    {
        let mut state = state;
        let max_progress = self.settings.max_progress();
        let mut required_progress = if max_progress > state.progress {
            max_progress - state.progress
        } else {
            0
        };
        let quality = state.quality;
        if state.effects.muscle_memory() != 0 {
            // Muscle Memory is taken to add the most that one action can add.
            required_progress = if required_progress > self.simulator.largest_progress_increase {
                required_progress - self.simulator.largest_progress_increase
            } else {
                0
            };
            state.effects.set_muscle_memory(0);
            proof {
                lemma_effects_of(state.effects);
            }
        }
        let reduced_state = ReducedState::from_state(state, step_budget);
        match self.solved_states.get(&reduced_state) {
            Some(pareto_front) => {
                proof {
                    lemma_frontiers_well_formed(
                        &self.simulator,
                        self.settings,
                        self.templates@,
                        self.layers as int,
                        self.solved_states@,
                        reduced_state,
                    );
                }
                match best_quality(pareto_front, required_progress) {
                    Some(best) => Ok(
                        Some(
                            if best <= u32::MAX - quality {
                                quality + best
                            } else {
                                u32::MAX
                            },
                        ),
                    ),
                    None => Ok(None),
                }
            },
            None => Err(unknown_state_error()),
        }
    }

    /// A number of steps that `state` needs at least to reach the targets:
    /// the first step budget, from `hint` on, whose quality bound reaches the
    /// target quality. 255 says that the targets are out of reach.
    pub fn step_lower_bound(&mut self, state: SimulationState, hint: u8) -> (r: Result<
        u8,
        SolverException,
    >)
        requires
            old(self).wf(),
        ensures
            *final(self) == *old(self),
            match r {
                Ok(steps) => spec_step_lower_bound(
                    old(self).settings(),
                    old(self).simulator().largest_progress_increase,
                    old(self).solved(),
                    state,
                    hint,
                ) == Some(steps),
                Err(e) => spec_step_lower_bound(
                    old(self).settings(),
                    old(self).simulator().largest_progress_increase,
                    old(self).solved(),
                    state,
                    hint,
                ) is None && is_internal_error(e, "StepLbSolver: Unknown state queried."@),
            },
    {
        if !state.effects.allow_quality_actions() && state.quality < self.settings.max_quality() {
            return Ok(u8::MAX);
        }
        let mut budget: u8 = if hint >= 1 {
            hint
        } else {
            1
        };
        let ghost answer = spec_step_lower_bound(
            self.settings,
            self.simulator.largest_progress_increase,
            self.solved_states@,
            state,
            hint,
        );
        loop
            invariant
                *self == *old(self),
                self.wf(),
                1 <= budget,
                answer == spec_step_lower_bound(
                    self.settings,
                    self.simulator.largest_progress_increase,
                    self.solved_states@,
                    state,
                    hint,
                ),
                answer == first_sufficient_budget(
                    self.settings,
                    self.simulator.largest_progress_increase,
                    self.solved_states@,
                    state,
                    budget as int,
                ),
            decreases 255 - budget,
        {
            match self.quality_upper_bound(state, budget) {
                Err(e) => {
                    return Err(e);
                },
                Ok(bound) => {
                    let enough = match bound {
                        Some(quality_ub) => quality_ub >= self.settings.max_quality(),
                        None => false,
                    };
                    if enough || budget == u8::MAX {
                        return Ok(budget);
                    }
                    budget = budget + 1;
                },
            }
        }
    }

    /// The frontier that is stored for `state`, if there is one. Its points
    /// rise in progress and fall in quality, and none lies beyond a target.
    pub fn solved_front(&self, state: &ReducedState) -> (r: Option<&Vec<ParetoValue>>)
        requires
            self.wf(),
        ensures
            match r {
                Some(front) => {
                    &&& self.solved().contains_key(*state)
                    &&& front@ == self.solved()[*state]
                    &&& front@.len() > 0
                    &&& is_front(front@)
                    &&& within_limits(
                        front@,
                        self.settings().spec_max_progress(),
                        self.settings().spec_max_quality(),
                    )
                },
                None => !self.solved().contains_key(*state),
            },
    {
        let r = self.solved_states.get(state);
        proof {
            if r is Some {
                lemma_frontiers_well_formed(
                    &self.simulator,
                    self.settings,
                    self.templates@,
                    self.layers as int,
                    self.solved_states@,
                    *state,
                );
            }
        }
        r
    }

    /// The templates that gain from a larger step budget than those covered.
    pub fn alive_templates(&self) -> (r: &Vec<Template>)
        ensures
            r@ == self.alive(),
    {
        &self.precompute_templates
    }

    /// The number of step budgets that are covered.
    pub fn covered_layers(&self) -> (r: u8)
        ensures
            r == self.layers(),
    {
        self.layers
    }

    /// The number of frontiers and the number of their points. A count that
    /// does not fit is given as the largest `usize`.
    pub fn runtime_stats(&self) -> (r: StepLbSolverStats)
        requires
            self.wf(),
        ensures
            r.parallel_states == capped(self.solved().dom().len()),
            r.pareto_values == capped(total_points(self.solved())),
    {
        StepLbSolverStats {
            parallel_states: self.solved_states.len(),
            pareto_values: self.solved_states.total_len(),
        }
    }
}

} // verus!
