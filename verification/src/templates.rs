use crate::actions::{use_action_combo, ActionCombo, SimulatorCore};
use crate::reduced_state::{
    lemma_key_determines_template, reduce_effects, reduced_effects, ReducedState, Template,
};
use crate::simulation::{Action, Settings, SimulationState, SolverSettings};
use crate::solved_states::KeySet;
use std::collections::VecDeque;
use vstd::prelude::*;

verus! {

/// The template that every craft starts from.
pub open spec fn seed_template<
    F: Fn(&Settings, SimulationState, Action) -> Option<SimulationState>,
>(
    simulator: &SimulatorCore<F>,
    settings: SolverSettings,
) -> Template {
    Template {
        durability: settings.simulator_settings.max_durability,
        effects: reduced_effects(simulator.initial_effects),
    }
}

/// The template that `combo` leads to from `template`, if it leads to a state
/// that has durability left. The number of steps that the entry takes does not
/// count here: the templates are explored as if steps never ran out.
pub open spec fn successor<F: Fn(&Settings, SimulationState, Action) -> Option<SimulationState>>(
    simulator: &SimulatorCore<F>,
    settings: SolverSettings,
    template: Template,
    combo: ActionCombo,
) -> Option<Template> {
    match simulator.spec_use_combo(
        settings.simulator_settings,
        template.spec_instantiate(u8::MAX).spec_to_state(),
        combo,
    ) {
        Ok(next) => if next.durability > 0 {
            Some(Template { durability: next.durability, effects: reduced_effects(next.effects) })
        } else {
            None
        },
        Err(_) => None,
    }
}

/// `template` is `steps` entries of the catalog away from the seed.
pub open spec fn reachable_in<F: Fn(&Settings, SimulationState, Action) -> Option<SimulationState>>(
    simulator: &SimulatorCore<F>,
    settings: SolverSettings,
    template: Template,
    steps: nat,
) -> bool
    decreases steps,
{
    if steps == 0 {
        template == seed_template(simulator, settings)
    } else {
        exists|parent: Template, k: int|
            reachable_in(simulator, settings, parent, (steps - 1) as nat) && 0 <= k
                < simulator.combos.len() && #[trigger] successor(
                simulator,
                settings,
                parent,
                simulator.combos[k],
            ) == Some(template)
    }
}

/// Some sequence of entries of the catalog leads from the seed to `template`.
pub open spec fn reachable<F: Fn(&Settings, SimulationState, Action) -> Option<SimulationState>>(
    simulator: &SimulatorCore<F>,
    settings: SolverSettings,
    template: Template,
) -> bool {
    exists|steps: nat| reachable_in(simulator, settings, template, steps)
}

/// `templates` lists the reachable templates, each once.
pub open spec fn is_enumeration<
    F: Fn(&Settings, SimulationState, Action) -> Option<SimulationState>,
>(
    simulator: &SimulatorCore<F>,
    settings: SolverSettings,
    templates: Seq<Template>,
) -> bool {
    &&& templates.no_duplicates()
    &&& forall|template: Template| #[trigger]
        templates.contains(template) <==> reachable(simulator, settings, template)
    &&& forall|template: Template| #[trigger]
        templates.contains(template) ==> template.is_reduced()
}

/// The list holds the successors of its first `done` templates.
spec fn closed_upto<F: Fn(&Settings, SimulationState, Action) -> Option<SimulationState>>(
    simulator: &SimulatorCore<F>,
    settings: SolverSettings,
    templates: Seq<Template>,
    done: int,
) -> bool {
    forall|i: int, k: int|
        0 <= i < done && i < templates.len() && 0 <= k < simulator.combos.len() ==> match (
        #[trigger] successor(simulator, settings, templates[i], simulator.combos[k])) {
            Some(next) => templates.contains(next),
            None => true,
        }
}

/// The keys of the listed templates are the keys in `seen`.
spec fn keys_listed(templates: Seq<Template>, seen: Set<u64>) -> bool {
    forall|key: u64|
        seen.contains(key) <==> exists|i: int|
            0 <= i < templates.len() && (#[trigger] templates[i]).spec_key() == key
}

/// Every listed template is reduced and can be reached.
spec fn all_reachable<F: Fn(&Settings, SimulationState, Action) -> Option<SimulationState>>(
    simulator: &SimulatorCore<F>,
    settings: SolverSettings,
    templates: Seq<Template>,
) -> bool {
    forall|i: int|
        0 <= i < templates.len() ==> (#[trigger] templates[i]).is_reduced() && reachable(
            simulator,
            settings,
            templates[i],
        )
}

proof fn lemma_reachable_step<F: Fn(&Settings, SimulationState, Action) -> Option<SimulationState>>(
    simulator: &SimulatorCore<F>,
    settings: SolverSettings,
    parent: Template,
    k: int,
    next: Template,
)
    requires
        reachable(simulator, settings, parent),
        0 <= k < simulator.combos.len(),
        successor(simulator, settings, parent, simulator.combos[k]) == Some(next),
    ensures
        reachable(simulator, settings, next),
{
    let steps = choose|steps: nat| reachable_in(simulator, settings, parent, steps);
    assert(reachable_in(simulator, settings, next, steps + 1));
}

/// The list of templates holds the seed, and with a template every template
/// that an entry of the catalog leads to from it.
pub proof fn lemma_enumeration_is_closed<
    F: Fn(&Settings, SimulationState, Action) -> Option<SimulationState>,
>(
    simulator: &SimulatorCore<F>,
    settings: SolverSettings,
    templates: Seq<Template>,
    template: Template,
    k: int,
)
    requires
        is_enumeration(simulator, settings, templates),
        templates.contains(template),
        0 <= k < simulator.combos.len(),
    ensures
        templates.contains(seed_template(simulator, settings)),
        match successor(simulator, settings, template, simulator.combos[k]) {
            Some(next) => templates.contains(next),
            None => true,
        },
{
    assert(reachable_in(simulator, settings, seed_template(simulator, settings), 0));
    match successor(simulator, settings, template, simulator.combos[k]) {
        Some(next) => {
            lemma_reachable_step(simulator, settings, template, k, next);
        },
        None => {},
    }
}

/// A list that holds the seed and the successors of all its templates holds
/// every template that can be reached.
proof fn lemma_closed_list_is_complete<
    F: Fn(&Settings, SimulationState, Action) -> Option<SimulationState>,
>(
    simulator: &SimulatorCore<F>,
    settings: SolverSettings,
    templates: Seq<Template>,
    template: Template,
    steps: nat,
)
    requires
        templates.contains(seed_template(simulator, settings)),
        closed_upto(simulator, settings, templates, templates.len() as int),
        reachable_in(simulator, settings, template, steps),
    ensures
        templates.contains(template),
    decreases steps,
{
    if steps > 0 {
        let (parent, k) = choose|parent: Template, k: int|
            reachable_in(simulator, settings, parent, (steps - 1) as nat) && 0 <= k
                < simulator.combos.len() && #[trigger] successor(
                simulator,
                settings,
                parent,
                simulator.combos[k],
            ) == Some(template);
        lemma_closed_list_is_complete(simulator, settings, templates, parent, (steps - 1) as nat);
        let i = choose|i: int| 0 <= i < templates.len() && templates[i] == parent;
        assert(successor(simulator, settings, templates[i], simulator.combos[k]) == Some(template));
    }
}

/// A longer list holds what the shorter one held.
proof fn lemma_push_keeps<T>(list: Seq<T>, last: T)
    ensures
        forall|x: T| list.contains(x) ==> #[trigger] list.push(last).contains(x),
        list.push(last).contains(last),
{
    assert forall|x: T| list.contains(x) implies #[trigger] list.push(last).contains(x) by {
        let i = choose|i: int| 0 <= i < list.len() && list[i] == x;
        assert(list.push(last)[i] == x);
    }
    assert(list.push(last)[list.len() as int] == last);
}

/// All templates that can be reached from the seed, in the order in which a
/// breadth-first search meets them.
pub fn generate_precompute_templates<
    F: Fn(&Settings, SimulationState, Action) -> Option<SimulationState>,
>(simulator: &SimulatorCore<F>, settings: &SolverSettings) -> (templates: Vec<Template>)
    requires
        simulator.wf(),
    ensures
        is_enumeration(simulator, *settings, templates@),
{
    let mut seen = KeySet::new();
    let mut queue: VecDeque<Template> = VecDeque::new();
    let mut templates: Vec<Template> = Vec::new();
    let seed = Template {
        durability: settings.max_durability(),
        effects: reduce_effects(simulator.initial_effects),
    };
    seen.insert(seed.key());
    queue.push_back(seed);
    templates.push(seed);
    let ghost mut done: int = 0;
    proof {
        assert(reachable_in(simulator, *settings, seed, 0));
        assert(templates@ =~= seq![seed]);
        assert(queue@ =~= templates@.subrange(0, 1));
        assert forall|key: u64| seen@.contains(key) <==> exists|i: int|
            0 <= i < templates.len() && (#[trigger] templates[i]).spec_key() == key by {
            if seen@.contains(key) {
                assert(templates[0].spec_key() == key);
            }
        }
    }
    while queue.len() > 0
        invariant
            simulator.wf(),
            0 <= done <= templates.len(),
            templates.len() >= 1,
            templates[0] == seed_template(simulator, *settings),
            queue@ == templates@.subrange(done, templates.len() as int),
            keys_listed(templates@, seen@),
            templates@.no_duplicates(),
            all_reachable(simulator, *settings, templates@),
            closed_upto(simulator, *settings, templates@, done),
        decreases usize::MAX - done,
    {
        let template = queue.pop_front().unwrap();
        let state = template.instantiate(u8::MAX);
        assert(template == templates[done]);
        let mut k: usize = 0;
        while k < simulator.combos.len()
            invariant
                simulator.wf(),
                0 <= done < templates.len(),
                k <= simulator.combos.len(),
                template == templates[done],
                state == template.spec_instantiate(u8::MAX),
                templates[0] == seed_template(simulator, *settings),
                queue@ == templates@.subrange(done + 1, templates.len() as int),
                keys_listed(templates@, seen@),
                templates@.no_duplicates(),
                all_reachable(simulator, *settings, templates@),
                closed_upto(simulator, *settings, templates@, done),
                forall|j: int|
                    0 <= j < k ==> match (#[trigger] successor(
                        simulator,
                        *settings,
                        template,
                        simulator.combos[j],
                    )) {
                        Some(next) => templates@.contains(next),
                        None => true,
                    },
            decreases simulator.combos.len() - k,
        {
            let reached = match use_action_combo(
                simulator,
                settings,
                state.to_state(),
                &simulator.combos[k],
            ) {
                Ok(new_state) => {
                    let new_state = ReducedState::from_state(new_state, u8::MAX);
                    if new_state.durability > 0 {
                        Some(new_state)
                    } else {
                        None
                    }
                },
                Err(_) => None,
            };
            match reached {
                Some(child) => {
                    let new_template = Template {
                        durability: child.durability,
                        effects: child.effects,
                    };
                    let ghost before = templates@;
                    proof {
                        assert(successor(simulator, *settings, template, simulator.combos[k as int])
                            == Some(new_template));
                        lemma_reachable_step(simulator, *settings, template, k as int, new_template);
                    }
                    if seen.insert(new_template.key()) {
                        queue.push_back(new_template);
                        templates.push(new_template);
                        proof {
                            lemma_push_keeps(before, new_template);
                            assert(queue@ =~= templates@.subrange(
                                done + 1,
                                templates.len() as int,
                            ));
                            assert forall|key: u64| seen@.contains(key) <==> exists|i: int|
                                0 <= i < templates.len() && (#[trigger] templates[i]).spec_key()
                                    == key by {
                                if key == new_template.spec_key() {
                                    assert(templates[before.len() as int].spec_key() == key);
                                } else if seen@.contains(key) {
                                    let i = choose|i: int|
                                        0 <= i < before.len() && (#[trigger] before[i]).spec_key()
                                            == key;
                                    assert(templates[i].spec_key() == key);
                                } else if exists|i: int|
                                    0 <= i < templates.len() && (#[trigger] templates[i]).spec_key()
                                        == key {
                                    let i = choose|i: int|
                                        0 <= i < templates.len() && (
                                        #[trigger] templates[i]).spec_key() == key;
                                    assert(before[i].spec_key() == key);
                                }
                            }
                            assert forall|i: int, j: int|
                                0 <= i < templates.len() && 0 <= j < templates.len() && i
                                    != j implies templates[i] != templates[j] by {
                                if i == before.len() {
                                    assert(before[j].spec_key() != new_template.spec_key());
                                } else if j == before.len() {
                                    assert(before[i].spec_key() != new_template.spec_key());
                                }
                            }
                            assert forall|i: int| 0 <= i < templates.len() implies (
                            #[trigger] templates[i]).is_reduced() && reachable(
                                simulator,
                                *settings,
                                templates[i],
                            ) by {
                                if i < before.len() {
                                    assert(before[i].is_reduced());
                                } else {
                                    assert(templates[i] == Template::of(child));
                                }
                            }
                            assert forall|i: int, j: int|
                                0 <= i < done && i < templates.len() && 0 <= j
                                    < simulator.combos.len() implies match (#[trigger] successor(
                                simulator,
                                *settings,
                                templates[i],
                                simulator.combos[j],
                            )) {
                                Some(next) => templates@.contains(next),
                                None => true,
                            } by {
                                assert(templates[i] == before[i]);
                            }
                        }
                    } else {
                        proof {
                            let i = choose|i: int|
                                0 <= i < templates.len() && (#[trigger] templates[i]).spec_key()
                                    == new_template.spec_key();
                            lemma_key_determines_template(templates[i], new_template);
                        }
                    }
                },
                None => {},
            }
            k = k + 1;
        }
        proof {
            done = done + 1;
            assert forall|i: int, j: int|
                0 <= i < done && i < templates.len() && 0 <= j < simulator.combos.len() implies match (
            #[trigger] successor(simulator, *settings, templates[i], simulator.combos[j])) {
                Some(next) => templates@.contains(next),
                None => true,
            } by {
                if i == done - 1 {
                    assert(templates[i] == template);
                }
            }
        }
    }
    proof {
        assert(done == templates.len());
        assert(templates@.contains(seed_template(simulator, *settings))) by {
            assert(templates@[0] == seed_template(simulator, *settings));
        }
        assert forall|template: Template| #[trigger]
            templates@.contains(template) <==> reachable(simulator, *settings, template) by {
            if reachable(simulator, *settings, template) {
                let steps = choose|steps: nat|
                    reachable_in(simulator, *settings, template, steps);
                lemma_closed_list_is_complete(simulator, *settings, templates@, template, steps);
            }
            if templates@.contains(template) {
                let i = choose|i: int| 0 <= i < templates.len() && templates[i] == template;
                assert(templates[i].is_reduced());
            }
        }
        assert forall|template: Template| #[trigger]
            templates@.contains(template) implies template.is_reduced() by {
            let i = choose|i: int| 0 <= i < templates.len() && templates[i] == template;
            assert(templates[i].is_reduced());
        }
    }
    templates
}

} // verus!
