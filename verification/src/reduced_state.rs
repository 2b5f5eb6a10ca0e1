use crate::actions::DominanceRule;
use crate::effects::{
    effects_of, lemma_bits_determine_effects, lemma_effects_of, Combo, Effects, EffectsView,
};
use crate::simulation::{Action, Settings, SimulationState};
use vstd::prelude::*;

verus! {

/// The effects as a reduced state keeps them: the adversarial guard is off and
/// the combo tag is cleared.
pub open spec fn reduced_effects(effects: Effects) -> Effects {
    effects_of(EffectsView { adversarial_guard: false, combo: Combo::NoCombo, ..effects@ })
}

/// Clears the adversarial guard and the combo tag.
pub fn reduce_effects(effects: Effects) -> (r: Effects)
    ensures
        r == reduced_effects(effects),
        r.wf(),
        reduced_effects(r) == r,
{
    let r = effects.with_adversarial_guard(false).with_combo(Combo::NoCombo);
    proof {
        lemma_effects_of(r);
        assert(r@ == (EffectsView { adversarial_guard: false, combo: Combo::NoCombo, ..r@ }));
    }
    r
}

/// What the actions that remain allowed say of the ones that were taken out:
/// the allowed set after the rules were applied one after the other. A rule
/// takes its worse action out if its better action is still in.
pub open spec fn pruned_actions(allowed: Set<Action>, rules: Seq<DominanceRule>) -> Set<Action>
    decreases rules.len(),
{
    if rules.len() == 0 {
        allowed
    } else {
        let rest = pruned_actions(allowed, rules.drop_last());
        let rule = rules.last();
        if rule.better != rule.worse && rest.contains(rule.better) {
            rest.remove(rule.worse)
        } else {
            rest
        }
    }
}

/// `better` stands above `worse` by a chain of `depth` rules at most.
pub open spec fn outranks(
    rules: Seq<DominanceRule>,
    better: Action,
    worse: Action,
    depth: nat,
) -> bool
    decreases depth,
{
    better == worse || (depth > 0 && exists|i: int|
        0 <= i < rules.len() && (#[trigger] rules[i]).worse == worse && outranks(
            rules,
            better,
            rules[i].better,
            (depth - 1) as nat,
        ))
}

/// A chain of rules is a chain of any longer list of rules.
proof fn lemma_outranks_with_more_rules(
    rules: Seq<DominanceRule>,
    more: Seq<DominanceRule>,
    better: Action,
    worse: Action,
    depth: nat,
)
    requires
        outranks(rules, better, worse, depth),
        rules.len() <= more.len(),
        forall|i: int| 0 <= i < rules.len() ==> rules[i] == more[i],
    ensures
        outranks(more, better, worse, depth),
    decreases depth,
{
    if better != worse {
        let i = choose|i: int|
            0 <= i < rules.len() && (#[trigger] rules[i]).worse == worse && outranks(
                rules,
                better,
                rules[i].better,
                (depth - 1) as nat,
            );
        lemma_outranks_with_more_rules(rules, more, better, rules[i].better, (depth - 1) as nat);
        assert(more[i].worse == worse);
    }
}

/// A chain grows by a rule at its upper end.
proof fn lemma_outranks_extends(
    rules: Seq<DominanceRule>,
    top: int,
    middle: Action,
    worse: Action,
    depth: nat,
)
    requires
        0 <= top < rules.len(),
        rules[top].worse == middle,
        outranks(rules, middle, worse, depth),
    ensures
        outranks(rules, rules[top].better, worse, depth + 1),
    decreases depth,
{
    if middle == worse {
        assert(outranks(rules, rules[top].better, rules[top].better, depth));
    } else {
        let i = choose|i: int|
            0 <= i < rules.len() && (#[trigger] rules[i]).worse == worse && outranks(
                rules,
                middle,
                rules[i].better,
                (depth - 1) as nat,
            );
        lemma_outranks_extends(rules, top, middle, rules[i].better, (depth - 1) as nat);
        assert(rules[i].worse == worse);
    }
}

/// Pruning only takes actions out, and for each action that it takes out it
/// leaves one in that stands above it by a chain of rules.
pub proof fn lemma_pruned_actions_are_outranked(
    allowed: Set<Action>,
    rules: Seq<DominanceRule>,
    action: Action,
)
    requires
        allowed.contains(action),
    ensures
        pruned_actions(allowed, rules).subset_of(allowed),
        exists|better: Action, depth: nat|
            pruned_actions(allowed, rules).contains(better) && #[trigger] outranks(
                rules,
                better,
                action,
                depth,
            ),
    decreases rules.len(),
{
    if rules.len() == 0 {
        assert(outranks(rules, action, action, 0));
    } else {
        let before = rules.drop_last();
        let rest = pruned_actions(allowed, before);
        let rule = rules.last();
        lemma_pruned_actions_are_outranked(allowed, before, action);
        let (kept, depth) = choose|better: Action, depth: nat|
            rest.contains(better) && #[trigger] outranks(before, better, action, depth);
        lemma_outranks_with_more_rules(before, rules, kept, action, depth);
        if rule.better != rule.worse && rest.contains(rule.better) && kept == rule.worse {
            lemma_outranks_extends(rules, rules.len() - 1, kept, action, depth);
            assert(outranks(rules, rule.better, action, depth + 1));
        } else {
            assert(pruned_actions(allowed, rules).contains(kept));
        }
    }
}

/// A class of states that share one frontier: those with this durability and
/// these effects, with this many steps left. CP, progress and quality are not
/// part of it.
#[derive(Clone, Copy, Debug, PartialEq, Eq, Hash, Structural)]
pub struct ReducedState {
    pub steps_budget: u8,
    pub durability: u16,
    pub effects: Effects,
}

impl ReducedState {
    pub open spec fn spec_from_state(state: SimulationState, steps_budget: u8) -> ReducedState {
        ReducedState {
            steps_budget,
            durability: state.durability,
            effects: reduced_effects(state.effects),
        }
    }

    pub open spec fn spec_to_state(self) -> SimulationState {
        SimulationState {
            cp: u16::MAX,
            durability: self.durability,
            progress: 0,
            quality: 0,
            unreliable_quality: 0,
            effects: self.effects,
        }
    }

    /// The number that stands for the state in a table: the step budget, the
    /// durability and the bits of the effects, side by side.
    pub open spec fn spec_key(&self) -> u64 {
        ((self.steps_budget as u64) << 48) | ((self.durability as u64) << 32) | (
        self.effects.bits() as u64)
    }

    /// The class of `state` with `steps_budget` steps left.
    #[verifier::when_used_as_spec(spec_from_state)]
    pub fn from_state(state: SimulationState, steps_budget: u8) -> (r: ReducedState)
        ensures
            r == Self::spec_from_state(state, steps_budget),
            r.effects.wf(),
            reduced_effects(r.effects) == r.effects,
    {
        ReducedState {
            steps_budget,
            durability: state.durability,
            effects: reduce_effects(state.effects),
        }
    }

    /// The member of the class that nothing was done in yet, with as much CP as
    /// a state can hold.
    #[verifier::when_used_as_spec(spec_to_state)]
    pub fn to_state(self) -> (r: SimulationState)
        ensures
            r == self.spec_to_state(),
    {
        SimulationState {
            cp: u16::MAX,
            durability: self.durability,
            progress: 0,
            quality: 0,
            unreliable_quality: 0,
            effects: self.effects,
        }
    }

    #[verifier::when_used_as_spec(spec_key)]
    pub fn key(&self) -> (r: u64)
        ensures
            r == self.spec_key(),
    {
        ((self.steps_budget as u64) << 48) | ((self.durability as u64) << 32) | (
        self.effects.into_bits() as u64)
    }

    /// Takes out of the allowed actions each one that a rule makes superfluous.
    pub fn optimize_action_mask(settings: &mut Settings, rules: &Vec<DominanceRule>)
        ensures
            final(settings).allowed_action_mask@ == pruned_actions(
                old(settings).allowed_action_mask@,
                rules@,
            ),
            *final(settings) == (Settings {
                allowed_action_mask: final(settings).allowed_action_mask,
                ..*old(settings)
            }),
    {
        let mut mask = settings.allowed_action_mask;
        let mut i: usize = 0;
        while i < rules.len()
            invariant
                i <= rules.len(),
                mask@ == pruned_actions(old(settings).allowed_action_mask@, rules@.take(i as int)),
            decreases rules.len() - i,
        {
            let rule = rules[i];
            proof {
                assert(rules@.take(i + 1).drop_last() =~= rules@.take(i as int));
            }
            if rule.better != rule.worse && mask.has(rule.better) {
                mask = mask.remove(rule.worse);
            }
            i = i + 1;
        }
        proof {
            assert(rules@.take(rules.len() as int) =~= rules@);
        }
        settings.allowed_action_mask = mask;
    }
}

/// Two reduced states with the same key are the same state.
pub proof fn lemma_key_determines_state(a: ReducedState, b: ReducedState)
    requires
        a.spec_key() == b.spec_key(),
    ensures
        a == b,
{
    let (x1, y1, z1) = (a.steps_budget, a.durability, a.effects.bits());
    let (x2, y2, z2) = (b.steps_budget, b.durability, b.effects.bits());
    assert(x1 == x2 && y1 == y2 && z1 == z2) by (bit_vector)
        requires
            ((x1 as u64) << 48) | ((y1 as u64) << 32) | (z1 as u64) == ((x2 as u64) << 48) | ((
            y2 as u64) << 32) | (z2 as u64),
    ;
    lemma_bits_determine_effects(a.effects, b.effects);
}

/// What a reduced state is apart from its step budget.
#[derive(Clone, Copy, Debug, PartialEq, Eq, Hash, Structural)]
pub struct Template {
    pub durability: u16,
    pub effects: Effects,
}

impl Template {
    pub open spec fn spec_instantiate(&self, steps_budget: u8) -> ReducedState {
        ReducedState {
            steps_budget,
            durability: self.durability,
            effects: reduced_effects(self.effects),
        }
    }

    /// The template of a reduced state.
    pub open spec fn of(state: ReducedState) -> Template {
        Template { durability: state.durability, effects: state.effects }
    }

    /// The template's effects are such as a reduced state holds.
    pub open spec fn is_reduced(&self) -> bool {
        self.effects.wf() && reduced_effects(self.effects) == self.effects
    }

    /// The number that stands for the template in a table, below 2^48.
    pub open spec fn spec_key(&self) -> u64 {
        ((self.durability as u64) << 32) | (self.effects.bits() as u64)
    }

    /// The reduced state with this template and `steps_budget` steps left.
    #[verifier::when_used_as_spec(spec_instantiate)]
    pub fn instantiate(&self, steps_budget: u8) -> (r: ReducedState)
        ensures
            r == self.spec_instantiate(steps_budget),
            r.effects.wf(),
            reduced_effects(r.effects) == r.effects,
    {
        let state = SimulationState {
            durability: self.durability,
            effects: self.effects,
            cp: 0,
            progress: 0,
            quality: 0,
            unreliable_quality: 0,
        };
        ReducedState::from_state(state, steps_budget)
    }

    #[verifier::when_used_as_spec(spec_key)]
    pub fn key(&self) -> (r: u64)
        ensures
            r == self.spec_key(),
            r < 0x1_0000_0000_0000,
    {
        let (d, e) = (self.durability, self.effects.into_bits());
        proof {
            assert((((d as u64) << 32) | (e as u64)) < 0x1_0000_0000_0000) by (bit_vector);
        }
        ((d as u64) << 32) | (e as u64)
    }
}

/// Two templates with the same key are the same template.
pub proof fn lemma_key_determines_template(a: Template, b: Template)
    requires
        a.spec_key() == b.spec_key(),
    ensures
        a == b,
{
    let (y1, z1) = (a.durability, a.effects.bits());
    let (y2, z2) = (b.durability, b.effects.bits());
    assert(y1 == y2 && z1 == z2) by (bit_vector)
        requires
            ((y1 as u64) << 32) | (z1 as u64) == ((y2 as u64) << 32) | (z2 as u64),
    ;
    lemma_bits_determine_effects(a.effects, b.effects);
}

/// Reducing the plain member of a class gives the class back.
pub proof fn lemma_round_trip(state: SimulationState, steps_budget: u8)
    requires
        state.effects.wf(),
    ensures
        ReducedState::spec_from_state(
            ReducedState::spec_from_state(state, steps_budget).spec_to_state(),
            steps_budget,
        ) == ReducedState::spec_from_state(state, steps_budget),
{
    lemma_reduced_effects_idempotent(state.effects);
}

/// Reducing effects twice is reducing them once.
pub proof fn lemma_reduced_effects_idempotent(effects: Effects)
    requires
        effects.wf(),
    ensures
        reduced_effects(effects).wf(),
        reduced_effects(reduced_effects(effects)) == reduced_effects(effects),
        reduced_effects(effects)@ == (EffectsView {
            adversarial_guard: false,
            combo: Combo::NoCombo,
            ..effects@
        }),
{
    crate::effects::lemma_reduced_exists(effects);
}

} // verus!
