use crate::effects::Effects;
use vstd::prelude::*;

verus! {

/// An action of the game, by its number. Only numbers below 64 can be allowed.
#[derive(Clone, Copy, Debug, PartialEq, Eq, Hash, Structural)]
pub struct Action {
    pub id: u8,
}

/// A set of actions, one bit for each number below 64.
#[derive(Clone, Copy, Debug, PartialEq, Eq, Hash, Structural)]
pub struct ActionMask {
    pub bits: u64,
}

impl View for ActionMask {
    type V = Set<Action>;

    open spec fn view(&self) -> Set<Action> {
        Set::new(|a: Action| a.id < 64 && (self.bits >> (a.id as u64)) & 1 == 1)
    }
}

impl ActionMask {
    /// The empty set.
    pub fn none() -> (r: ActionMask)
        ensures
            r@ == Set::<Action>::empty(),
    {
        let r = ActionMask { bits: 0 };
        proof {
            assert forall|a: Action| !r@.contains(a) by {
                let k = a.id as u64;
                assert((0u64 >> k) & 1 == 0) by (bit_vector);
            }
            assert(r@ =~= Set::<Action>::empty());
        }
        r
    }

    /// Every action with a number below 64.
    pub fn all() -> (r: ActionMask)
        ensures
            forall|a: Action| r@.contains(a) <==> a.id < 64,
    {
        let r = ActionMask { bits: u64::MAX };
        proof {
            assert forall|a: Action| a.id < 64 implies r@.contains(a) by {
                let k = a.id as u64;
                assert((0xFFFF_FFFF_FFFF_FFFFu64 >> k) & 1 == 1) by (bit_vector)
                    requires
                        k < 64,
                ;
            }
        }
        r
    }

    /// Whether `action` is in the set.
    pub fn has(&self, action: Action) -> (r: bool)
        ensures
            r == self@.contains(action),
    {
        action.id < 64 && (self.bits >> (action.id as u64)) & 1 == 1
    }

    /// The set with `action` in it. An action with a number of 64 or more is left out.
    pub fn insert(self, action: Action) -> (r: ActionMask)
        ensures
            r@ == if action.id < 64 {
                self@.insert(action)
            } else {
                self@
            },
    {
        if action.id < 64 {
            let k = action.id as u64;
            let old_bits = self.bits;
            let bits = old_bits | (1u64 << k);
            let r = ActionMask { bits };
            proof {
                assert forall|a: Action| r@.contains(a) <==> self@.insert(action).contains(a) by {
                    let j = a.id as u64;
                    if a.id < 64 {
                        assert(((old_bits | (1u64 << k)) >> j) & 1 == (if j == k {
                            1u64
                        } else {
                            (old_bits >> j) & 1
                        })) by (bit_vector)
                            requires
                                j < 64,
                                k < 64,
                        ;
                    }
                }
                assert(r@ =~= self@.insert(action));
            }
            r
        } else {
            self
        }
    }

    /// The set without `action`.
    pub fn remove(self, action: Action) -> (r: ActionMask)
        ensures
            r@ == self@.remove(action),
    {
        if action.id < 64 {
            let k = action.id as u64;
            let old_bits = self.bits;
            let bits = old_bits & !(1u64 << k);
            let r = ActionMask { bits };
            proof {
                assert forall|a: Action| r@.contains(a) <==> self@.remove(action).contains(a) by {
                    let j = a.id as u64;
                    if a.id < 64 {
                        assert(((old_bits & !(1u64 << k)) >> j) & 1 == (if j == k {
                            0u64
                        } else {
                            (old_bits >> j) & 1
                        })) by (bit_vector)
                            requires
                                j < 64,
                                k < 64,
                        ;
                    }
                }
                assert(r@ =~= self@.remove(action));
            }
            r
        } else {
            proof {
                assert(self@ =~= self@.remove(action));
            }
            self
        }
    }
}

/// What the simulator is told about the recipe and the crafter.
#[derive(Clone, Copy, Debug, PartialEq, Eq, Hash, Structural)]
pub struct Settings {
    pub max_cp: u16,
    pub max_durability: u16,
    pub max_progress: u16,
    pub max_quality: u16,
    pub base_progress: u16,
    pub base_quality: u16,
    pub job_level: u8,
    pub allowed_action_mask: ActionMask,
    pub adversarial: bool,
}

/// The state of a craft.
#[derive(Clone, Copy, Debug, PartialEq, Eq, Hash, Structural)]
pub struct SimulationState {
    pub cp: u16,
    pub durability: u16,
    pub progress: u32,
    pub quality: u32,
    pub unreliable_quality: u32,
    pub effects: Effects,
}

impl SimulationState {
    /// The state before the first step: full durability and CP, nothing done, and
    /// the effects that the craft starts with.
    pub fn new(settings: &Settings, effects: Effects) -> (r: SimulationState)
        ensures
            r == (SimulationState {
                cp: settings.max_cp,
                durability: settings.max_durability,
                progress: 0,
                quality: 0,
                unreliable_quality: 0,
                effects,
            }),
    {
        SimulationState {
            cp: settings.max_cp,
            durability: settings.max_durability,
            progress: 0,
            quality: 0,
            unreliable_quality: 0,
            effects,
        }
    }
}

/// The settings of a solver.
#[derive(Clone, Copy, Debug, PartialEq, Eq, Hash, Structural)]
pub struct SolverSettings {
    pub simulator_settings: Settings,
}

impl SolverSettings {
    pub open spec fn spec_max_progress(&self) -> u32 {
        self.simulator_settings.max_progress as u32
    }

    pub open spec fn spec_max_quality(&self) -> u32 {
        self.simulator_settings.max_quality as u32
    }

    /// The progress at which the craft is complete.
    #[verifier::when_used_as_spec(spec_max_progress)]
    pub fn max_progress(&self) -> (r: u32)
        ensures
            r == self.spec_max_progress(),
    {
        self.simulator_settings.max_progress as u32
    }

    /// The quality that is aimed at.
    #[verifier::when_used_as_spec(spec_max_quality)]
    pub fn max_quality(&self) -> (r: u32)
        ensures
            r == self.spec_max_quality(),
    {
        self.simulator_settings.max_quality as u32
    }

    /// The durability that a craft starts with.
    pub fn max_durability(&self) -> (r: u16)
        ensures
            r == self.simulator_settings.max_durability,
    {
        self.simulator_settings.max_durability
    }

    /// The CP that a craft starts with.
    pub fn max_cp(&self) -> (r: u16)
        ensures
            r == self.simulator_settings.max_cp,
    {
        self.simulator_settings.max_cp
    }
}

} // verus!
