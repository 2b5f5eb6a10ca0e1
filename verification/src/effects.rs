use vstd::prelude::*;

verus! {

/// What the previous action was, as far as a follow-up action depends on it.
#[derive(Clone, Copy, Debug, PartialEq, Eq, Hash, Structural)]
pub enum Combo {
    NoCombo,
    SynthesisBegin,
    BasicTouch,
    StandardTouch,
    Other,
}

/// The status effects of a craft, field by field.
pub struct EffectsView {
    pub inner_quiet: nat,
    pub waste_not: nat,
    pub innovation: nat,
    pub veneration: nat,
    pub great_strides: nat,
    pub muscle_memory: nat,
    pub manipulation: nat,
    pub trained_perfection_available: bool,
    pub heart_and_soul_available: bool,
    pub heart_and_soul_active: bool,
    pub quick_innovation_available: bool,
    pub adversarial_guard: bool,
    pub allow_quality_actions: bool,
    pub combo: Combo,
}

/// The status effects of a craft, packed into 32 bits.
///
/// From the lowest bit up: Inner Quiet (4 bits), Waste Not (4), Innovation (3),
/// Veneration (3), Great Strides (2), Muscle Memory (3), Manipulation (4), six
/// flags of one bit each, and the combo tag (3). Every field that is not in
/// effect is zero, so two values that say the same hold the same bits.
#[derive(Clone, Copy, Debug, PartialEq, Eq, Hash, Structural)]
pub struct Effects {
    bits: u32,
}

pub open spec fn combo_of_code(code: u32) -> Combo {
    if code == 0 {
        Combo::NoCombo
    } else if code == 1 {
        Combo::SynthesisBegin
    } else if code == 2 {
        Combo::BasicTouch
    } else if code == 3 {
        Combo::StandardTouch
    } else {
        Combo::Other
    }
}

pub open spec fn min_nat(a: nat, b: nat) -> nat {
    if a <= b {
        a
    } else {
        b
    }
}

/// What the packed value `bits` says, field by field.
pub open spec fn view_of_bits(bits: u32) -> EffectsView {
    EffectsView {
        inner_quiet: (bits & 0xF) as nat,
        waste_not: ((bits >> 4) & 0xF) as nat,
        innovation: ((bits >> 8) & 0x7) as nat,
        veneration: ((bits >> 11) & 0x7) as nat,
        great_strides: ((bits >> 14) & 0x3) as nat,
        muscle_memory: ((bits >> 16) & 0x7) as nat,
        manipulation: ((bits >> 19) & 0xF) as nat,
        trained_perfection_available: (bits >> 23) & 1 == 1,
        heart_and_soul_available: (bits >> 24) & 1 == 1,
        heart_and_soul_active: (bits >> 25) & 1 == 1,
        quick_innovation_available: (bits >> 26) & 1 == 1,
        adversarial_guard: (bits >> 27) & 1 == 1,
        allow_quality_actions: (bits >> 28) & 1 == 1,
        combo: combo_of_code((bits >> 29) & 0x7),
    }
}

impl View for Effects {
    type V = EffectsView;

    closed spec fn view(&self) -> EffectsView {
        view_of_bits(self.bits)
    }
}

impl Effects {
    #[verifier::type_invariant]
    closed spec fn in_range(self) -> bool {
        &&& self.bits & 0xF <= 10
        &&& (self.bits >> 29) & 0x7 <= 4
    }

    /// The packed value, which identifies the effects.
    pub closed spec fn bits(self) -> u32 {
        self.bits
    }

    /// What every `Effects` value that the program holds satisfies: at most ten
    /// Inner Quiet stacks, and a combo code that stands for a tag.
    pub closed spec fn wf(self) -> bool {
        self.in_range()
    }

    /// No effect, no flag, no combo.
    pub fn new() -> (r: Effects)
        ensures
            r.wf(),
            r@ == (EffectsView {
                inner_quiet: 0,
                waste_not: 0,
                innovation: 0,
                veneration: 0,
                great_strides: 0,
                muscle_memory: 0,
                manipulation: 0,
                trained_perfection_available: false,
                heart_and_soul_available: false,
                heart_and_soul_active: false,
                quick_innovation_available: false,
                adversarial_guard: false,
                allow_quality_actions: false,
                combo: Combo::NoCombo,
            }),
    {
        let bits: u32 = 0;
        proof {
            assert({
                &&& bits & 0xF == 0
                &&& (bits >> 4) & 0xF == 0
                &&& (bits >> 8) & 0x7 == 0
                &&& (bits >> 11) & 0x7 == 0
                &&& (bits >> 14) & 0x3 == 0
                &&& (bits >> 16) & 0x7 == 0
                &&& (bits >> 19) & 0xF == 0
                &&& (bits >> 23) & 1 == 0
                &&& (bits >> 24) & 1 == 0
                &&& (bits >> 25) & 1 == 0
                &&& (bits >> 26) & 1 == 0
                &&& (bits >> 27) & 1 == 0
                &&& (bits >> 28) & 1 == 0
                &&& (bits >> 29) & 0x7 == 0
            }) by (bit_vector)
                requires
                    bits == 0,
            ;
        }
        Effects { bits }
    }

    /// The packed value: equal for two values exactly when they are equal.
    pub fn into_bits(self) -> (r: u32)
        ensures
            r == self.bits(),
            self.wf(),
    {
        proof {
            use_type_invariant(self);
        }
        self.bits
    }

    /// Inner Quiet stacks, from 0 to 10.
    pub fn inner_quiet(&self) -> (r: u8)
        ensures
            r == self@.inner_quiet,
            r <= 10,
    {
        let bits = self.bits;
        let raw = bits & 0xF;
        proof {
            use_type_invariant(self);
        }
        raw as u8
    }

    /// Remaining turns of Waste Not.
    pub fn waste_not(&self) -> (r: u8)
        ensures
            r == self@.waste_not,
            r <= 15,
    {
        let bits = self.bits;
        let raw = (bits >> 4) & 0xF;
        proof {
            assert((bits >> 4) & 0xF <= 0xF) by (bit_vector);
        }
        raw as u8
    }

    /// Remaining turns of Innovation.
    pub fn innovation(&self) -> (r: u8)
        ensures
            r == self@.innovation,
            r <= 7,
    {
        let bits = self.bits;
        let raw = (bits >> 8) & 0x7;
        proof {
            assert((bits >> 8) & 0x7 <= 0x7) by (bit_vector);
        }
        raw as u8
    }

    /// Remaining turns of Veneration.
    pub fn veneration(&self) -> (r: u8)
        ensures
            r == self@.veneration,
            r <= 7,
    {
        let bits = self.bits;
        let raw = (bits >> 11) & 0x7;
        proof {
            assert((bits >> 11) & 0x7 <= 0x7) by (bit_vector);
        }
        raw as u8
    }

    /// Remaining turns of Great Strides.
    pub fn great_strides(&self) -> (r: u8)
        ensures
            r == self@.great_strides,
            r <= 3,
    {
        let bits = self.bits;
        let raw = (bits >> 14) & 0x3;
        proof {
            assert((bits >> 14) & 0x3 <= 0x3) by (bit_vector);
        }
        raw as u8
    }

    /// Remaining turns of Muscle Memory.
    pub fn muscle_memory(&self) -> (r: u8)
        ensures
            r == self@.muscle_memory,
            r <= 7,
    {
        let bits = self.bits;
        let raw = (bits >> 16) & 0x7;
        proof {
            assert((bits >> 16) & 0x7 <= 0x7) by (bit_vector);
        }
        raw as u8
    }

    /// Remaining turns of Manipulation.
    pub fn manipulation(&self) -> (r: u8)
        ensures
            r == self@.manipulation,
            r <= 15,
    {
        let bits = self.bits;
        let raw = (bits >> 19) & 0xF;
        proof {
            assert((bits >> 19) & 0xF <= 0xF) by (bit_vector);
        }
        raw as u8
    }

    /// Whether Trained Perfection can still be used.
    pub fn trained_perfection_available(&self) -> (r: bool)
        ensures
            r == self@.trained_perfection_available,
    {
        (self.bits >> 23) & 1 == 1
    }

    /// Whether Heart and Soul can still be used.
    pub fn heart_and_soul_available(&self) -> (r: bool)
        ensures
            r == self@.heart_and_soul_available,
    {
        (self.bits >> 24) & 1 == 1
    }

    /// Whether Heart and Soul is in effect.
    pub fn heart_and_soul_active(&self) -> (r: bool)
        ensures
            r == self@.heart_and_soul_active,
    {
        (self.bits >> 25) & 1 == 1
    }

    /// Whether Quick Innovation can still be used.
    pub fn quick_innovation_available(&self) -> (r: bool)
        ensures
            r == self@.quick_innovation_available,
    {
        (self.bits >> 26) & 1 == 1
    }

    /// The guard against a bad condition on the next step.
    pub fn adversarial_guard(&self) -> (r: bool)
        ensures
            r == self@.adversarial_guard,
    {
        (self.bits >> 27) & 1 == 1
    }

    /// Whether actions that raise quality may still be used.
    pub fn allow_quality_actions(&self) -> (r: bool)
        ensures
            r == self@.allow_quality_actions,
    {
        (self.bits >> 28) & 1 == 1
    }

    /// The combo tag.
    pub fn combo(&self) -> (r: Combo)
        ensures
            r == self@.combo,
    {
        let code = (self.bits >> 29) & 0x7;
        if code == 0 {
            Combo::NoCombo
        } else if code == 1 {
            Combo::SynthesisBegin
        } else if code == 2 {
            Combo::BasicTouch
        } else if code == 3 {
            Combo::StandardTouch
        } else {
            Combo::Other
        }
    }

    /// The same effects with `inner_quiet` set to `value`, or to 10 where `value` is larger.
    pub fn with_inner_quiet(self, value: u8) -> (r: Effects)
        ensures
            r.wf(),
            r@ == (EffectsView { inner_quiet: min_nat(value as nat, 10), ..self@ }),
    {
        let v: u32 = if value <= 10 {
            value as u32
        } else {
            10
        };
        let old_bits = self.bits;
        let bits = (old_bits & !0xFu32) | v;
        proof {
            use_type_invariant(self);
            assert({
                &&& bits & 0xF == v
                &&& (bits >> 4) & 0xF == (old_bits >> 4) & 0xF
                &&& (bits >> 8) & 0x7 == (old_bits >> 8) & 0x7
                &&& (bits >> 11) & 0x7 == (old_bits >> 11) & 0x7
                &&& (bits >> 14) & 0x3 == (old_bits >> 14) & 0x3
                &&& (bits >> 16) & 0x7 == (old_bits >> 16) & 0x7
                &&& (bits >> 19) & 0xF == (old_bits >> 19) & 0xF
                &&& (bits >> 23) & 1 == (old_bits >> 23) & 1
                &&& (bits >> 24) & 1 == (old_bits >> 24) & 1
                &&& (bits >> 25) & 1 == (old_bits >> 25) & 1
                &&& (bits >> 26) & 1 == (old_bits >> 26) & 1
                &&& (bits >> 27) & 1 == (old_bits >> 27) & 1
                &&& (bits >> 28) & 1 == (old_bits >> 28) & 1
                &&& (bits >> 29) & 0x7 == (old_bits >> 29) & 0x7
            }) by (bit_vector)
                requires
                    v <= 10,
                    bits == (old_bits & !0xFu32) | v,
            ;
        }
        Effects { bits }
    }

    /// The same effects with `waste_not` set to `value`, or to 15 where `value` is larger.
    pub fn with_waste_not(self, value: u8) -> (r: Effects)
        ensures
            r.wf(),
            r@ == (EffectsView { waste_not: min_nat(value as nat, 15), ..self@ }),
    {
        let v: u32 = if value <= 15 {
            value as u32
        } else {
            15
        };
        let old_bits = self.bits;
        let bits = (old_bits & !(0xFu32 << 4)) | (v << 4);
        proof {
            use_type_invariant(self);
            assert({
                &&& (bits >> 4) & 0xF == v
                &&& bits & 0xF == old_bits & 0xF
                &&& (bits >> 8) & 0x7 == (old_bits >> 8) & 0x7
                &&& (bits >> 11) & 0x7 == (old_bits >> 11) & 0x7
                &&& (bits >> 14) & 0x3 == (old_bits >> 14) & 0x3
                &&& (bits >> 16) & 0x7 == (old_bits >> 16) & 0x7
                &&& (bits >> 19) & 0xF == (old_bits >> 19) & 0xF
                &&& (bits >> 23) & 1 == (old_bits >> 23) & 1
                &&& (bits >> 24) & 1 == (old_bits >> 24) & 1
                &&& (bits >> 25) & 1 == (old_bits >> 25) & 1
                &&& (bits >> 26) & 1 == (old_bits >> 26) & 1
                &&& (bits >> 27) & 1 == (old_bits >> 27) & 1
                &&& (bits >> 28) & 1 == (old_bits >> 28) & 1
                &&& (bits >> 29) & 0x7 == (old_bits >> 29) & 0x7
            }) by (bit_vector)
                requires
                    v <= 15,
                    bits == (old_bits & !(0xFu32 << 4)) | (v << 4),
            ;
        }
        Effects { bits }
    }

    /// The same effects with `innovation` set to `value`, or to 7 where `value` is larger.
    pub fn with_innovation(self, value: u8) -> (r: Effects)
        ensures
            r.wf(),
            r@ == (EffectsView { innovation: min_nat(value as nat, 7), ..self@ }),
    {
        let v: u32 = if value <= 7 {
            value as u32
        } else {
            7
        };
        let old_bits = self.bits;
        let bits = (old_bits & !(0x7u32 << 8)) | (v << 8);
        proof {
            use_type_invariant(self);
            assert({
                &&& (bits >> 8) & 0x7 == v
                &&& bits & 0xF == old_bits & 0xF
                &&& (bits >> 4) & 0xF == (old_bits >> 4) & 0xF
                &&& (bits >> 11) & 0x7 == (old_bits >> 11) & 0x7
                &&& (bits >> 14) & 0x3 == (old_bits >> 14) & 0x3
                &&& (bits >> 16) & 0x7 == (old_bits >> 16) & 0x7
                &&& (bits >> 19) & 0xF == (old_bits >> 19) & 0xF
                &&& (bits >> 23) & 1 == (old_bits >> 23) & 1
                &&& (bits >> 24) & 1 == (old_bits >> 24) & 1
                &&& (bits >> 25) & 1 == (old_bits >> 25) & 1
                &&& (bits >> 26) & 1 == (old_bits >> 26) & 1
                &&& (bits >> 27) & 1 == (old_bits >> 27) & 1
                &&& (bits >> 28) & 1 == (old_bits >> 28) & 1
                &&& (bits >> 29) & 0x7 == (old_bits >> 29) & 0x7
            }) by (bit_vector)
                requires
                    v <= 7,
                    bits == (old_bits & !(0x7u32 << 8)) | (v << 8),
            ;
        }
        Effects { bits }
    }

    /// The same effects with `veneration` set to `value`, or to 7 where `value` is larger.
    pub fn with_veneration(self, value: u8) -> (r: Effects)
        ensures
            r.wf(),
            r@ == (EffectsView { veneration: min_nat(value as nat, 7), ..self@ }),
    {
        let v: u32 = if value <= 7 {
            value as u32
        } else {
            7
        };
        let old_bits = self.bits;
        let bits = (old_bits & !(0x7u32 << 11)) | (v << 11);
        proof {
            use_type_invariant(self);
            assert({
                &&& (bits >> 11) & 0x7 == v
                &&& bits & 0xF == old_bits & 0xF
                &&& (bits >> 4) & 0xF == (old_bits >> 4) & 0xF
                &&& (bits >> 8) & 0x7 == (old_bits >> 8) & 0x7
                &&& (bits >> 14) & 0x3 == (old_bits >> 14) & 0x3
                &&& (bits >> 16) & 0x7 == (old_bits >> 16) & 0x7
                &&& (bits >> 19) & 0xF == (old_bits >> 19) & 0xF
                &&& (bits >> 23) & 1 == (old_bits >> 23) & 1
                &&& (bits >> 24) & 1 == (old_bits >> 24) & 1
                &&& (bits >> 25) & 1 == (old_bits >> 25) & 1
                &&& (bits >> 26) & 1 == (old_bits >> 26) & 1
                &&& (bits >> 27) & 1 == (old_bits >> 27) & 1
                &&& (bits >> 28) & 1 == (old_bits >> 28) & 1
                &&& (bits >> 29) & 0x7 == (old_bits >> 29) & 0x7
            }) by (bit_vector)
                requires
                    v <= 7,
                    bits == (old_bits & !(0x7u32 << 11)) | (v << 11),
            ;
        }
        Effects { bits }
    }

    /// The same effects with `great_strides` set to `value`, or to 3 where `value` is larger.
    pub fn with_great_strides(self, value: u8) -> (r: Effects)
        ensures
            r.wf(),
            r@ == (EffectsView { great_strides: min_nat(value as nat, 3), ..self@ }),
    {
        let v: u32 = if value <= 3 {
            value as u32
        } else {
            3
        };
        let old_bits = self.bits;
        let bits = (old_bits & !(0x3u32 << 14)) | (v << 14);
        proof {
            use_type_invariant(self);
            assert({
                &&& (bits >> 14) & 0x3 == v
                &&& bits & 0xF == old_bits & 0xF
                &&& (bits >> 4) & 0xF == (old_bits >> 4) & 0xF
                &&& (bits >> 8) & 0x7 == (old_bits >> 8) & 0x7
                &&& (bits >> 11) & 0x7 == (old_bits >> 11) & 0x7
                &&& (bits >> 16) & 0x7 == (old_bits >> 16) & 0x7
                &&& (bits >> 19) & 0xF == (old_bits >> 19) & 0xF
                &&& (bits >> 23) & 1 == (old_bits >> 23) & 1
                &&& (bits >> 24) & 1 == (old_bits >> 24) & 1
                &&& (bits >> 25) & 1 == (old_bits >> 25) & 1
                &&& (bits >> 26) & 1 == (old_bits >> 26) & 1
                &&& (bits >> 27) & 1 == (old_bits >> 27) & 1
                &&& (bits >> 28) & 1 == (old_bits >> 28) & 1
                &&& (bits >> 29) & 0x7 == (old_bits >> 29) & 0x7
            }) by (bit_vector)
                requires
                    v <= 3,
                    bits == (old_bits & !(0x3u32 << 14)) | (v << 14),
            ;
        }
        Effects { bits }
    }

    /// The same effects with `muscle_memory` set to `value`, or to 7 where `value` is larger.
    pub fn with_muscle_memory(self, value: u8) -> (r: Effects)
        ensures
            r.wf(),
            r@ == (EffectsView { muscle_memory: min_nat(value as nat, 7), ..self@ }),
    {
        let v: u32 = if value <= 7 {
            value as u32
        } else {
            7
        };
        let old_bits = self.bits;
        let bits = (old_bits & !(0x7u32 << 16)) | (v << 16);
        proof {
            use_type_invariant(self);
            assert({
                &&& (bits >> 16) & 0x7 == v
                &&& bits & 0xF == old_bits & 0xF
                &&& (bits >> 4) & 0xF == (old_bits >> 4) & 0xF
                &&& (bits >> 8) & 0x7 == (old_bits >> 8) & 0x7
                &&& (bits >> 11) & 0x7 == (old_bits >> 11) & 0x7
                &&& (bits >> 14) & 0x3 == (old_bits >> 14) & 0x3
                &&& (bits >> 19) & 0xF == (old_bits >> 19) & 0xF
                &&& (bits >> 23) & 1 == (old_bits >> 23) & 1
                &&& (bits >> 24) & 1 == (old_bits >> 24) & 1
                &&& (bits >> 25) & 1 == (old_bits >> 25) & 1
                &&& (bits >> 26) & 1 == (old_bits >> 26) & 1
                &&& (bits >> 27) & 1 == (old_bits >> 27) & 1
                &&& (bits >> 28) & 1 == (old_bits >> 28) & 1
                &&& (bits >> 29) & 0x7 == (old_bits >> 29) & 0x7
            }) by (bit_vector)
                requires
                    v <= 7,
                    bits == (old_bits & !(0x7u32 << 16)) | (v << 16),
            ;
        }
        Effects { bits }
    }

    /// The same effects with `manipulation` set to `value`, or to 15 where `value` is larger.
    pub fn with_manipulation(self, value: u8) -> (r: Effects)
        ensures
            r.wf(),
            r@ == (EffectsView { manipulation: min_nat(value as nat, 15), ..self@ }),
    {
        let v: u32 = if value <= 15 {
            value as u32
        } else {
            15
        };
        let old_bits = self.bits;
        let bits = (old_bits & !(0xFu32 << 19)) | (v << 19);
        proof {
            use_type_invariant(self);
            assert({
                &&& (bits >> 19) & 0xF == v
                &&& bits & 0xF == old_bits & 0xF
                &&& (bits >> 4) & 0xF == (old_bits >> 4) & 0xF
                &&& (bits >> 8) & 0x7 == (old_bits >> 8) & 0x7
                &&& (bits >> 11) & 0x7 == (old_bits >> 11) & 0x7
                &&& (bits >> 14) & 0x3 == (old_bits >> 14) & 0x3
                &&& (bits >> 16) & 0x7 == (old_bits >> 16) & 0x7
                &&& (bits >> 23) & 1 == (old_bits >> 23) & 1
                &&& (bits >> 24) & 1 == (old_bits >> 24) & 1
                &&& (bits >> 25) & 1 == (old_bits >> 25) & 1
                &&& (bits >> 26) & 1 == (old_bits >> 26) & 1
                &&& (bits >> 27) & 1 == (old_bits >> 27) & 1
                &&& (bits >> 28) & 1 == (old_bits >> 28) & 1
                &&& (bits >> 29) & 0x7 == (old_bits >> 29) & 0x7
            }) by (bit_vector)
                requires
                    v <= 15,
                    bits == (old_bits & !(0xFu32 << 19)) | (v << 19),
            ;
        }
        Effects { bits }
    }

    /// The same effects with `trained_perfection_available` set to `value`.
    pub fn with_trained_perfection_available(self, value: bool) -> (r: Effects)
        ensures
            r.wf(),
            r@ == (EffectsView { trained_perfection_available: value, ..self@ }),
    {
        let v: u32 = if value {
            1
        } else {
            0
        };
        let old_bits = self.bits;
        let bits = (old_bits & !(1u32 << 23)) | (v << 23);
        proof {
            use_type_invariant(self);
            assert({
                &&& (bits >> 23) & 1 == v
                &&& bits & 0xF == old_bits & 0xF
                &&& (bits >> 4) & 0xF == (old_bits >> 4) & 0xF
                &&& (bits >> 8) & 0x7 == (old_bits >> 8) & 0x7
                &&& (bits >> 11) & 0x7 == (old_bits >> 11) & 0x7
                &&& (bits >> 14) & 0x3 == (old_bits >> 14) & 0x3
                &&& (bits >> 16) & 0x7 == (old_bits >> 16) & 0x7
                &&& (bits >> 19) & 0xF == (old_bits >> 19) & 0xF
                &&& (bits >> 24) & 1 == (old_bits >> 24) & 1
                &&& (bits >> 25) & 1 == (old_bits >> 25) & 1
                &&& (bits >> 26) & 1 == (old_bits >> 26) & 1
                &&& (bits >> 27) & 1 == (old_bits >> 27) & 1
                &&& (bits >> 28) & 1 == (old_bits >> 28) & 1
                &&& (bits >> 29) & 0x7 == (old_bits >> 29) & 0x7
            }) by (bit_vector)
                requires
                    v <= 1,
                    bits == (old_bits & !(1u32 << 23)) | (v << 23),
            ;
        }
        Effects { bits }
    }

    /// The same effects with `heart_and_soul_available` set to `value`.
    pub fn with_heart_and_soul_available(self, value: bool) -> (r: Effects)
        ensures
            r.wf(),
            r@ == (EffectsView { heart_and_soul_available: value, ..self@ }),
    {
        let v: u32 = if value {
            1
        } else {
            0
        };
        let old_bits = self.bits;
        let bits = (old_bits & !(1u32 << 24)) | (v << 24);
        proof {
            use_type_invariant(self);
            assert({
                &&& (bits >> 24) & 1 == v
                &&& bits & 0xF == old_bits & 0xF
                &&& (bits >> 4) & 0xF == (old_bits >> 4) & 0xF
                &&& (bits >> 8) & 0x7 == (old_bits >> 8) & 0x7
                &&& (bits >> 11) & 0x7 == (old_bits >> 11) & 0x7
                &&& (bits >> 14) & 0x3 == (old_bits >> 14) & 0x3
                &&& (bits >> 16) & 0x7 == (old_bits >> 16) & 0x7
                &&& (bits >> 19) & 0xF == (old_bits >> 19) & 0xF
                &&& (bits >> 23) & 1 == (old_bits >> 23) & 1
                &&& (bits >> 25) & 1 == (old_bits >> 25) & 1
                &&& (bits >> 26) & 1 == (old_bits >> 26) & 1
                &&& (bits >> 27) & 1 == (old_bits >> 27) & 1
                &&& (bits >> 28) & 1 == (old_bits >> 28) & 1
                &&& (bits >> 29) & 0x7 == (old_bits >> 29) & 0x7
            }) by (bit_vector)
                requires
                    v <= 1,
                    bits == (old_bits & !(1u32 << 24)) | (v << 24),
            ;
        }
        Effects { bits }
    }

    /// The same effects with `heart_and_soul_active` set to `value`.
    pub fn with_heart_and_soul_active(self, value: bool) -> (r: Effects)
        ensures
            r.wf(),
            r@ == (EffectsView { heart_and_soul_active: value, ..self@ }),
    {
        let v: u32 = if value {
            1
        } else {
            0
        };
        let old_bits = self.bits;
        let bits = (old_bits & !(1u32 << 25)) | (v << 25);
        proof {
            use_type_invariant(self);
            assert({
                &&& (bits >> 25) & 1 == v
                &&& bits & 0xF == old_bits & 0xF
                &&& (bits >> 4) & 0xF == (old_bits >> 4) & 0xF
                &&& (bits >> 8) & 0x7 == (old_bits >> 8) & 0x7
                &&& (bits >> 11) & 0x7 == (old_bits >> 11) & 0x7
                &&& (bits >> 14) & 0x3 == (old_bits >> 14) & 0x3
                &&& (bits >> 16) & 0x7 == (old_bits >> 16) & 0x7
                &&& (bits >> 19) & 0xF == (old_bits >> 19) & 0xF
                &&& (bits >> 23) & 1 == (old_bits >> 23) & 1
                &&& (bits >> 24) & 1 == (old_bits >> 24) & 1
                &&& (bits >> 26) & 1 == (old_bits >> 26) & 1
                &&& (bits >> 27) & 1 == (old_bits >> 27) & 1
                &&& (bits >> 28) & 1 == (old_bits >> 28) & 1
                &&& (bits >> 29) & 0x7 == (old_bits >> 29) & 0x7
            }) by (bit_vector)
                requires
                    v <= 1,
                    bits == (old_bits & !(1u32 << 25)) | (v << 25),
            ;
        }
        Effects { bits }
    }

    /// The same effects with `quick_innovation_available` set to `value`.
    pub fn with_quick_innovation_available(self, value: bool) -> (r: Effects)
        ensures
            r.wf(),
            r@ == (EffectsView { quick_innovation_available: value, ..self@ }),
    {
        let v: u32 = if value {
            1
        } else {
            0
        };
        let old_bits = self.bits;
        let bits = (old_bits & !(1u32 << 26)) | (v << 26);
        proof {
            use_type_invariant(self);
            assert({
                &&& (bits >> 26) & 1 == v
                &&& bits & 0xF == old_bits & 0xF
                &&& (bits >> 4) & 0xF == (old_bits >> 4) & 0xF
                &&& (bits >> 8) & 0x7 == (old_bits >> 8) & 0x7
                &&& (bits >> 11) & 0x7 == (old_bits >> 11) & 0x7
                &&& (bits >> 14) & 0x3 == (old_bits >> 14) & 0x3
                &&& (bits >> 16) & 0x7 == (old_bits >> 16) & 0x7
                &&& (bits >> 19) & 0xF == (old_bits >> 19) & 0xF
                &&& (bits >> 23) & 1 == (old_bits >> 23) & 1
                &&& (bits >> 24) & 1 == (old_bits >> 24) & 1
                &&& (bits >> 25) & 1 == (old_bits >> 25) & 1
                &&& (bits >> 27) & 1 == (old_bits >> 27) & 1
                &&& (bits >> 28) & 1 == (old_bits >> 28) & 1
                &&& (bits >> 29) & 0x7 == (old_bits >> 29) & 0x7
            }) by (bit_vector)
                requires
                    v <= 1,
                    bits == (old_bits & !(1u32 << 26)) | (v << 26),
            ;
        }
        Effects { bits }
    }

    /// The same effects with `adversarial_guard` set to `value`.
    pub fn with_adversarial_guard(self, value: bool) -> (r: Effects)
        ensures
            r.wf(),
            r@ == (EffectsView { adversarial_guard: value, ..self@ }),
    {
        let v: u32 = if value {
            1
        } else {
            0
        };
        let old_bits = self.bits;
        let bits = (old_bits & !(1u32 << 27)) | (v << 27);
        proof {
            use_type_invariant(self);
            assert({
                &&& (bits >> 27) & 1 == v
                &&& bits & 0xF == old_bits & 0xF
                &&& (bits >> 4) & 0xF == (old_bits >> 4) & 0xF
                &&& (bits >> 8) & 0x7 == (old_bits >> 8) & 0x7
                &&& (bits >> 11) & 0x7 == (old_bits >> 11) & 0x7
                &&& (bits >> 14) & 0x3 == (old_bits >> 14) & 0x3
                &&& (bits >> 16) & 0x7 == (old_bits >> 16) & 0x7
                &&& (bits >> 19) & 0xF == (old_bits >> 19) & 0xF
                &&& (bits >> 23) & 1 == (old_bits >> 23) & 1
                &&& (bits >> 24) & 1 == (old_bits >> 24) & 1
                &&& (bits >> 25) & 1 == (old_bits >> 25) & 1
                &&& (bits >> 26) & 1 == (old_bits >> 26) & 1
                &&& (bits >> 28) & 1 == (old_bits >> 28) & 1
                &&& (bits >> 29) & 0x7 == (old_bits >> 29) & 0x7
            }) by (bit_vector)
                requires
                    v <= 1,
                    bits == (old_bits & !(1u32 << 27)) | (v << 27),
            ;
        }
        Effects { bits }
    }

    /// The same effects with `allow_quality_actions` set to `value`.
    pub fn with_allow_quality_actions(self, value: bool) -> (r: Effects)
        ensures
            r.wf(),
            r@ == (EffectsView { allow_quality_actions: value, ..self@ }),
    {
        let v: u32 = if value {
            1
        } else {
            0
        };
        let old_bits = self.bits;
        let bits = (old_bits & !(1u32 << 28)) | (v << 28);
        proof {
            use_type_invariant(self);
            assert({
                &&& (bits >> 28) & 1 == v
                &&& bits & 0xF == old_bits & 0xF
                &&& (bits >> 4) & 0xF == (old_bits >> 4) & 0xF
                &&& (bits >> 8) & 0x7 == (old_bits >> 8) & 0x7
                &&& (bits >> 11) & 0x7 == (old_bits >> 11) & 0x7
                &&& (bits >> 14) & 0x3 == (old_bits >> 14) & 0x3
                &&& (bits >> 16) & 0x7 == (old_bits >> 16) & 0x7
                &&& (bits >> 19) & 0xF == (old_bits >> 19) & 0xF
                &&& (bits >> 23) & 1 == (old_bits >> 23) & 1
                &&& (bits >> 24) & 1 == (old_bits >> 24) & 1
                &&& (bits >> 25) & 1 == (old_bits >> 25) & 1
                &&& (bits >> 26) & 1 == (old_bits >> 26) & 1
                &&& (bits >> 27) & 1 == (old_bits >> 27) & 1
                &&& (bits >> 29) & 0x7 == (old_bits >> 29) & 0x7
            }) by (bit_vector)
                requires
                    v <= 1,
                    bits == (old_bits & !(1u32 << 28)) | (v << 28),
            ;
        }
        Effects { bits }
    }

    /// The same effects with the combo tag set to `combo`.
    pub fn with_combo(self, combo: Combo) -> (r: Effects)
        ensures
            r.wf(),
            r@ == (EffectsView { combo: combo, ..self@ }),
    {
        let v: u32 = match combo {
            Combo::NoCombo => 0,
            Combo::SynthesisBegin => 1,
            Combo::BasicTouch => 2,
            Combo::StandardTouch => 3,
            Combo::Other => 4,
        };
        let old_bits = self.bits;
        let bits = (old_bits & !(0x7u32 << 29)) | (v << 29);
        proof {
            use_type_invariant(self);
            assert({
                &&& (bits >> 29) & 0x7 == v
                &&& bits & 0xF == old_bits & 0xF
                &&& (bits >> 4) & 0xF == (old_bits >> 4) & 0xF
                &&& (bits >> 8) & 0x7 == (old_bits >> 8) & 0x7
                &&& (bits >> 11) & 0x7 == (old_bits >> 11) & 0x7
                &&& (bits >> 14) & 0x3 == (old_bits >> 14) & 0x3
                &&& (bits >> 16) & 0x7 == (old_bits >> 16) & 0x7
                &&& (bits >> 19) & 0xF == (old_bits >> 19) & 0xF
                &&& (bits >> 23) & 1 == (old_bits >> 23) & 1
                &&& (bits >> 24) & 1 == (old_bits >> 24) & 1
                &&& (bits >> 25) & 1 == (old_bits >> 25) & 1
                &&& (bits >> 26) & 1 == (old_bits >> 26) & 1
                &&& (bits >> 27) & 1 == (old_bits >> 27) & 1
                &&& (bits >> 28) & 1 == (old_bits >> 28) & 1
            }) by (bit_vector)
                requires
                    v <= 4,
                    bits == (old_bits & !(0x7u32 << 29)) | (v << 29),
            ;
        }
        Effects { bits }
    }

    /// Sets the remaining turns of Muscle Memory in place.
    pub fn set_muscle_memory(&mut self, value: u8)
        ensures
            final(self).wf(),
            final(self)@ == (EffectsView { muscle_memory: min_nat(value as nat, 7), ..old(self)@ }),
    {
        *self = self.with_muscle_memory(value);
    }
}

/// Two values with the same fields are the same value: the packing is canonical.
pub proof fn lemma_view_determines_bits(a: Effects, b: Effects)
    requires
        a@ == b@,
        a.wf(),
        b.wf(),
    ensures
        a == b,
{
    let x = a.bits;
    let y = b.bits;
    assert((x >> 29) & 0x7 == (y >> 29) & 0x7);
    assert(forall|w: u32, k: u32| (w >> k) & 1 == 0 || #[trigger] ((w >> k) & 1) == 1) by (bit_vector);
    assert(x == y) by (bit_vector)
        requires
            x & 0xF == y & 0xF,
            (x >> 4) & 0xF == (y >> 4) & 0xF,
            (x >> 8) & 0x7 == (y >> 8) & 0x7,
            (x >> 11) & 0x7 == (y >> 11) & 0x7,
            (x >> 14) & 0x3 == (y >> 14) & 0x3,
            (x >> 16) & 0x7 == (y >> 16) & 0x7,
            (x >> 19) & 0xF == (y >> 19) & 0xF,
            (x >> 23) & 1 == (y >> 23) & 1,
            (x >> 24) & 1 == (y >> 24) & 1,
            (x >> 25) & 1 == (y >> 25) & 1,
            (x >> 26) & 1 == (y >> 26) & 1,
            (x >> 27) & 1 == (y >> 27) & 1,
            (x >> 28) & 1 == (y >> 28) & 1,
            (x >> 29) & 0x7 == (y >> 29) & 0x7,
    ;
}

/// The fields of a value are those that its bits hold, and a value is well
/// formed if its bits hold ten Inner Quiet stacks at most and the code of a
/// combo tag.
pub proof fn lemma_bits_layout(e: Effects)
    ensures
        e@ == view_of_bits(e.bits()),
        e.wf() <==> e.bits() & 0xF <= 10 && (e.bits() >> 29) & 0x7 <= 4,
{
}

/// The effects that say `v`.
pub open spec fn effects_of(v: EffectsView) -> Effects {
    choose|e: Effects| e.wf() && e@ == v
}

/// `effects_of` gives a well-formed value back from what it says.
pub proof fn lemma_effects_of(e: Effects)
    requires
        e.wf(),
    ensures
        effects_of(e@) == e,
{
    let found = effects_of(e@);
    assert(found.wf() && found@ == e@);
    lemma_view_determines_bits(found, e);
}

/// Some well-formed value has the guard off and no combo tag, and says what `e`
/// says otherwise.
pub proof fn lemma_reduced_exists(e: Effects)
    requires
        e.wf(),
    ensures
        ({
            let v = EffectsView { adversarial_guard: false, combo: Combo::NoCombo, ..e@ };
            &&& effects_of(v).wf()
            &&& effects_of(v)@ == v
        }),
{
    let v = EffectsView { adversarial_guard: false, combo: Combo::NoCombo, ..e@ };
    let old_bits = e.bits;
    let bits = old_bits & !(1u32 << 27) & !(0x7u32 << 29);
    assert({
        &&& (bits >> 27) & 1 == 0
        &&& (bits >> 29) & 0x7 == 0
        &&& bits & 0xF == old_bits & 0xF
        &&& (bits >> 4) & 0xF == (old_bits >> 4) & 0xF
        &&& (bits >> 8) & 0x7 == (old_bits >> 8) & 0x7
        &&& (bits >> 11) & 0x7 == (old_bits >> 11) & 0x7
        &&& (bits >> 14) & 0x3 == (old_bits >> 14) & 0x3
        &&& (bits >> 16) & 0x7 == (old_bits >> 16) & 0x7
        &&& (bits >> 19) & 0xF == (old_bits >> 19) & 0xF
        &&& (bits >> 23) & 1 == (old_bits >> 23) & 1
        &&& (bits >> 24) & 1 == (old_bits >> 24) & 1
        &&& (bits >> 25) & 1 == (old_bits >> 25) & 1
        &&& (bits >> 26) & 1 == (old_bits >> 26) & 1
        &&& (bits >> 28) & 1 == (old_bits >> 28) & 1
    }) by (bit_vector)
        requires
            bits == old_bits & !(1u32 << 27) & !(0x7u32 << 29),
    ;
    let r = Effects { bits };
    assert(r.wf() && r@ == v);
}

/// Some well-formed value has no Muscle Memory and says what `e` says
/// otherwise.
pub proof fn lemma_muscle_memory_cleared_exists(e: Effects)
    requires
        e.wf(),
    ensures
        ({
            let v = EffectsView { muscle_memory: 0, ..e@ };
            &&& effects_of(v).wf()
            &&& effects_of(v)@ == v
        }),
{
    let v = EffectsView { muscle_memory: 0, ..e@ };
    let old_bits = e.bits;
    let bits = old_bits & !(0x7u32 << 16);
    assert({
        &&& (bits >> 16) & 0x7 == 0
        &&& (bits >> 27) & 1 == (old_bits >> 27) & 1
        &&& (bits >> 29) & 0x7 == (old_bits >> 29) & 0x7
        &&& bits & 0xF == old_bits & 0xF
        &&& (bits >> 4) & 0xF == (old_bits >> 4) & 0xF
        &&& (bits >> 8) & 0x7 == (old_bits >> 8) & 0x7
        &&& (bits >> 11) & 0x7 == (old_bits >> 11) & 0x7
        &&& (bits >> 14) & 0x3 == (old_bits >> 14) & 0x3
        &&& (bits >> 19) & 0xF == (old_bits >> 19) & 0xF
        &&& (bits >> 23) & 1 == (old_bits >> 23) & 1
        &&& (bits >> 24) & 1 == (old_bits >> 24) & 1
        &&& (bits >> 25) & 1 == (old_bits >> 25) & 1
        &&& (bits >> 26) & 1 == (old_bits >> 26) & 1
        &&& (bits >> 28) & 1 == (old_bits >> 28) & 1
    }) by (bit_vector)
        requires
            bits == old_bits & !(0x7u32 << 16),
    ;
    let r = Effects { bits };
    assert(r.wf() && r@ == v);
}

/// Two values with the same bits are the same value.
pub proof fn lemma_bits_determine_effects(a: Effects, b: Effects)
    requires
        a.bits() == b.bits(),
    ensures
        a == b,
{
}

} // verus!
