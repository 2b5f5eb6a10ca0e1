use step_lb_solver::effects::{Combo, Effects};

#[test]
fn new_effects_are_all_zero() {
    let effects = Effects::new();
    assert_eq!(effects.into_bits(), 0);
    assert_eq!(effects.inner_quiet(), 0);
    assert_eq!(effects.waste_not(), 0);
    assert_eq!(effects.innovation(), 0);
    assert_eq!(effects.veneration(), 0);
    assert_eq!(effects.great_strides(), 0);
    assert_eq!(effects.muscle_memory(), 0);
    assert_eq!(effects.manipulation(), 0);
    assert!(!effects.trained_perfection_available());
    assert!(!effects.heart_and_soul_available());
    assert!(!effects.heart_and_soul_active());
    assert!(!effects.quick_innovation_available());
    assert!(!effects.adversarial_guard());
    assert!(!effects.allow_quality_actions());
    assert_eq!(effects.combo(), Combo::NoCombo);
}

#[test]
fn each_field_keeps_its_value_beside_the_others() {
    let effects = Effects::new()
        .with_inner_quiet(10)
        .with_waste_not(8)
        .with_innovation(4)
        .with_veneration(3)
        .with_great_strides(2)
        .with_muscle_memory(5)
        .with_manipulation(9)
        .with_trained_perfection_available(true)
        .with_heart_and_soul_available(false)
        .with_heart_and_soul_active(true)
        .with_quick_innovation_available(false)
        .with_adversarial_guard(true)
        .with_allow_quality_actions(true)
        .with_combo(Combo::StandardTouch);
    assert_eq!(effects.inner_quiet(), 10);
    assert_eq!(effects.waste_not(), 8);
    assert_eq!(effects.innovation(), 4);
    assert_eq!(effects.veneration(), 3);
    assert_eq!(effects.great_strides(), 2);
    assert_eq!(effects.muscle_memory(), 5);
    assert_eq!(effects.manipulation(), 9);
    assert!(effects.trained_perfection_available());
    assert!(!effects.heart_and_soul_available());
    assert!(effects.heart_and_soul_active());
    assert!(!effects.quick_innovation_available());
    assert!(effects.adversarial_guard());
    assert!(effects.allow_quality_actions());
    assert_eq!(effects.combo(), Combo::StandardTouch);

    let changed = effects.with_veneration(0).with_heart_and_soul_active(false);
    assert_eq!(changed.veneration(), 0);
    assert!(!changed.heart_and_soul_active());
    assert_eq!(changed.innovation(), 4);
    assert_eq!(changed.great_strides(), 2);
    assert_eq!(changed.inner_quiet(), 10);
    assert!(changed.adversarial_guard());
    assert_eq!(changed.combo(), Combo::StandardTouch);
}

#[test]
fn a_value_beyond_its_field_is_cut_off() {
    let effects = Effects::new();
    assert_eq!(effects.with_inner_quiet(11).inner_quiet(), 10);
    assert_eq!(effects.with_inner_quiet(255).inner_quiet(), 10);
    assert_eq!(effects.with_waste_not(16).waste_not(), 15);
    assert_eq!(effects.with_innovation(8).innovation(), 7);
    assert_eq!(effects.with_veneration(200).veneration(), 7);
    assert_eq!(effects.with_great_strides(4).great_strides(), 3);
    assert_eq!(effects.with_muscle_memory(9).muscle_memory(), 7);
    assert_eq!(effects.with_manipulation(99).manipulation(), 15);
    // Nothing spills into the neighbours.
    assert_eq!(effects.with_inner_quiet(255).waste_not(), 0);
    assert_eq!(effects.with_manipulation(255).trained_perfection_available(), false);
}

#[test]
fn the_bits_are_laid_out_from_the_lowest_up() {
    assert_eq!(Effects::new().with_inner_quiet(1).into_bits(), 1);
    assert_eq!(Effects::new().with_waste_not(1).into_bits(), 1 << 4);
    assert_eq!(Effects::new().with_innovation(1).into_bits(), 1 << 8);
    assert_eq!(Effects::new().with_veneration(1).into_bits(), 1 << 11);
    assert_eq!(Effects::new().with_great_strides(1).into_bits(), 1 << 14);
    assert_eq!(Effects::new().with_muscle_memory(1).into_bits(), 1 << 16);
    assert_eq!(Effects::new().with_manipulation(1).into_bits(), 1 << 19);
    assert_eq!(Effects::new().with_trained_perfection_available(true).into_bits(), 1 << 23);
    assert_eq!(Effects::new().with_heart_and_soul_available(true).into_bits(), 1 << 24);
    assert_eq!(Effects::new().with_heart_and_soul_active(true).into_bits(), 1 << 25);
    assert_eq!(Effects::new().with_quick_innovation_available(true).into_bits(), 1 << 26);
    assert_eq!(Effects::new().with_adversarial_guard(true).into_bits(), 1 << 27);
    assert_eq!(Effects::new().with_allow_quality_actions(true).into_bits(), 1 << 28);
    assert_eq!(Effects::new().with_combo(Combo::SynthesisBegin).into_bits(), 1 << 29);
    assert_eq!(Effects::new().with_combo(Combo::BasicTouch).into_bits(), 2 << 29);
    assert_eq!(Effects::new().with_combo(Combo::StandardTouch).into_bits(), 3 << 29);
    assert_eq!(Effects::new().with_combo(Combo::Other).into_bits(), 4 << 29);
}

#[test]
fn equal_fields_give_equal_values() {
    let a = Effects::new().with_veneration(3).with_inner_quiet(2).with_combo(Combo::Other);
    let b = Effects::new()
        .with_combo(Combo::BasicTouch)
        .with_inner_quiet(7)
        .with_veneration(3)
        .with_combo(Combo::Other)
        .with_inner_quiet(2);
    assert_eq!(a, b);
    assert_eq!(a.into_bits(), b.into_bits());
    assert_ne!(a, a.with_inner_quiet(3));
    // A field that runs out is zero again, whatever it was before.
    assert_eq!(a.with_veneration(0), Effects::new().with_inner_quiet(2).with_combo(Combo::Other));
}

#[test]
fn set_muscle_memory_changes_in_place() {
    let mut effects = Effects::new().with_muscle_memory(5).with_veneration(2);
    effects.set_muscle_memory(0);
    assert_eq!(effects, Effects::new().with_veneration(2));
    effects.set_muscle_memory(100);
    assert_eq!(effects.muscle_memory(), 7);
    assert_eq!(effects.veneration(), 2);
}

#[test]
fn every_combo_tag_comes_back() {
    for combo in [
        Combo::NoCombo,
        Combo::SynthesisBegin,
        Combo::BasicTouch,
        Combo::StandardTouch,
        Combo::Other,
    ] {
        let effects = Effects::new().with_allow_quality_actions(true).with_combo(combo);
        assert_eq!(effects.combo(), combo);
        assert!(effects.allow_quality_actions());
    }
}
