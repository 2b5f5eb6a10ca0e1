use step_lb_solver::pareto::{clamp_value, merge_fronts, shift_value, ParetoFrontBuilder, ParetoValue};

fn points(pairs: &[(u32, u32)]) -> Vec<ParetoValue> {
    pairs.iter().map(|(progress, quality)| ParetoValue::new(*progress, *quality)).collect()
}

#[test]
fn new_builder_is_empty() {
    let builder = ParetoFrontBuilder::new(100, 100);
    assert_eq!(builder.peek(), None);
}

#[test]
fn push_empty_pushes_the_origin() {
    let mut builder = ParetoFrontBuilder::new(100, 100);
    builder.push_empty();
    assert_eq!(builder.peek(), Some(&points(&[(0, 0)])));
}

#[test]
fn push_slice_copies_the_points() {
    let mut builder = ParetoFrontBuilder::new(100, 100);
    let front = points(&[(10, 30), (20, 20), (30, 10)]);
    builder.push_empty();
    builder.push_slice(&front);
    assert_eq!(builder.peek(), Some(&front));
}

#[test]
fn peek_mut_changes_the_list_on_top() {
    let mut builder = ParetoFrontBuilder::new(100, 100);
    builder.push_slice(&points(&[(1, 9)]));
    builder.push_slice(&points(&[(10, 30), (20, 20)]));
    for value in builder.peek_mut().iter_mut() {
        value.progress += 5;
        value.quality += 1;
    }
    builder.peek_mut().push(ParetoValue::new(40, 2));
    assert_eq!(builder.peek(), Some(&points(&[(15, 31), (25, 21), (40, 2)])));
    builder.merge();
    assert_eq!(builder.peek(), Some(&points(&[(15, 31), (25, 21), (40, 2)])));
}

#[test]
fn clear_empties_the_stack() {
    let mut builder = ParetoFrontBuilder::new(100, 100);
    builder.push_empty();
    builder.push_slice(&points(&[(1, 1)]));
    builder.clear();
    assert_eq!(builder.peek(), None);
    builder.push_empty();
    assert_eq!(builder.peek(), Some(&points(&[(0, 0)])));
}

#[test]
fn shift_top_moves_every_point_of_the_top_only() {
    let mut builder = ParetoFrontBuilder::new(1000, 1000);
    builder.push_slice(&points(&[(5, 5)]));
    builder.push_slice(&points(&[(10, 30), (20, 20), (30, 10)]));
    builder.shift_top(7, 100);
    assert_eq!(builder.peek(), Some(&points(&[(17, 130), (27, 120), (37, 110)])));
    builder.merge();
    assert_eq!(builder.peek(), Some(&points(&[(17, 130), (27, 120), (37, 110)])));
}

#[test]
fn shift_top_stops_at_the_limits() {
    let mut builder = ParetoFrontBuilder::new(100, 50);
    builder.push_slice(&points(&[(10, 30), (20, 20), (95, 10)]));
    builder.shift_top(20, 25);
    assert_eq!(builder.peek(), Some(&points(&[(30, 50), (40, 45), (100, 35)])));
    builder.shift_top(u32::MAX, u32::MAX);
    assert_eq!(builder.peek(), Some(&points(&[(100, 50), (100, 50), (100, 50)])));
}

#[test]
fn merge_keeps_the_points_that_nothing_dominates() {
    let mut builder = ParetoFrontBuilder::new(1000, 1000);
    builder.push_slice(&points(&[(10, 90), (30, 60), (50, 20)]));
    builder.push_slice(&points(&[(20, 70), (30, 50), (60, 10)]));
    builder.merge();
    assert_eq!(
        builder.peek(),
        Some(&points(&[(10, 90), (20, 70), (30, 60), (50, 20), (60, 10)]))
    );
}

#[test]
fn merge_drops_equal_and_dominated_points() {
    let mut builder = ParetoFrontBuilder::new(1000, 1000);
    builder.push_slice(&points(&[(10, 10), (20, 5)]));
    builder.push_slice(&points(&[(10, 10), (20, 20)]));
    builder.merge();
    assert_eq!(builder.peek(), Some(&points(&[(20, 20)])));
}

#[test]
fn merge_cuts_off_at_the_limits_before_it_prunes() {
    let mut builder = ParetoFrontBuilder::new(100, 50);
    // Beyond the limits the two points of the first list are one point.
    builder.push_slice(&points(&[(110, 70), (120, 60)]));
    builder.push_slice(&points(&[(90, 50), (100, 40)]));
    builder.merge();
    assert_eq!(builder.peek(), Some(&points(&[(100, 50)])));
}

#[test]
fn merge_leaves_the_rest_of_the_stack() {
    let mut builder = ParetoFrontBuilder::new(100, 100);
    builder.push_slice(&points(&[(1, 1)]));
    builder.push_slice(&points(&[(2, 2)]));
    builder.push_slice(&points(&[(3, 1)]));
    builder.merge();
    assert_eq!(builder.peek(), Some(&points(&[(2, 2), (3, 1)])));
    builder.merge();
    assert_eq!(builder.peek(), Some(&points(&[(2, 2), (3, 1)])));
}

#[test]
fn merge_with_the_origin_keeps_a_front() {
    let mut builder = ParetoFrontBuilder::new(100, 100);
    builder.push_empty();
    builder.push_slice(&points(&[(0, 30), (40, 0)]));
    builder.merge();
    assert_eq!(builder.peek(), Some(&points(&[(0, 30), (40, 0)])));
}

#[test]
fn merge_fronts_takes_lists_in_rising_progress() {
    // The lists need not be fronts: equal progress and rising quality are fine.
    let a = points(&[(10, 1), (10, 5), (20, 7)]);
    let b = points(&[(5, 9), (20, 3)]);
    assert_eq!(merge_fronts(&a, &b, 100, 100), points(&[(5, 9), (20, 7)]));
    assert_eq!(merge_fronts(&b, &a, 100, 100), points(&[(5, 9), (20, 7)]));
    assert_eq!(merge_fronts(&a, &Vec::new(), 100, 100), points(&[(20, 7)]));
    assert_eq!(merge_fronts(&Vec::new(), &Vec::new(), 100, 100), Vec::new());
}

#[test]
fn merged_front_rises_in_progress_and_falls_in_quality() {
    let a = points(&[(3, 40), (8, 39), (15, 22), (40, 21), (41, 2)]);
    let b = points(&[(1, 50), (9, 38), (14, 30), (39, 25), (70, 1)]);
    let merged = merge_fronts(&a, &b, 60, 45);
    for pair in merged.windows(2) {
        assert!(pair[0].progress < pair[1].progress);
        assert!(pair[0].quality > pair[1].quality);
    }
    for point in a.iter().chain(b.iter()) {
        let cut = clamp_value(*point, 60, 45);
        assert!(merged.iter().any(|m| m.progress >= cut.progress && m.quality >= cut.quality));
    }
    assert_eq!(
        merged,
        points(&[
            (1, 45),
            (3, 40),
            (8, 39),
            (9, 38),
            (14, 30),
            (39, 25),
            (40, 21),
            (41, 2),
            (60, 1)
        ])
    );
}

#[test]
fn clamp_and_shift_of_single_points() {
    assert_eq!(clamp_value(ParetoValue::new(7, 200), 10, 100), ParetoValue::new(7, 100));
    assert_eq!(clamp_value(ParetoValue::new(11, 100), 10, 100), ParetoValue::new(10, 100));
    assert_eq!(shift_value(ParetoValue::new(7, 20), 2, 3, 10, 100), ParetoValue::new(9, 23));
    assert_eq!(shift_value(ParetoValue::new(7, 20), 3, 80, 10, 100), ParetoValue::new(10, 100));
    assert_eq!(shift_value(ParetoValue::new(70, 20), 3, 0, 10, 100), ParetoValue::new(10, 20));
    assert_eq!(
        shift_value(ParetoValue::new(u32::MAX, 1), u32::MAX, u32::MAX, u32::MAX, u32::MAX),
        ParetoValue::new(u32::MAX, u32::MAX)
    );
}
