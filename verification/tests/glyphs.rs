use step_lb_solver::glyphs::{glyph_list, CharUsage};

#[test]
fn nothing_is_in_use_at_first() {
    assert_eq!(CharUsage::new().code_points(), Vec::<u32>::new());
}

#[test]
fn latin_1_and_the_higher_planes_are_left_out() {
    let mut usage = CharUsage::new();
    usage.mark_text("Az09 \u{ff}\u{e9}\u{10000}\u{1F600}");
    assert_eq!(usage.code_points(), Vec::<u32>::new());
    usage.mark('\u{100}');
    usage.mark('\u{ffff}');
    usage.mark('a');
    assert_eq!(usage.code_points(), vec![0x100, 0xffff]);
}

#[test]
fn code_points_come_once_and_in_rising_order() {
    let mut usage = CharUsage::new();
    usage.mark_text("制作 手順 abc 制作");
    usage.mark_text("≥ 手");
    assert_eq!(usage.code_points(), vec![0x2265, 0x4f5c, 0x5236, 0x624b, 0x9806]);
    usage.mark_text("");
    assert_eq!(usage.code_points().len(), 5);
}

#[test]
fn glyph_list_is_sorted_without_repeats_and_holds_glyph_zero() {
    assert_eq!(glyph_list(&Vec::new()), vec![0]);
    assert_eq!(glyph_list(&vec![7, 3, 7, 65535, 3, 12]), vec![0, 3, 7, 12, 65535]);
    assert_eq!(glyph_list(&vec![0, 0, 1]), vec![0, 1]);
}
