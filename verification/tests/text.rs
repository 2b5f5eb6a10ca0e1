use step_lb_solver::text::{append_decimal, decimal_len, progress_bar_text};

#[test]
fn value_stands_in_a_column_of_five() {
    assert_eq!(progress_bar_text(0, 100, None, 0, ""), "    0 / 100");
    assert_eq!(progress_bar_text(30, 100, None, 0, ""), "   30 / 100");
    assert_eq!(progress_bar_text(1234, 5000, None, 0, ""), " 1234 / 5000");
    assert_eq!(progress_bar_text(12345, 5000, None, 0, ""), "12345 / 5000");
    assert_eq!(progress_bar_text(123456, 7, None, 0, ""), "123456 / 7");
    assert_eq!(progress_bar_text(u32::MAX, u32::MAX, None, 0, "x"), "4294967295 / 4294967295");
}

#[test]
fn a_sufficient_stat_is_named() {
    assert_eq!(
        progress_bar_text(120, 3500, Some(3000), 2500, "Craftsmanship"),
        "  120 / 3500 (Craftsmanship ≥3000)"
    );
    assert_eq!(
        progress_bar_text(120, 3500, Some(2500), 2500, "Control"),
        "  120 / 3500 (Control ≥2500)"
    );
    assert_eq!(progress_bar_text(7, 8, Some(0), 0, ""), "    7 / 8 ( ≥0)");
}

#[test]
fn a_stat_below_the_requirement_is_theoretical() {
    assert_eq!(
        progress_bar_text(120, 3500, Some(2499), 2500, "Control"),
        "  120 / 3500 (Control ≥2499 theoretically, recipe requires 2500)"
    );
    assert_eq!(
        progress_bar_text(0, 0, Some(0), u16::MAX, "CP"),
        "    0 / 0 (CP ≥0 theoretically, recipe requires 65535)"
    );
}

#[test]
fn decimal_digits_of_numbers() {
    for n in [0u32, 7, 9, 10, 11, 99, 100, 101, 4096, 65535, 1_000_000, u32::MAX] {
        let mut text = String::from("n=");
        let count = append_decimal(&mut text, n);
        assert_eq!(text, format!("n={}", n));
        assert_eq!(count, n.to_string().len());
        assert_eq!(decimal_len(n), count);
    }
}
