use run_info::printutils::{format_gib, pad_string};
use run_info::settings::{Mode, Settings};

#[test]
fn pad_string_extends_to_the_requested_width() {
    assert_eq!(pad_string(String::from("ab"), 5), "ab   ");
    assert_eq!(pad_string(String::new(), 3), "   ");
}

#[test]
fn pad_string_leaves_long_strings_alone() {
    assert_eq!(pad_string(String::from("abcdef"), 3), "abcdef");
    assert_eq!(pad_string(String::from("abc"), 3), "abc");
}

#[test]
fn format_gib_shows_whole_gibibytes_without_a_decimal() {
    assert_eq!(format_gib(0), "0");
    assert_eq!(format_gib(1 << 30), "1");
    assert_eq!(format_gib(15 * (1 << 30)), "15");
}

#[test]
fn format_gib_truncates_to_one_decimal_digit() {
    assert_eq!(format_gib(3 * (1 << 29)), "1.5");
    assert_eq!(format_gib((1 << 30) + 1), "1.0");
    assert_eq!(format_gib((1 << 30) - 1), "0.9");
    // 5.5 GiB exactly.
    assert_eq!(format_gib(5905580032), "5.5");
}

#[test]
fn settings_carry_the_chosen_options() {
    let settings = Settings { delay: 1500, enable_color: true, enable_graph: false, mode: Mode::Log };
    assert_eq!(settings.delay, 1500);
    assert!(settings.enable_color);
    assert!(!settings.enable_graph);
    assert_eq!(settings.mode, Mode::Log);
    assert_ne!(Mode::Normal, Mode::Small);
}
