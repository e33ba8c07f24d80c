use theseus::appearance::{log_level_for_channel, AccentColor};

#[test]
fn beta_only_allows_verbose_log_levels() {
    assert_eq!(log_level_for_channel("beta", "info"), "debug");
    assert_eq!(log_level_for_channel("beta", "debug"), "debug");
    assert_eq!(log_level_for_channel("beta", "trace"), "trace");
}

#[test]
fn release_preserves_the_selected_log_level() {
    assert_eq!(log_level_for_channel("release", "error"), "error");
    assert_eq!(log_level_for_channel("release", "info"), "info");
    assert_eq!(log_level_for_channel("release", "trace"), "trace");
}

#[test]
fn beta_raises_quiet_levels_to_debug() {
    assert_eq!(log_level_for_channel("beta", "error"), "debug");
    assert_eq!(log_level_for_channel("beta", "warn"), "debug");
    assert_eq!(log_level_for_channel("Beta", "info"), "info");
}

#[test]
fn accent_color_hex_uses_upper_case_pairs() {
    let c = AccentColor::new(0, 128, 255);
    assert_eq!(c.hex, "#0080FF");
    assert_eq!((c.r, c.g, c.b), (0, 128, 255));
    assert_eq!(AccentColor::new(171, 205, 9).hex, "#ABCD09");
}
