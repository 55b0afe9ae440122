use garnet::settings::{
    StudioSettings, COMMAND_TIMEOUT_DEFAULT, COMMAND_TIMEOUT_MIN, MATRIX_TIMEOUT_DEFAULT,
    MATRIX_TIMEOUT_MAX,
};

#[test]
fn defaults_are_simple_dark_with_sane_timeouts() {
    let settings = StudioSettings::default();
    assert_eq!(settings.mode, "simple");
    assert_eq!(settings.theme, "dark");
    assert_eq!(settings.command_timeout_secs, COMMAND_TIMEOUT_DEFAULT);
    assert_eq!(settings.matrix_timeout_secs, MATRIX_TIMEOUT_DEFAULT);
}

#[test]
fn normalization_clamps_timeouts_and_rejects_unknown_modes() {
    let settings = StudioSettings {
        mode: "ULTRA".to_string(),
        theme: "neon".to_string(),
        command_timeout_secs: 1,
        matrix_timeout_secs: u64::MAX,
    }
    .normalized();
    assert_eq!(settings.mode, "simple");
    assert_eq!(settings.theme, "dark");
    assert_eq!(settings.command_timeout_secs, COMMAND_TIMEOUT_MIN);
    assert_eq!(settings.matrix_timeout_secs, MATRIX_TIMEOUT_MAX);
}

#[test]
fn normalization_accepts_known_values_case_insensitively() {
    let settings = StudioSettings {
        mode: " Power ".to_string(),
        theme: "SYSTEM".to_string(),
        command_timeout_secs: 600,
        matrix_timeout_secs: 7200,
    }
    .normalized();
    assert_eq!(settings.mode, "power");
    assert_eq!(settings.theme, "system");
    assert_eq!(settings.command_timeout_secs, 600);
    assert_eq!(settings.matrix_timeout_secs, 7200);
}

#[test]
fn normalizing_twice_changes_nothing_more() {
    let once = StudioSettings {
        mode: "\tPOWER\n".to_string(),
        theme: " Light".to_string(),
        command_timeout_secs: 99_999,
        matrix_timeout_secs: 0,
    }
    .normalized();
    let twice = once.clone().normalized();
    assert_eq!(once.mode, "power");
    assert_eq!(once.theme, "light");
    assert_eq!(once.command_timeout_secs, 14_400);
    assert_eq!(once.matrix_timeout_secs, 60);
    assert_eq!(twice.mode, once.mode);
    assert_eq!(twice.theme, once.theme);
    assert_eq!(twice.command_timeout_secs, once.command_timeout_secs);
    assert_eq!(twice.matrix_timeout_secs, once.matrix_timeout_secs);
}
