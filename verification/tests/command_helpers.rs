use garnet::command::{
    cli_version_from_probe, finish_stderr, python_version_from_probe, run_succeeded, smoke_step_passed, text_contains,
    HEALTH_PROBE_TIMEOUT_SECS,
};

#[test]
fn cli_version_is_trimmed_or_unknown() {
    assert_eq!(cli_version_from_probe("  garnet 0.8.1\n", false), "garnet 0.8.1");
    assert_eq!(cli_version_from_probe(" \n", false), "unknown");
    assert_eq!(cli_version_from_probe("garnet 0.8.1", true), "unknown (version probe timed out after 10s)");
    assert_eq!(HEALTH_PROBE_TIMEOUT_SECS, 10);
}

#[test]
fn python_version_falls_back_to_stderr() {
    assert_eq!(python_version_from_probe("Python 3.12.1\n", ""), "Python 3.12.1");
    assert_eq!(python_version_from_probe("", "Python 2.7.18\n"), "Python 2.7.18");
    assert_eq!(python_version_from_probe("", ""), "");
}

#[test]
fn stderr_notes_a_timeout_on_its_own_line() {
    assert_eq!(finish_stderr("boom".to_string(), false, false, 30), "boom");
    assert_eq!(
        finish_stderr("partial".to_string(), true, false, 30),
        "partial\nstudio: command timed out after 30s and its process tree was terminated"
    );
    assert_eq!(
        finish_stderr("line\n".to_string(), true, false, 900),
        "line\nstudio: command timed out after 900s and its process tree was terminated"
    );
    assert_eq!(
        finish_stderr(String::new(), false, true, 5),
        "studio: failed to monitor the command; its process tree was terminated"
    );
}

#[test]
fn a_run_succeeds_only_on_a_clean_successful_exit() {
    assert!(run_succeeded(false, Some(true)));
    assert!(!run_succeeded(true, Some(true)));
    assert!(!run_succeeded(false, Some(false)));
    assert!(!run_succeeded(false, None));
}

#[test]
fn text_search_and_smoke_steps() {
    assert!(text_contains("# Garnet Studio Domain Proof Matrix\n", "Domain Proof Matrix"));
    assert!(text_contains("abc", ""));
    assert!(!text_contains("ab", "abc"));
    assert!(!text_contains("Garnet Studio", "Matrix"));
    assert!(smoke_step_passed(true, "## Garnet Converter Adoption Status", "Garnet Converter Adoption Status"));
    assert!(!smoke_step_passed(false, "## Garnet Converter Adoption Status", "Garnet Converter Adoption Status"));
    assert!(!smoke_step_passed(true, "something else", "Garnet Converter Adoption Status"));
}
