use standby::commands::sleep::SleepArgs;
use standby::debug::{debug_line, init_verbose, is_verbose, VerboseMode};

#[test]
fn test_parse_sleep_args() {
    let args = SleepArgs {
        duration: "5".to_string(),
    };
    assert_eq!(args.duration, "5");
}

#[test]
fn test_verbose_mode_disabled() {
    let mut mode = VerboseMode::new();
    init_verbose(&mut mode, false);
    // This should not produce output
    assert_eq!(debug_line(&mode, "This should not be printed"), None);
}

#[test]
fn test_verbose_mode_enabled() {
    let mut mode = VerboseMode::new();
    init_verbose(&mut mode, true);
    // This would print to stderr
    assert!(is_verbose(&mode));
    assert_eq!(
        debug_line(&mode, "This should be printed if verbose"),
        Some("[standby] This should be printed if verbose".to_string())
    );
}

#[test]
fn first_initialization_wins() {
    let mut mode = VerboseMode::new();
    assert!(!is_verbose(&mode));
    init_verbose(&mut mode, true);
    init_verbose(&mut mode, false);
    assert!(is_verbose(&mode));
}
