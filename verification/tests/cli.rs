use tt::cli::{action_from_args, is_clear_args, Cli, CliAction, Command};
use tt::config::ConfigAction;

fn args(strs: &[&str]) -> Vec<String> {
    strs.iter().map(|s| s.to_string()).collect()
}

fn secs(ms: i64) -> f64 {
    ms as f64 / 1000.0
}

/// The command line `tt <words...>` as the argument parser hands it over:
/// words after `tt` that are not a subcommand become the timer arguments,
/// and the global `--test` flag is taken out wherever it stands.
fn cli(words: &[&str]) -> Cli {
    let test = words.contains(&"--test");
    let rest: Vec<String> = words
        .iter()
        .filter(|w| **w != "--test")
        .map(|w| w.to_string())
        .collect();
    Cli {
        test,
        command: if rest.is_empty() {
            None
        } else {
            Some(Command::Timer(rest))
        },
    }
}

#[test]
fn no_args_resumes() {
    assert!(matches!(action_from_args(&[]), CliAction::Resume));
}

#[test]
fn clear_word_alone_clears() {
    // `tt clear` (and the `reset` alias) — the word on its own — clears data.
    assert!(matches!(cli(&["clear"]).action(), CliAction::Clear));
    assert!(matches!(cli(&["reset"]).action(), CliAction::Clear));
    // Case-insensitive, matching the in-app command aliases.
    assert!(matches!(cli(&["CLEAR"]).action(), CliAction::Clear));
}

#[test]
fn clear_with_extra_args_is_a_timer_name() {
    assert!(
        matches!(cli(&["clear", "something"]).action(), CliAction::NameOnly(ref n) if n == "clear something")
    );
}

#[test]
fn clear_honors_global_test_flag() {
    let c = cli(&["--test", "clear"]);
    assert!(c.test);
    assert!(matches!(c.action(), CliAction::Clear));
}

#[test]
fn duration_first_with_name() {
    if let CliAction::NewTimer(ms, name) = action_from_args(&args(&["5m", "standup"])) {
        assert_eq!(secs(ms), 300.0);
        assert_eq!(name, "standup");
    } else {
        panic!("expected NewTimer");
    }
}

#[test]
fn duration_first_long_name() {
    if let CliAction::NewTimer(ms, name) =
        action_from_args(&args(&["10m", "weekly", "standup", "meeting"]))
    {
        assert_eq!(secs(ms), 600.0);
        assert_eq!(name, "weekly standup meeting");
    } else {
        panic!("expected NewTimer");
    }
}

#[test]
fn duration_last_with_name() {
    if let CliAction::NewTimer(ms, name) = action_from_args(&args(&["some", "long", "name", "4s"])) {
        assert_eq!(secs(ms), 4.0);
        assert_eq!(name, "some long name");
    } else {
        panic!("expected NewTimer with time at end");
    }
}

#[test]
fn duration_last_hours() {
    if let CliAction::NewTimer(ms, name) = action_from_args(&args(&["deep", "work", "1.5h"])) {
        assert!((secs(ms) - 5400.0).abs() < 0.01);
        assert_eq!(name, "deep work");
    } else {
        panic!("expected NewTimer");
    }
}

#[test]
fn duration_only_prompts_for_name() {
    if let CliAction::DurationOnly(ms) = action_from_args(&args(&["5m"])) {
        assert_eq!(secs(ms), 300.0);
    } else {
        panic!("expected DurationOnly");
    }
}

#[test]
fn plain_number_duration() {
    if let CliAction::DurationOnly(ms) = action_from_args(&args(&["5"])) {
        assert_eq!(secs(ms), 300.0);
    } else {
        panic!("expected DurationOnly");
    }
}

#[test]
fn name_only_prompts_for_time() {
    if let CliAction::NameOnly(name) = action_from_args(&args(&["meeting"])) {
        assert_eq!(name, "meeting");
    } else {
        panic!("expected NameOnly");
    }
}

#[test]
fn multi_word_name_no_duration() {
    if let CliAction::NameOnly(name) = action_from_args(&args(&["my", "cool", "task"])) {
        assert_eq!(name, "my cool task");
    } else {
        panic!("expected NameOnly");
    }
}

#[test]
fn ambiguous_prefers_first_as_duration() {
    if let CliAction::NewTimer(ms, name) = action_from_args(&args(&["5", "2m"])) {
        assert_eq!(secs(ms), 300.0);
        assert_eq!(name, "2m");
    } else {
        panic!("expected NewTimer with first arg as duration");
    }
}

#[test]
fn parses_timer_args() {
    let c = cli(&["5m", "meeting"]);
    assert!(!c.test);
    assert!(matches!(c.command, Some(Command::Timer(_))));
    assert!(
        matches!(c.action(), CliAction::NewTimer(ms, ref name) if secs(ms) == 300.0 && name == "meeting")
    );
}

#[test]
fn test_flag_is_global_and_args_still_parse() {
    let c = cli(&["--test", "5m", "standup"]);
    assert!(c.test);
    assert!(
        matches!(c.action(), CliAction::NewTimer(ms, ref name) if secs(ms) == 300.0 && name == "standup")
    );
}

#[test]
fn no_command_resumes() {
    let c = cli(&[]);
    assert!(c.command.is_none());
    assert!(matches!(c.action(), CliAction::Resume));
}

// --- further cases ------------------------------------------------------------

#[test]
fn config_subcommand_is_not_a_timer_action() {
    let c = Cli { test: false, command: Some(Command::Config { action: ConfigAction::List }) };
    assert!(matches!(c.action(), CliAction::Resume));
}

#[test]
fn clear_words_only_alone() {
    assert!(is_clear_args(&args(&["clear"])));
    assert!(is_clear_args(&args(&["ReSeT"])));
    assert!(!is_clear_args(&args(&["clear", "x"])));
    assert!(!is_clear_args(&args(&["clears"])));
    assert!(!is_clear_args(&args(&[])));
}

#[test]
fn last_word_duration_needs_a_name_before_it() {
    assert!(matches!(action_from_args(&args(&["x", "y"])), CliAction::NameOnly(ref n) if n == "x y"));
    if let CliAction::NewTimer(ms, name) = action_from_args(&args(&["call", "mom", "90s"])) {
        assert_eq!(ms, 90_000);
        assert_eq!(name, "call mom");
    } else {
        panic!("expected NewTimer");
    }
}
