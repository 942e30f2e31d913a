use tt::command::Command;

fn secs(ms: i64) -> f64 {
    ms as f64 / 1000.0
}

#[test]
fn pause_aliases() {
    assert_eq!(Command::parse("p"), Command::Pause);
    assert_eq!(Command::parse("pause"), Command::Pause);
    assert_eq!(Command::parse("paus"), Command::Pause);
    assert_eq!(Command::parse("PAUSE"), Command::Pause);
}

#[test]
fn reset_aliases() {
    assert_eq!(Command::parse("r"), Command::Reset);
    assert_eq!(Command::parse("rst"), Command::Reset);
    assert_eq!(Command::parse("reset"), Command::Reset);
    assert_eq!(Command::parse("RESET"), Command::Reset);
}

#[test]
fn revert_aliases() {
    assert_eq!(Command::parse("revert"), Command::Revert);
    assert_eq!(Command::parse("rollback"), Command::Revert);
}

#[test]
fn remove_aliases() {
    assert_eq!(Command::parse("stop"), Command::Remove);
    assert_eq!(Command::parse("remove"), Command::Remove);
    assert_eq!(Command::parse("rm"), Command::Remove);
    assert_eq!(Command::parse("RM"), Command::Remove);
}

#[test]
fn switch() {
    assert_eq!(Command::parse("tt"), Command::Switch);
}

#[test]
fn quit_aliases() {
    assert_eq!(Command::parse("q"), Command::Quit);
    assert_eq!(Command::parse("quit"), Command::Quit);
    assert_eq!(Command::parse("exit"), Command::Quit);
    assert_eq!(Command::parse("EXIT"), Command::Quit);
}

#[test]
fn update_time() {
    if let Command::Update(ms) = Command::parse("update 5m") {
        assert_eq!(secs(ms), 300.0);
    } else {
        panic!("expected Update");
    }
}

#[test]
fn update_invalid_time() {
    assert!(matches!(Command::parse("update xyz"), Command::Unknown(_)));
}

#[test]
fn new_timer_time_first() {
    if let Command::NewTimer(ms, name) = Command::parse("tt 10m meeting") {
        assert_eq!(secs(ms), 600.0);
        assert_eq!(name, "meeting");
    } else {
        panic!("expected NewTimer");
    }
}

#[test]
fn new_timer_time_first_long_name() {
    if let Command::NewTimer(ms, name) = Command::parse("tt 5m weekly standup meeting") {
        assert_eq!(secs(ms), 300.0);
        assert_eq!(name, "weekly standup meeting");
    } else {
        panic!("expected NewTimer");
    }
}

#[test]
fn new_timer_time_last() {
    if let Command::NewTimer(ms, name) = Command::parse("tt some long name 4s") {
        assert_eq!(secs(ms), 4.0);
        assert_eq!(name, "some long name");
    } else {
        panic!("expected NewTimer with time at end");
    }
}

#[test]
fn new_timer_time_last_hours() {
    if let Command::NewTimer(ms, name) = Command::parse("tt deep work session 1.5h") {
        assert!((secs(ms) - 5400.0).abs() < 0.01);
        assert_eq!(name, "deep work session");
    } else {
        panic!("expected NewTimer");
    }
}

#[test]
fn name_prompt() {
    if let Command::NamePrompt(ms) = Command::parse("tt 10m") {
        assert_eq!(secs(ms), 600.0);
    } else {
        panic!("expected NamePrompt");
    }
}

#[test]
fn timer_prompt_single_word() {
    if let Command::TimerPrompt(name) = Command::parse("tt meeting") {
        assert_eq!(name, "meeting");
    } else {
        panic!("expected TimerPrompt");
    }
}

#[test]
fn timer_prompt_multi_word() {
    if let Command::TimerPrompt(name) = Command::parse("tt my long task name") {
        assert_eq!(name, "my long task name");
    } else {
        panic!("expected TimerPrompt");
    }
}

#[test]
fn empty_input() {
    assert!(matches!(Command::parse(""), Command::Unknown(_)));
}

#[test]
fn whitespace_only() {
    assert!(matches!(Command::parse("   "), Command::Unknown(_)));
}

#[test]
fn unknown_command() {
    assert!(matches!(Command::parse("foobar"), Command::Unknown(_)));
}

#[test]
fn tt_empty_is_switch() {
    assert_eq!(Command::parse("tt "), Command::Switch);
}

// --- further cases ------------------------------------------------------------

#[test]
fn complete_aliases() {
    assert_eq!(Command::parse("c"), Command::Complete);
    assert_eq!(Command::parse("complete"), Command::Complete);
    assert_eq!(Command::parse("done"), Command::Complete);
    assert_eq!(Command::parse("DONE"), Command::Complete);
}

#[test]
fn unknown_keeps_the_trimmed_text() {
    assert_eq!(Command::parse("  foo bar  "), Command::Unknown("foo bar".to_string()));
    assert_eq!(Command::parse("update xyz"), Command::Unknown("update xyz".to_string()));
    assert_eq!(Command::parse(""), Command::Unknown(String::new()));
}

#[test]
fn padding_and_case_do_not_matter() {
    assert_eq!(Command::parse("  Quit \t"), Command::Quit);
    assert_eq!(Command::parse("\nRoLLbAcK "), Command::Revert);
    assert_eq!(Command::parse("UPDATE 5m"), Command::Update(300_000));
    assert_eq!(Command::parse("TT 5m x"), Command::NewTimer(300_000, "x".to_string()));
}

#[test]
fn tt_words_are_joined_by_single_spaces() {
    assert_eq!(
        Command::parse("tt   5m   weekly    sync"),
        Command::NewTimer(300_000, "weekly sync".to_string())
    );
    assert_eq!(
        Command::parse("tt some  name"),
        Command::TimerPrompt("some  name".to_string())
    );
}

#[test]
fn tt_prefers_the_first_word_as_duration() {
    assert_eq!(Command::parse("tt 5 2m"), Command::NewTimer(300_000, "2m".to_string()));
}
