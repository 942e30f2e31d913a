use tt::config::{parse_bool, parse_set, run_on, Config, ConfigAction, ConfigError, KEY_INTEGRATE_WITH_TASK};

#[test]
fn default_enables_integration() {
    assert!(Config::default().integrate_with_task);
}

#[test]
fn parse_bool_accepts_common_spellings() {
    for t in ["true", "TRUE", "1", "yes", "on"] {
        assert_eq!(parse_bool(t), Some(true), "{t}");
    }
    for fa in ["false", "False", "0", "no", "off"] {
        assert_eq!(parse_bool(fa), Some(false), "{fa}");
    }
    assert_eq!(parse_bool("maybe"), None);
    assert_eq!(parse_bool(""), None);
}

#[test]
fn set_rejects_unknown_key() {
    let mut cfg = Config::default();
    let err = cfg.set("nope", "true").unwrap_err();
    assert!(matches!(err, ConfigError::UnknownKey(k) if k == "nope"));
    assert!(cfg.integrate_with_task); // unchanged
}

#[test]
fn set_rejects_invalid_value() {
    let mut cfg = Config::default();
    let err = cfg.set(KEY_INTEGRATE_WITH_TASK, "banana").unwrap_err();
    assert!(matches!(err, ConfigError::InvalidValue { .. }));
    assert!(cfg.integrate_with_task); // unchanged
}

#[test]
fn parse_set_equals_and_space_forms() {
    let (k, v) = parse_set(&["integrate_with_task=false".to_string()]).unwrap();
    assert_eq!((k.as_str(), v.as_str()), ("integrate_with_task", "false"));
    let (k, v) = parse_set(&["integrate_with_task".to_string(), "true".to_string()]).unwrap();
    assert_eq!((k.as_str(), v.as_str()), ("integrate_with_task", "true"));
}

#[test]
fn parse_set_missing_value_errors() {
    let err = parse_set(&["integrate_with_task".to_string()]).unwrap_err();
    assert!(matches!(err, ConfigError::BadUsage(_)));
}

fn set(tokens: &[&str]) -> ConfigAction {
    ConfigAction::SetKey {
        args: tokens.iter().map(|s| s.to_string()).collect(),
    }
}

/// Runs a subcommand against settings kept in memory, storing what a
/// successful `set` hands back, as the program does with the settings file.
fn run_stored(action: &ConfigAction, stored: &mut Config) -> Result<String, ConfigError> {
    let (msg, to_store) = run_on(action, *stored)?;
    if let Some(c) = to_store {
        *stored = c;
    }
    Ok(msg)
}

#[test]
fn run_set_then_list_roundtrip() {
    let mut stored = Config::default();
    assert_eq!(
        run_stored(&set(&["integrate_with_task=false"]), &mut stored).unwrap(),
        "integrate_with_task=false"
    );
    assert_eq!(
        run_stored(&ConfigAction::List, &mut stored).unwrap(),
        "integrate_with_task=false"
    );
    // space form, then read back
    run_stored(&set(&["integrate_with_task", "true"]), &mut stored).unwrap();
    assert_eq!(
        run_stored(&ConfigAction::List, &mut stored).unwrap(),
        "integrate_with_task=true"
    );
}

#[test]
fn run_set_invalid_value_does_not_persist() {
    let mut stored = Config::default();
    run_stored(&set(&["integrate_with_task=true"]), &mut stored).unwrap();
    let err = run_stored(&set(&["integrate_with_task=banana"]), &mut stored).unwrap_err();
    assert!(matches!(err, ConfigError::InvalidValue { .. }));
    assert_eq!(
        run_stored(&ConfigAction::List, &mut stored).unwrap(),
        "integrate_with_task=true" // bad value never reached the store
    );
}

#[test]
fn run_set_unknown_key_does_not_persist() {
    let mut stored = Config::default();
    let err = run_stored(&set(&["bogus=1"]), &mut stored).unwrap_err();
    assert!(matches!(err, ConfigError::UnknownKey(_)));
    // Nothing stored ⇒ list shows the default.
    assert_eq!(
        run_stored(&ConfigAction::List, &mut stored).unwrap(),
        "integrate_with_task=true"
    );
}

// --- further cases ------------------------------------------------------------

#[test]
fn pairs_list_the_one_setting() {
    let cfg = Config { integrate_with_task: false };
    assert_eq!(
        cfg.pairs(),
        vec![("integrate_with_task".to_string(), "false".to_string())]
    );
}

#[test]
fn set_accepts_padded_mixed_case_values() {
    let mut cfg = Config::default();
    assert_eq!(cfg.set(KEY_INTEGRATE_WITH_TASK, "  OFF "), Ok(()));
    assert!(!cfg.integrate_with_task);
    assert_eq!(cfg.set(KEY_INTEGRATE_WITH_TASK, "Yes"), Ok(()));
    assert!(cfg.integrate_with_task);
}

#[test]
fn parse_set_usage_errors() {
    assert!(matches!(parse_set(&[]), Err(ConfigError::BadUsage(_))));
    let (k, v) = parse_set(&["a=b=c".to_string()]).unwrap();
    assert_eq!((k.as_str(), v.as_str()), ("a", "b=c"));
    let (k, v) = parse_set(&["key".to_string(), "two".to_string(), "words".to_string()]).unwrap();
    assert_eq!((k.as_str(), v.as_str()), ("key", "two words"));
}

#[test]
fn error_messages() {
    assert_eq!(
        ConfigError::UnknownKey("nope".into()).message(),
        "unknown config key 'nope' (valid keys: integrate_with_task)"
    );
    assert_eq!(
        ConfigError::InvalidValue { key: "k".into(), value: "v".into() }.message(),
        "invalid value 'v' for 'k' (expected a boolean: true/false)"
    );
    assert_eq!(ConfigError::BadUsage("usage".into()).message(), "usage");
    assert_eq!(ConfigError::NoConfigDir.message(), "could not determine config directory");
    assert_eq!(ConfigError::Io("disk".into()).message(), "failed to write config: disk");
}

#[test]
fn set_normalises_accepted_spellings() {
    let mut stored = Config::default();
    assert_eq!(
        run_stored(&set(&["integrate_with_task= Off "]), &mut stored).unwrap(),
        "integrate_with_task=false"
    );
    assert_eq!(run_stored(&ConfigAction::List, &mut stored).unwrap(), "integrate_with_task=false");
    assert_eq!(run_stored(&set(&["integrate_with_task", "YES"]), &mut stored).unwrap(), "integrate_with_task=true");
    assert_eq!(run_stored(&ConfigAction::List, &mut stored).unwrap(), "integrate_with_task=true");
}
