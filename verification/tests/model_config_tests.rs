use goose::model_config::{
    bool_from_lowercase, compaction_override_name, completion_models,
    configured_compaction_model_name_from, configured_model_name, get_goose_toolshim,
    get_goose_toolshim_model,
    global_toolshim, lightweight_model_name, parse_bool_config, parse_yaml_bool_config,
    completion_start, completion_step, CompletionAction, CompletionState, ConfigError, ConfigValue,
};

fn not_found(key: &str) -> ConfigError {
    ConfigError::NotFound(key.to_string())
}

#[test]
fn compaction_model_name_treats_missing_or_blank_value_as_unset() {
    assert_eq!(
        configured_compaction_model_name_from(Err(not_found("GOOSE_COMPACTION_MODEL"))),
        None
    );

    assert_eq!(configured_compaction_model_name_from(Ok("   ".to_string())), None);
}

#[test]
fn compaction_model_name_treats_malformed_value_as_unset() {
    let malformed = ConfigError::Other(
        "Failed to deserialize value: invalid type: sequence, expected a string".to_string(),
    );

    assert_eq!(configured_compaction_model_name_from(Err(malformed)), None);
}

#[test]
fn compaction_model_name_uses_valid_value() {
    assert_eq!(
        configured_compaction_model_name_from(Ok(" compaction-model ".to_string())),
        Some("compaction-model".to_string())
    );
}

#[test]
fn explicit_compaction_model_failure_falls_back_to_main_model() {
    assert_eq!(
        completion_models(Ok("broken-compaction-model".to_string()), "main-model"),
        Ok((
            "broken-compaction-model".to_string(),
            Some("main-model".to_string())
        ))
    );
    assert_eq!(
        completion_models(Ok("main-model".to_string()), "main-model"),
        Ok(("main-model".to_string(), None))
    );
    assert_eq!(
        completion_models(Err("no such model".to_string()), "main-model"),
        Err("no such model".to_string())
    );
}

#[test]
fn bool_spellings_are_read_in_any_case() {
    for t in ["1", "true", "TRUE", "Yes", "on", "On"] {
        assert_eq!(parse_bool_config("GOOSE_TOOLSHIM", t), Ok(true));
    }
    for f in ["0", "false", "False", "NO", "off"] {
        assert_eq!(parse_bool_config("GOOSE_TOOLSHIM", f), Ok(false));
    }
}

#[test]
fn other_bool_spellings_are_errors_naming_key_and_value() {
    assert_eq!(
        parse_bool_config("GOOSE_TOOLSHIM", "maybe"),
        Err("Invalid value for 'GOOSE_TOOLSHIM': 'maybe' - must be one of: 1, true, yes, on, 0, false, no, off".to_string())
    );
    assert_eq!(
        bool_from_lowercase("K", "Enabled", "enabled"),
        Err("Invalid value for 'K': 'Enabled' - must be one of: 1, true, yes, on, 0, false, no, off".to_string())
    );
}

#[test]
fn yaml_values_are_read_by_kind() {
    assert_eq!(parse_yaml_bool_config("K", ConfigValue::Bool(false)), Ok(false));
    assert_eq!(parse_yaml_bool_config("K", ConfigValue::Number("1".to_string())), Ok(true));
    assert_eq!(parse_yaml_bool_config("K", ConfigValue::String("off".to_string())), Ok(false));
    assert_eq!(
        parse_yaml_bool_config("K", ConfigValue::Number("2".to_string())),
        Err("Invalid value for 'K': '2' - must be one of: 1, true, yes, on, 0, false, no, off".to_string())
    );
    assert_eq!(
        parse_yaml_bool_config("K", ConfigValue::Other("- a\n- b\n".to_string())),
        Err("Invalid value for 'K': '- a\n- b' - must be one of: 1, true, yes, on, 0, false, no, off".to_string())
    );
}

#[test]
fn toolshim_switch_from_configuration() {
    assert_eq!(get_goose_toolshim(Err(not_found("GOOSE_TOOLSHIM"))), Ok(None));
    assert_eq!(get_goose_toolshim(Ok(ConfigValue::String("yes".to_string()))), Ok(Some(true)));
    assert_eq!(
        get_goose_toolshim(Err(ConfigError::Other("unreadable".to_string()))),
        Err("unreadable".to_string())
    );
    assert!(global_toolshim(Ok(ConfigValue::Bool(true))));
    assert!(!global_toolshim(Ok(ConfigValue::Bool(false))));
    assert!(!global_toolshim(Err(not_found("GOOSE_TOOLSHIM"))));
    assert!(!global_toolshim(Ok(ConfigValue::String("perhaps".to_string()))));
}

#[test]
fn toolshim_model_must_not_be_blank() {
    assert_eq!(get_goose_toolshim_model(Err(not_found("GOOSE_TOOLSHIM_OLLAMA_MODEL"))), Ok(None));
    assert_eq!(
        get_goose_toolshim_model(Ok(" llama3 ".to_string())),
        Ok(Some(" llama3 ".to_string()))
    );
    assert_eq!(
        get_goose_toolshim_model(Ok("  ".to_string())),
        Err("Invalid value for 'GOOSE_TOOLSHIM_OLLAMA_MODEL': '  ' - cannot be empty if set".to_string())
    );
}

#[test]
fn configured_model_names_are_trimmed() {
    assert_eq!(configured_model_name(Ok("\tfast-model\n".to_string())), Some("fast-model".to_string()));
    assert_eq!(configured_model_name(Ok("".to_string())), None);
    assert_eq!(configured_model_name(Err(not_found("GOOSE_FAST_MODEL"))), None);
}

#[test]
fn lightweight_model_prefers_override_then_provider_default() {
    assert_eq!(
        lightweight_model_name("main", Some("fast".to_string()), Some("default".to_string())),
        Some("fast".to_string())
    );
    assert_eq!(
        lightweight_model_name("main", None, Some("default".to_string())),
        Some("default".to_string())
    );
    assert_eq!(lightweight_model_name("main", Some("main".to_string()), None), None);
    assert_eq!(lightweight_model_name("main", None, None), None);
    assert_eq!(
        compaction_override_name(None, Some("fast".to_string())),
        Some("fast".to_string())
    );
    assert_eq!(
        compaction_override_name(Some("compact".to_string()), Some("fast".to_string())),
        Some("compact".to_string())
    );
}

#[test]
fn capital_spellings_read_as_their_small_form() {
    assert_eq!(parse_bool_config("K", "YES"), Ok(true));
    assert_eq!(parse_bool_config("K", "OFF"), Ok(false));
    assert_eq!(
        parse_yaml_bool_config("K", ConfigValue::String("TRUE".to_string())),
        Ok(true)
    );
}

#[test]
fn completion_returns_a_success_without_falling_back() {
    let (first, state) = completion_start(Ok("fast".to_string()), "main").unwrap();
    assert_eq!(first, "fast");
    let step: CompletionAction<u32, String> = completion_step(state, Ok(7));
    assert_eq!(step, CompletionAction::Return(Ok(7)));
}

#[test]
fn completion_falls_back_once_to_the_main_model() {
    let (_, state) = completion_start(Ok("fast".to_string()), "main").unwrap();
    let step: CompletionAction<u32, String> = completion_step(state, Err("down".to_string()));
    assert_eq!(
        step,
        CompletionAction::Try("main".to_string(), CompletionState::Fallback)
    );
    let last: CompletionAction<u32, String> =
        completion_step(CompletionState::Fallback, Err("also down".to_string()));
    assert_eq!(last, CompletionAction::Return(Err("also down".to_string())));
}

#[test]
fn completion_on_the_main_model_returns_its_failure() {
    let (first, state) = completion_start(Ok("main".to_string()), "main").unwrap();
    assert_eq!(first, "main");
    let step: CompletionAction<u32, String> = completion_step(state, Err("down".to_string()));
    assert_eq!(step, CompletionAction::Return(Err("down".to_string())));
    assert_eq!(
        completion_start(Err("no such model".to_string()), "main"),
        Err("no such model".to_string())
    );
}
