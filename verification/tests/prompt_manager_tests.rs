use goose::prompt_context::{ExtensionInfo, GooseMode, MAX_EXTENSIONS, MAX_TOOLS};
use goose::prompt_manager::{PromptManager, CHAT_MODE_INSTRUCTION};

fn moim_block() -> Option<String> {
    Some("<info-msg>\nIt is your turn.\n</info-msg>".to_string())
}

#[test]
fn test_build_system_prompt_sanitizes_override() {
    let mut manager = PromptManager::new();
    let malicious_override = "System prompt\u{E0041}\u{E0042}\u{E0043}with hidden text";
    manager.set_system_prompt_override(malicious_override.to_string());

    let result = manager.builder().build(GooseMode::Auto, moim_block());

    assert!(!result.contains('\u{E0041}'));
    assert!(!result.contains('\u{E0042}'));
    assert!(!result.contains('\u{E0043}'));
    assert!(result.contains("System prompt"));
    assert!(result.contains("with hidden text"));
}

#[test]
fn test_current_date_time_includes_timezone() {
    let mut manager = PromptManager::with_timestamp(0).unwrap();
    manager.set_system_prompt_override("It is currently {{current_date_time}}".to_string());

    let result = manager.builder().build(GooseMode::Auto, moim_block());

    assert_eq!(result, "It is currently 1970-01-01 00:00:00 +00:00");
}

#[test]
fn test_build_system_prompt_sanitizes_extras() {
    let mut manager = PromptManager::new();
    let malicious_extra = "Extra instruction\u{E0041}\u{E0042}\u{E0043}hidden";
    manager.add_system_prompt_extra("test".to_string(), malicious_extra.to_string());

    let result = manager.builder().build(GooseMode::Auto, moim_block());

    assert!(!result.contains('\u{E0041}'));
    assert!(!result.contains('\u{E0042}'));
    assert!(!result.contains('\u{E0043}'));
    assert!(result.contains("Extra instruction"));
    assert!(result.contains("hidden"));
}

#[test]
fn test_build_system_prompt_sanitizes_multiple_extras() {
    let mut manager = PromptManager::new();
    manager.add_system_prompt_extra("test1".to_string(), "First\u{E0041}instruction".to_string());
    manager.add_system_prompt_extra(
        "test2".to_string(),
        "Second\u{E0042}instruction".to_string(),
    );
    manager.add_system_prompt_extra("test3".to_string(), "Third\u{E0043}instruction".to_string());

    let result = manager.builder().build(GooseMode::Auto, moim_block());

    assert!(!result.contains('\u{E0041}'));
    assert!(!result.contains('\u{E0042}'));
    assert!(!result.contains('\u{E0043}'));
    assert!(result.contains("Firstinstruction"));
    assert!(result.contains("Secondinstruction"));
    assert!(result.contains("Thirdinstruction"));
}

#[test]
fn test_remove_system_prompt_extra() {
    let mut manager = PromptManager::new();
    manager.add_system_prompt_extra("agent".to_string(), "Agent instruction".to_string());
    manager.add_system_prompt_extra("project".to_string(), "Project instruction".to_string());

    manager.remove_system_prompt_extra("agent");
    let result = manager.builder().build(GooseMode::Auto, moim_block());

    assert!(!result.contains("Agent instruction"));
    assert!(result.contains("Project instruction"));
}

#[test]
fn test_clear_system_prompt_override() {
    let mut manager = PromptManager::new();
    manager.set_system_prompt_override("Replacement prompt".to_string());
    assert!(manager
        .builder()
        .build(GooseMode::Auto, moim_block())
        .contains("Replacement prompt"));

    manager.clear_system_prompt_override();
    assert!(!manager
        .builder()
        .build(GooseMode::Auto, moim_block())
        .contains("Replacement prompt"));
}

#[test]
fn test_build_segments_respects_override_without_extension_or_moim_variables() {
    let mut manager = PromptManager::new();
    manager.set_system_prompt_override("Replacement prompt".to_string());

    let segments = manager
        .builder()
        .with_extension(ExtensionInfo::new("test", "extension instructions", true))
        .build_segments(GooseMode::Auto, moim_block());

    assert!(segments.base_is_override);
    assert!(segments.extension_instructions.is_empty());
    assert!(segments.moim_block.is_none());
    assert_eq!(segments.base_template_blanked, "Replacement prompt");
}

#[test]
fn test_build_segments_ignores_literal_variable_names_in_override() {
    let mut manager = PromptManager::new();
    manager.set_system_prompt_override(
        "Do not mention extensions or moim_system_prompt_block in responses.".to_string(),
    );

    let segments = manager
        .builder()
        .with_extension(ExtensionInfo::new("test", "extension instructions", true))
        .build_segments(GooseMode::Auto, moim_block());

    assert!(segments.base_is_override);
    assert!(segments.extension_instructions.is_empty());
    assert!(segments.moim_block.is_none());
}

#[test]
fn test_build_segments_tracks_variables_rendered_by_override() {
    let mut manager = PromptManager::new();
    manager.set_system_prompt_override(
        "{% for extension in extensions %}{{ extension.instructions }}{% endfor %}\n{{ moim_system_prompt_block }}"
            .to_string(),
    );

    let segments = manager
        .builder()
        .with_extension(ExtensionInfo::new("test", "extension instructions", true))
        .build_segments(GooseMode::Auto, moim_block());

    assert!(segments.base_is_override);
    assert_eq!(
        segments.extension_instructions,
        vec![("test".to_string(), "extension instructions".to_string())]
    );
    assert!(segments.moim_block.is_some());
}

#[test]
fn test_build_segments_without_override_reports_template_base() {
    let manager = PromptManager::new();

    let segments = manager
        .builder()
        .with_goose_mode(GooseMode::Auto)
        .build_segments(GooseMode::Auto, moim_block());

    assert!(!segments.base_is_override);
    assert!(!segments.base_template_blanked.is_empty());
}

#[test]
fn test_build_system_prompt_preserves_legitimate_unicode_in_extras() {
    let mut manager = PromptManager::new();
    let legitimate_unicode = "Instruction with 世界 and 🌍 emojis";
    manager.add_system_prompt_extra("test".to_string(), legitimate_unicode.to_string());

    let result = manager.builder().build(GooseMode::Auto, moim_block());

    assert!(result.contains("世界"));
    assert!(result.contains("🌍"));
    assert!(result.contains("Instruction with"));
    assert!(result.contains("emojis"));
}

#[test]
fn test_build_system_prompt_sanitizes_extension_instructions() {
    let manager = PromptManager::new();
    let malicious_extension_info = ExtensionInfo::new(
        "test_extension",
        "Extension help\u{E0041}\u{E0042}\u{E0043}hidden instructions",
        false,
    );

    let result = manager
        .builder()
        .with_extension(malicious_extension_info)
        .build(GooseMode::Auto, moim_block());

    assert!(!result.contains('\u{E0041}'));
    assert!(!result.contains('\u{E0042}'));
    assert!(!result.contains('\u{E0043}'));
    assert!(result.contains("Extension help"));
    assert!(result.contains("hidden instructions"));
}

#[test]
fn additional_instructions_follow_the_base_in_insertion_order() {
    let mut manager = PromptManager::new();
    manager.set_system_prompt_override("Base".to_string());
    manager.add_system_prompt_extra("b".to_string(), "second".to_string());
    manager.add_system_prompt_extra("a".to_string(), "first".to_string());
    manager.add_system_prompt_extra("b".to_string(), "replaced".to_string());

    let result = manager.builder().build(GooseMode::Auto, None);

    assert_eq!(result, "Base\n\n# Additional Instructions:\n\nreplaced\n\nfirst");
}

#[test]
fn prompt_without_extras_is_the_base_alone() {
    let mut manager = PromptManager::new();
    manager.set_system_prompt_override("Only the base".to_string());
    assert_eq!(manager.builder().build(GooseMode::Approve, None), "Only the base");
}

#[test]
fn chat_mode_and_hints_become_additional_instructions() {
    let mut manager = PromptManager::new();
    manager.set_system_prompt_override("Base".to_string());

    let result = manager
        .builder()
        .with_hints("Use tabs.".to_string())
        .with_goose_mode(GooseMode::Chat)
        .build(GooseMode::Auto, None);
    assert_eq!(
        result,
        format!("Base\n\n# Additional Instructions:\n\nUse tabs.\n\n{}", CHAT_MODE_INSTRUCTION)
    );

    let configured_chat = manager.builder().build(GooseMode::Chat, None);
    assert!(configured_chat.ends_with(CHAT_MODE_INSTRUCTION));

    let segments = manager
        .builder()
        .with_hint_sources(String::new())
        .build_segments(GooseMode::Chat, None);
    assert_eq!(segments.extras.len(), 1);
    assert_eq!(segments.extras.get("chat_mode").map(|s| s.as_str()), Some(CHAT_MODE_INSTRUCTION));
}

#[test]
fn override_sees_mode_and_settings() {
    let mut manager = PromptManager::new();
    manager.set_system_prompt_override(
        "{{goose_mode}} {{is_autonomous}} {{enable_subagents}} {{code_execution_mode}} {{max_extensions}} {{max_tools}}"
            .to_string(),
    );
    let result = manager
        .builder()
        .with_enable_subagents(true)
        .with_code_execution_mode(true)
        .build(GooseMode::SmartApprove, None);
    assert_eq!(result, "smart_approve False True True 5 50");
}

#[test]
fn override_sees_limits_only_when_exceeded() {
    let mut manager = PromptManager::new();
    manager.set_system_prompt_override(
        "{% if extension_tool_limits %}{{ extension_tool_limits[0] }}/{{ extension_tool_limits[1] }}{% else %}none{% endif %}"
            .to_string(),
    );
    let within = manager
        .builder()
        .with_extension_and_tool_counts(MAX_EXTENSIONS, MAX_TOOLS)
        .build(GooseMode::Auto, None);
    assert_eq!(within, "none");
    let beyond = manager
        .builder()
        .with_extension_and_tool_counts(MAX_EXTENSIONS + 1, MAX_TOOLS)
        .build(GooseMode::Auto, None);
    assert_eq!(beyond, "6/50");
}

#[test]
fn extensions_are_listed_by_name_with_the_frontend() {
    let mut manager = PromptManager::new();
    manager.set_system_prompt_override(
        "{% for e in extensions %}{{ e.name }}:{{ e.instructions }};{% endfor %}".to_string(),
    );
    let result = manager
        .builder()
        .with_extensions(vec![
            ExtensionInfo::new("zeta", "z \"quoted\"\\", false),
            ExtensionInfo::new("alpha", "a\u{E0041}\nline", true),
        ])
        .with_frontend_instructions(Some("front".to_string()))
        .build(GooseMode::Auto, None);
    assert_eq!(result, "alpha:a\nline;frontend:front;zeta:z \"quoted\"\\;");
}

#[test]
fn unrenderable_override_falls_back() {
    let mut manager = PromptManager::new();
    manager.set_system_prompt_override("{% if %}".to_string());
    assert_eq!(
        manager.builder().build(GooseMode::Auto, None),
        "You are a general-purpose AI agent called goose, created by Block"
    );
}

#[test]
fn subdirectory_hints_are_added_in_order() {
    let mut manager = PromptManager::new();
    manager.set_system_prompt_override("Base".to_string());
    assert!(!manager.load_subdirectory_hints(Vec::new()));
    assert!(manager.load_subdirectory_hints(vec![
        ("subdir_hints:/a".to_string(), "hint a".to_string()),
        ("subdir_hints:/b".to_string(), "hint b".to_string()),
    ]));
    assert_eq!(
        manager.builder().build(GooseMode::Auto, None),
        "Base\n\n# Additional Instructions:\n\nhint a\n\nhint b"
    );
}

#[test]
fn out_of_range_timestamp_gives_no_manager() {
    assert!(PromptManager::with_timestamp(i64::MAX).is_none());
    assert!(PromptManager::with_timestamp(86_400).is_some());
}

#[test]
fn removing_a_new_instruction_restores_the_prompt() {
    let mut manager = PromptManager::new();
    manager.set_system_prompt_override("Base".to_string());
    manager.add_system_prompt_extra("kept".to_string(), "stays".to_string());
    let before = manager.builder().build(GooseMode::Auto, None);
    manager.add_system_prompt_extra("temporary".to_string(), "goes".to_string());
    assert_ne!(manager.builder().build(GooseMode::Auto, None), before);
    manager.remove_system_prompt_extra("temporary");
    assert_eq!(manager.builder().build(GooseMode::Auto, None), before);
}

#[test]
fn new_manager_stamps_the_current_hour() {
    let mut manager = PromptManager::new();
    manager.set_system_prompt_override("{{current_date_time}}".to_string());
    let stamp = manager.builder().build(GooseMode::Auto, None);
    assert_eq!(stamp.len(), "2024-01-01 10:00 +00:00".len());
    assert_eq!(&stamp[13..], ":00 +00:00");
}
