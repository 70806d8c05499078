use goose::prompt_context::{context_json_of, ExtensionInfo, GooseMode, PromptContext};
use goose::text::{preview, sanitize_unicode_tags, trim_str, usize_to_decimal, MAX_PREVIEW_CHARS};

#[test]
fn preview_keeps_short_text() {
    assert_eq!(preview("short"), "short");
}

#[test]
fn preview_cuts_long_text_and_says_how_much_more() {
    let text = "é".repeat(MAX_PREVIEW_CHARS + 5);
    let shown = preview(&text);
    assert!(shown.starts_with(&"é".repeat(MAX_PREVIEW_CHARS)));
    assert!(shown.ends_with("\u{2026} (+5 more chars)"));
}

#[test]
fn sanitizing_removes_only_tag_characters() {
    assert_eq!(sanitize_unicode_tags("a\u{E0000}b\u{E007F}c世界🌍"), "abc世界🌍");
    assert_eq!(sanitize_unicode_tags(""), "");
}

#[test]
fn trimming_removes_unicode_white_space() {
    assert_eq!(trim_str("\u{3000} a b \t\n"), "a b");
    assert_eq!(trim_str("   "), "");
}

#[test]
fn decimals_are_rendered() {
    assert_eq!(usize_to_decimal(0), "0");
    assert_eq!(usize_to_decimal(1234567), "1234567");
}

#[test]
fn sanitizing_twice_is_sanitizing_once() {
    let once = sanitize_unicode_tags("x\u{E0041}y\u{E0042}");
    assert_eq!(sanitize_unicode_tags(&once), once);
}

#[test]
fn context_json_holds_texts_with_quotes_and_controls() {
    let ctx = PromptContext {
        extensions: vec![ExtensionInfo::new("a\"b", "line\nnext\t\\", false)],
        current_date_time: "2024-01-01 10:00 +00:00".to_string(),
        extension_tool_limits: None,
        goose_mode: GooseMode::Chat,
        enable_subagents: false,
        code_execution_mode: false,
        moim_system_prompt_block: None,
    };
    let json = context_json_of(&ctx);
    let value: serde_json::Value = serde_json::from_str(&json).unwrap();
    assert_eq!(value["extensions"][0]["name"], "a\"b");
    assert_eq!(value["extensions"][0]["instructions"], "line\nnext\t\\");
    assert_eq!(value["goose_mode"], "chat");
    assert!(json.contains("\"line\\nnext\\t\\\\\""));
    assert!(json.contains("\"a\\\"b\""));
}

#[test]
fn context_json_escapes_other_controls_by_code() {
    let ctx = PromptContext {
        extensions: vec![ExtensionInfo::new("x", "a\u{1}b\u{8}c\u{1f}", false)],
        current_date_time: String::new(),
        extension_tool_limits: None,
        goose_mode: GooseMode::Auto,
        enable_subagents: false,
        code_execution_mode: false,
        moim_system_prompt_block: None,
    };
    let json = context_json_of(&ctx);
    assert!(json.contains("\"a\\u0001b\\bc\\u001f\""));
}
