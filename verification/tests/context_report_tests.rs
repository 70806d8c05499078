use goose::budgets::{chat_budget_fits, tools_cost_fits};
use goose::context_report::{
    context_segments, finish_report, is_turn_context_placeholder, message_text,
    remove_turn_context_placeholder_marker, remove_turn_context_placeholders, segments_total,
    settle_turn_context, turn_context_text, wire_total_tokens, with_turn_context_placeholder,
    ContextCategory,
    ContextReportModel, ContextSegment, HintScope, HintSource, MessageKind,
    TURN_CONTEXT_PLACEHOLDER_TEXT,
};
use goose::report_messages::{message_segments, message_segments_fit};
use goose::report_tools::{hint_parts, tool_segments, toolshim_tool_segment};
use goose::prompt_context::{ExtensionInfo, GooseMode};
use goose::prompt_manager::PromptManager;
use goose::message::{Message, MessageContent, Role, ToolCall, ToolResultContent};
use goose::token_counter::{TokenCounter, ToolProperty, ToolSpec};

fn test_tool(name: &str, description: &str, owner: Option<&str>) -> ToolSpec {
    let definition_json = format!(
        "{{\n  \"name\": \"{}\",\n  \"description\": \"{}\",\n  \"inputSchema\": {{\n    \"type\": \"object\"\n  }}\n}}",
        name, description
    );
    ToolSpec {
        name: name.to_string(),
        description: Some(description.to_string()),
        properties: Some(vec![
            ToolProperty {
                name: "path".to_string(),
                value_type: Some("string".to_string()),
                description: Some("File path to operate on.".to_string()),
                enum_values: None,
            },
            ToolProperty {
                name: "mode".to_string(),
                value_type: Some("string".to_string()),
                description: None,
                enum_values: Some(vec![Some("read".to_string()), Some("write".to_string())]),
            },
        ]),
        owner: owner.map(|o| o.to_string()),
        definition_json,
    }
}

#[test]
fn turn_context_placeholder_preserves_idle_assistant_message() {
    let assistant = Message::assistant().with_text("latest assistant reply");
    let conversation = vec![
        Message::user().with_text("first user message"),
        assistant.clone(),
    ];

    let (with_placeholder, added_placeholder) = with_turn_context_placeholder(conversation);

    assert!(added_placeholder);
    assert_eq!(with_placeholder[1], assistant);
    assert!(is_turn_context_placeholder(with_placeholder.last().unwrap()));
}

#[test]
fn turn_context_text_finds_only_dynamic_turn_context() {
    let turn_context = "<turn-context>\n<current-time>2026-07-09 12:00:00</current-time>\n<working-directory>/tmp</working-directory>\n</turn-context>";
    let conversation = vec![
        Message::user().with_text("ordinary user message"),
        Message::user().with_text(turn_context),
    ];

    assert_eq!(
        turn_context_text(&conversation).as_deref(),
        Some(turn_context)
    );
}

#[test]
fn turn_context_text_prefers_freshest_turn_context() {
    let stale_turn_context = "<turn-context>\n<current-time>2026-07-09 12:00:00</current-time>\n<working-directory>/old</working-directory>\n</turn-context>";
    let fresh_turn_context = "<turn-context>\n<current-time>2026-07-13 09:30:00</current-time>\n<working-directory>/new</working-directory>\n</turn-context>";
    let conversation = vec![
        Message::user().with_text(stale_turn_context),
        Message::user().with_text("do some work"),
        Message::assistant().with_text("done"),
        Message::user().with_text(fresh_turn_context),
    ];

    assert_eq!(
        turn_context_text(&conversation).as_deref(),
        Some(fresh_turn_context)
    );
}

#[test]
fn tool_segments_account_for_every_tool_token_exactly() {
    let mut token_counter = TokenCounter::new().unwrap();
    let tools = vec![
        test_tool("alpha__read", "Read a file from disk.", Some("alpha")),
        test_tool("alpha__write", "Write a file to disk.", Some("alpha")),
        test_tool("beta__search", "Search the project tree.", Some("beta")),
        test_tool("orphan", "A tool without an owner.", None),
    ];

    let segments = tool_segments(&tools, &mut token_counter).unwrap();
    let expected_total = token_counter.count_tokens_for_tools(&tools).unwrap() as u64;

    assert_eq!(segments.len(), 3);
    for segment in &segments {
        assert_eq!(segment.category, ContextCategory::ToolDefinitions);
        assert_eq!(
            segment.token_count,
            segment
                .parts
                .iter()
                .map(|part| part.token_count)
                .sum::<u64>()
        );
    }
    let segment_total: u64 = segments.iter().map(|segment| segment.token_count).sum();
    let part_total: u64 = segments
        .iter()
        .flat_map(|segment| &segment.parts)
        .map(|part| part.token_count)
        .sum();
    assert_eq!(segment_total, expected_total);
    assert_eq!(part_total, expected_total);
}

#[test]
fn tool_segments_group_by_owner_in_name_order() {
    let mut token_counter = TokenCounter::new().unwrap();
    let tools = vec![
        test_tool("orphan", "A tool without an owner.", None),
        test_tool("beta__search", "Search the project tree.", Some("beta")),
        test_tool("alpha__read", "Read a file from disk.", Some("alpha")),
        test_tool("alpha__write", "Write a file to disk.", Some("alpha")),
    ];

    let segments = tool_segments(&tools, &mut token_counter).unwrap();
    let labels: Vec<&str> = segments.iter().map(|s| s.label.as_str()).collect();
    assert_eq!(labels, vec!["alpha", "beta", "ungrouped"]);
    assert_eq!(segments[0].source.as_deref(), Some("2 tools"));
    assert_eq!(segments[0].parts[0].label, "alpha__read");
    assert_eq!(segments[0].parts[1].label, "alpha__write");
    assert_eq!(segments[2].parts[0].label, "orphan");
    assert_eq!(
        segments[0].char_count,
        (tools[2].definition_json.chars().count() + tools[3].definition_json.chars().count())
            as u64
    );
}

#[test]
fn tool_segments_of_no_tools_are_empty() {
    let mut token_counter = TokenCounter::new().unwrap();
    assert!(tool_segments(&[], &mut token_counter).unwrap().is_empty());
}

#[test]
fn placeholder_is_not_added_after_a_user_turn() {
    let conversation = vec![
        Message::assistant().with_text("earlier reply"),
        Message::user().with_text("a question"),
    ];
    let (same, added) = with_turn_context_placeholder(conversation.clone());
    assert!(!added);
    assert_eq!(same, conversation);
}

#[test]
fn placeholder_skips_hidden_messages_when_finding_the_last_turn() {
    let mut hidden = Message::user().with_text("hidden note");
    hidden.agent_visible = false;
    let conversation = vec![Message::assistant().with_text("reply"), hidden];
    let (with_placeholder, added) = with_turn_context_placeholder(conversation);
    assert!(added);
    assert_eq!(with_placeholder.len(), 3);
    let last = with_placeholder.last().unwrap();
    assert_eq!(last.role, Role::User);
    assert_eq!(
        last.content,
        vec![MessageContent::Text(TURN_CONTEXT_PLACEHOLDER_TEXT.to_string())]
    );
}

#[test]
fn removing_the_marker_keeps_the_placeholder_and_other_text() {
    let (mut conversation, added) =
        with_turn_context_placeholder(vec![Message::assistant().with_text("reply")]);
    assert!(added);
    let last = conversation.pop().unwrap();
    conversation.push(last.with_text("<turn-context>now</turn-context>"));

    remove_turn_context_placeholder_marker(&mut conversation);

    let placeholder = conversation.last().unwrap();
    assert!(is_turn_context_placeholder(placeholder));
    assert_eq!(
        placeholder.content,
        vec![MessageContent::Text("<turn-context>now</turn-context>".to_string())]
    );
    assert_eq!(conversation[0], Message::assistant().with_text("reply"));
}

#[test]
fn turn_context_text_is_none_without_turn_context() {
    let conversation = vec![Message::user().with_text("<turn context> is not a tag")];
    assert_eq!(turn_context_text(&conversation), None);
}

#[test]
fn message_text_joins_pieces_by_line() {
    let message = Message::assistant()
        .with_text("first")
        .with_content(MessageContent::ToolRequest {
            id: "call_1".to_string(),
            tool_call: Ok(ToolCall {
                name: "shell".to_string(),
                arguments_json: "{\"cmd\":\"ls\"}".to_string(),
            }),
        });
    assert_eq!(message_text(&message), "first\ncall_1:shell:{\"cmd\":\"ls\"}");
}

#[test]
fn messages_are_classified_by_tool_use_then_role() {
    let response = Message::user().with_content(MessageContent::ToolResponse {
        id: "call_1".to_string(),
        tool_result: Ok(vec![ToolResultContent::Text("ok".to_string())]),
    });
    let request = Message::assistant().with_content(MessageContent::ToolRequest {
        id: "call_1".to_string(),
        tool_call: Err("bad arguments".to_string()),
    });
    assert!(MessageKind::classify(&response) == MessageKind::ToolResults);
    assert!(MessageKind::classify(&request) == MessageKind::ToolCalls);
    assert!(MessageKind::classify(&Message::assistant().with_text("hi")) == MessageKind::Assistant);
    assert!(MessageKind::classify(&Message::user().with_text("hi")) == MessageKind::User);
    assert_eq!(MessageKind::ToolResults.label(), "Tool results");
}

#[test]
fn message_segments_group_parts_and_sum_them() {
    let mut token_counter = TokenCounter::new().unwrap();
    let messages = vec![
        Message::user().with_text("hello there"),
        Message::assistant().with_text("general kenobi"),
        Message::user().with_text("again"),
    ];
    let segments = message_segments(&messages, &messages, &mut token_counter).unwrap();
    assert_eq!(segments.len(), 2);
    assert_eq!(segments[0].label, "User messages");
    assert_eq!(segments[0].category, ContextCategory::Messages);
    assert_eq!(segments[0].parts.len(), 2);
    assert_eq!(segments[0].parts[0].label, "#1 user");
    assert_eq!(segments[0].parts[1].label, "#3 user");
    assert_eq!(segments[1].label, "Assistant messages");
    assert_eq!(segments[1].parts[0].label, "#2 assistant");
    assert_eq!(segments[0].char_count, ("hello there".len() + "again".len()) as u64);
    for segment in &segments {
        assert_eq!(
            segment.token_count,
            segment.parts.iter().map(|p| p.token_count).sum::<u64>()
        );
    }
    let counted = token_counter.count_message_tokens(&messages[1]).unwrap() as u64;
    assert_eq!(segments[1].parts[0].token_count, counted);
}

#[test]
fn hint_parts_name_scope_and_path() {
    let mut token_counter = TokenCounter::new().unwrap();
    let sources = vec![
        HintSource {
            scope: HintScope::Global,
            path: "/home/me/.config/goose/AGENTS.md".to_string(),
            content: "global hint content".to_string(),
        },
        HintSource {
            scope: HintScope::Project,
            path: "/work/AGENTS.md".to_string(),
            content: "project hint content".to_string(),
        },
    ];
    let parts = hint_parts(&sources, &mut token_counter).unwrap();
    assert_eq!(parts.len(), 2);
    assert_eq!(parts[0].label, "global");
    assert_eq!(parts[1].label, "project");
    assert_eq!(parts[1].source.as_deref(), Some("/work/AGENTS.md"));
    assert_eq!(parts[1].char_count, 20);
    assert_eq!(parts[1].content_preview.as_deref(), Some("project hint content"));
}

#[test]
fn toolshim_segment_counts_the_appendix() {
    let mut token_counter = TokenCounter::new().unwrap();
    let tools = vec![test_tool("alpha__read", "Read a file from disk.", Some("alpha"))];
    let appendix = "Use the tools below by writing JSON.";
    let segment = toolshim_tool_segment(&tools, appendix, &mut token_counter).unwrap();
    assert_eq!(segment.label, "Toolshim tool instructions");
    assert_eq!(segment.source.as_deref(), Some("1 tools"));
    assert_eq!(segment.char_count, appendix.chars().count() as u64);
    assert_eq!(
        segment.token_count,
        token_counter.count_tokens(appendix).unwrap() as u64
    );
    assert_eq!(segment.parts.len(), 1);
    assert_eq!(
        segment.parts[0].token_count,
        token_counter.count_tokens(&tools[0].definition_json).unwrap() as u64
    );
}

fn segment(tokens: u64) -> ContextSegment {
    ContextSegment {
        category: ContextCategory::Messages,
        label: "User messages".to_string(),
        source: None,
        token_count: tokens,
        char_count: 0,
        content_preview: None,
        parts: Vec::new(),
    }
}

fn model() -> ContextReportModel {
    ContextReportModel {
        provider: "openai".to_string(),
        model_name: "gpt-4o".to_string(),
        context_limit: 128_000,
    }
}

#[test]
fn report_adds_overhead_up_to_the_wire_count() {
    let report = finish_report(model(), vec![segment(10), segment(5)], 20, Some(19));
    assert_eq!(report.segments.len(), 3);
    assert_eq!(report.segments[2].label, "Prompt overhead");
    assert_eq!(report.segments[2].token_count, 5);
    assert_eq!(report.segments[2].category, ContextCategory::SystemPrompt);
    assert_eq!(report.estimated_total_tokens, 20);
    assert_eq!(report.wire_total_tokens, 20);
    assert_eq!(report.live_total_tokens, Some(19));
}

#[test]
fn report_without_overhead_when_segments_cover_the_wire_count() {
    let report = finish_report(model(), vec![segment(10), segment(15)], 20, Some(-1));
    assert_eq!(report.segments.len(), 2);
    assert_eq!(report.estimated_total_tokens, 25);
    assert_eq!(report.live_total_tokens, None);
}

#[test]
fn settling_keeps_placeholder_text_out_of_the_report() {
    let (mut conversation, added) =
        with_turn_context_placeholder(vec![Message::assistant().with_text("reply")]);
    assert!(added);
    let turn = settle_turn_context(&mut conversation, added);
    assert_eq!(turn, None);
    assert_eq!(conversation, vec![Message::assistant().with_text("reply")]);

    let (mut conversation, added) =
        with_turn_context_placeholder(vec![Message::assistant().with_text("reply")]);
    let last = conversation.pop().unwrap();
    conversation.push(last.with_text("<turn-context>t</turn-context>"));
    let turn = settle_turn_context(&mut conversation, added);
    assert_eq!(turn.as_deref(), Some("<turn-context>t</turn-context>"));
    assert_eq!(conversation.len(), 2);
    assert!(is_turn_context_placeholder(&conversation[1]));
    assert_eq!(conversation[1].content.len(), 1);
}

#[test]
fn removing_placeholders_keeps_everything_else() {
    let (mut conversation, _) = with_turn_context_placeholder(vec![
        Message::user().with_text("q"),
        Message::assistant().with_text("a"),
    ]);
    remove_turn_context_placeholders(&mut conversation);
    assert_eq!(
        conversation,
        vec![Message::user().with_text("q"), Message::assistant().with_text("a")]
    );
}

#[test]
fn segments_total_sums_or_reports_overflow() {
    assert_eq!(segments_total(&vec![segment(3), segment(4)]), Some(7));
    assert_eq!(segments_total(&vec![segment(u64::MAX), segment(1)]), None);
}

#[test]
fn budgets_fit_for_ordinary_inputs() {
    let tools = vec![test_tool("alpha__read", "Read a file from disk.", Some("alpha"))];
    assert!(tools_cost_fits(&tools));
    let messages = vec![Message::user().with_text("hello")];
    assert!(message_segments_fit(&messages, &messages));
}

#[test]
fn context_segments_follow_report_order() {
    let mut token_counter = TokenCounter::new().unwrap();
    let mut manager = PromptManager::new();
    manager.set_system_prompt_override(
        "{% for e in extensions %}{{ e.instructions }}{% endfor %}".to_string(),
    );
    manager.add_system_prompt_extra("subdir_hints:/repo/src".to_string(), "use rustfmt".to_string());
    let pieces = manager
        .builder()
        .with_extension(ExtensionInfo::new("dev", "develop things", false))
        .with_hints("global rule".to_string())
        .build_segments(GooseMode::Auto, None);
    let hints = vec![HintSource {
        scope: HintScope::Project,
        path: "/repo/AGENTS.md".to_string(),
        content: "global rule".to_string(),
    }];
    let tools = vec![test_tool("dev__shell", "Run a command.", Some("dev"))];
    let messages = vec![
        Message::user().with_text("hi"),
        Message::assistant().with_text("hello"),
    ];
    let segments = context_segments(
        &pieces,
        &hints,
        &Some("project rules".to_string()),
        &Some("p1".to_string()),
        &Some("<turn-context>now</turn-context>".to_string()),
        false,
        &tools,
        "",
        &messages,
        &messages,
        &mut token_counter,
    )
    .unwrap();
    let labels: Vec<&str> = segments.iter().map(|s| s.label.as_str()).collect();
    assert_eq!(
        labels,
        vec![
            "Base system prompt",
            "dev",
            "subdir_hints:/repo/src",
            "hints",
            "Project instructions",
            "Current turn context",
            "dev",
            "User messages",
            "Assistant messages",
        ]
    );
    assert_eq!(segments[0].source.as_deref(), Some("override"));
    assert_eq!(segments[1].source.as_deref(), Some("extension:dev"));
    assert_eq!(segments[2].source.as_deref(), Some("/repo/src"));
    assert_eq!(segments[3].source, None);
    assert_eq!(segments[3].parts.len(), 1);
    assert_eq!(segments[4].source.as_deref(), Some("project:p1"));
    assert_eq!(segments[5].category, ContextCategory::TurnContext);
    assert_eq!(segments[6].category, ContextCategory::ToolDefinitions);
    assert_eq!(segments[0].content_preview.as_deref(), Some(""));
}

#[test]
fn wire_total_counts_the_request_as_one_chat() {
    let mut token_counter = TokenCounter::new().unwrap();
    let messages = vec![Message::user().with_text("hello world")];
    let tools = vec![test_tool("alpha__read", "Read a file from disk.", Some("alpha"))];
    assert!(chat_budget_fits("system", &messages, &tools));
    let wire = wire_total_tokens("system", &messages, &tools, &mut token_counter).unwrap();
    let chat = token_counter.count_chat_tokens("system", &messages, &tools).unwrap() as u64;
    assert_eq!(wire, chat);
    assert_eq!(
        wire_total_tokens("", &[], &[], &mut token_counter),
        Some(3)
    );
}
