use goose::message::{message_content_token_text, Message, MessageContent, ToolResultContent};
use goose::token_counter::{create_token_counter, TokenCounter, ToolSpec, MAX_TOKEN_CACHE_SIZE};

#[test]
fn test_token_caching() {
    let mut counter = create_token_counter().unwrap();

    let text = "This is a test for caching functionality";

    let count1 = counter.count_tokens(text).unwrap();
    assert_eq!(counter.cache_size(), 1);

    let count2 = counter.count_tokens(text).unwrap();
    assert_eq!(count1, count2);
    assert_eq!(counter.cache_size(), 1);

    let count3 = counter.count_tokens("Different text").unwrap();
    assert_eq!(counter.cache_size(), 2);
    assert_ne!(count1, count3);
}

#[test]
fn test_cache_management() {
    let mut counter = create_token_counter().unwrap();

    counter.count_tokens("First text");
    counter.count_tokens("Second text");
    counter.count_tokens("Third text");

    assert_eq!(counter.cache_size(), 3);

    counter.clear_cache();
    assert_eq!(counter.cache_size(), 0);

    let count = counter.count_tokens("First text").unwrap();
    assert!(count > 0);
    assert_eq!(counter.cache_size(), 1);
}

#[test]
fn test_concurrent_token_counter_creation() {
    let mut counters: Vec<TokenCounter> = (0..10).map(|_| create_token_counter().unwrap()).collect();

    let text = "Test concurrent creation";
    let expected_count = counters[0].count_tokens(text).unwrap();

    for counter in counters.iter_mut() {
        assert_eq!(counter.count_tokens(text).unwrap(), expected_count);
    }
}

#[test]
fn test_cache_eviction_behavior() {
    let mut counter = create_token_counter().unwrap();

    let mut cached_texts = Vec::new();
    for i in 0..=MAX_TOKEN_CACHE_SIZE {
        let text = format!("Test string number {}", i);
        counter.count_tokens(&text);
        cached_texts.push(text);
    }

    assert_eq!(counter.cache_size(), MAX_TOKEN_CACHE_SIZE);

    let recent_text = &cached_texts[cached_texts.len() - 1];
    let start_size = counter.cache_size();

    counter.count_tokens(recent_text);
    assert_eq!(counter.cache_size(), start_size);
}

#[test]
fn test_concurrent_cache_operations() {
    let mut counter = create_token_counter().unwrap();

    let results: Vec<usize> = (0..20)
        .map(|i| {
            let text = format!("Concurrent test {}", i % 5);
            counter.count_tokens(&text).unwrap()
        })
        .collect();

    for result in results {
        assert!(result > 0);
    }

    assert!(counter.cache_size() > 0);
    assert!(counter.cache_size() <= MAX_TOKEN_CACHE_SIZE);
}

#[test]
fn test_message_accounting_includes_non_text_provider_content() {
    let mut counter = create_token_counter().unwrap();
    let message = Message::user()
        .with_content(MessageContent::Image {
            mime_type: "image/png".to_string(),
            data: "iVBORw0KGgo=".to_string(),
        })
        .with_content(MessageContent::Thinking {
            thinking: "reasoning text".to_string(),
            signature: "signature".to_string(),
        })
        .with_content(MessageContent::ToolResponse {
            id: "call_1".to_string(),
            tool_result: Err("tool failed".to_string()),
        });

    assert!(counter.count_message_tokens(&message).unwrap() > 4);
    assert!(message_content_token_text(&message.content[0])
        .unwrap()
        .contains("image/png"));
    assert_eq!(
        message_content_token_text(&message.content[1]).unwrap(),
        "reasoning text"
    );
    assert!(message_content_token_text(&message.content[2])
        .unwrap()
        .contains("tool failed"));
}

#[test]
fn known_text_has_known_token_count() {
    let mut counter = TokenCounter::new().unwrap();
    assert_eq!(counter.count_tokens("hello world"), Some(2));
    assert_eq!(counter.count_tokens(""), Some(0));
}

#[test]
fn cached_count_matches_a_fresh_count() {
    let mut warm = TokenCounter::new().unwrap();
    let text = "The quick brown fox jumps over the lazy dog.";
    let first = warm.count_tokens(text).unwrap();
    let again = warm.count_tokens(text).unwrap();
    let mut cold = TokenCounter::new().unwrap();
    assert_eq!(first, again);
    assert_eq!(cold.count_tokens(text).unwrap(), first);
}

#[test]
fn image_and_tool_results_have_descriptive_texts() {
    let image = MessageContent::Image {
        mime_type: "image/png".to_string(),
        data: "iVBORw0KGgo=".to_string(),
    };
    assert_eq!(
        message_content_token_text(&image).unwrap(),
        "[image: image/png, 12 base64 chars]"
    );
    let empty = MessageContent::ToolResponse { id: "c".to_string(), tool_result: Ok(Vec::new()) };
    assert_eq!(message_content_token_text(&empty).unwrap(), "[tool result]");
    let items = MessageContent::ToolResponse {
        id: "c".to_string(),
        tool_result: Ok(vec![
            ToolResultContent::Text("a".to_string()),
            ToolResultContent::ResourceLink,
        ]),
    };
    assert_eq!(message_content_token_text(&items).unwrap(), "a\n[resource link]");
    let failed = MessageContent::ToolResponse {
        id: "call_1".to_string(),
        tool_result: Err("tool failed".to_string()),
    };
    assert_eq!(
        message_content_token_text(&failed).unwrap(),
        "[tool result error: call_1] tool failed"
    );
}

#[test]
fn hidden_messages_count_nothing() {
    let mut counter = TokenCounter::new().unwrap();
    let mut message = Message::user().with_text("secret");
    message.agent_visible = false;
    assert_eq!(counter.count_message_tokens(&message), Some(0));
    let visible = Message::user().with_text("hello world");
    assert_eq!(counter.count_message_tokens(&visible), Some(4 + 2));
}

#[test]
fn chat_count_frames_prompt_messages_and_tools() {
    let mut counter = TokenCounter::new().unwrap();
    let messages = vec![Message::user().with_text("hello world")];
    let tools: Vec<ToolSpec> = Vec::new();
    let prompt = counter.count_tokens("hello world").unwrap();
    let message = counter.count_message_tokens(&messages[0]).unwrap();
    let total = counter.count_chat_tokens("hello world", &messages, &tools).unwrap();
    assert_eq!(total, prompt + 4 + message + 3);
    assert_eq!(counter.count_chat_tokens("", &[], &tools), Some(3));
    let everything = counter.count_everything(
        "hello world",
        &messages,
        &tools,
        &["hello world".to_string()],
    );
    assert_eq!(everything, Some(total + prompt));
}

#[test]
fn tools_count_framing_per_tool_and_list() {
    let mut counter = TokenCounter::new().unwrap();
    let tool = ToolSpec {
        name: "read".to_string(),
        description: Some("Read a file".to_string()),
        properties: None,
        owner: None,
        definition_json: "{}".to_string(),
    };
    let line = counter.count_tokens("read:Read a file").unwrap();
    assert_eq!(counter.count_tokens_for_tools(&[]), Some(0));
    assert_eq!(counter.count_tokens_for_tools(&[tool.clone()]), Some(7 + line + 12));
    assert_eq!(
        counter.count_tokens_for_tools(&[tool.clone(), tool]),
        Some(2 * (7 + line) + 12)
    );
}

fn plain_tool(name: &str, description: &str) -> ToolSpec {
    ToolSpec {
        name: name.to_string(),
        description: Some(description.to_string()),
        properties: None,
        owner: None,
        definition_json: "{}".to_string(),
    }
}

#[test]
fn tool_lists_count_additively_less_one_closing() {
    let mut counter = TokenCounter::new().unwrap();
    let a = vec![plain_tool("read", "Read a file"), plain_tool("write", "Write a file")];
    let b = vec![plain_tool("search", "Search the tree")];
    let both: Vec<ToolSpec> = a.iter().chain(b.iter()).cloned().collect();
    let total = counter.count_tokens_for_tools(&both).unwrap();
    let ca = counter.count_tokens_for_tools(&a).unwrap();
    let cb = counter.count_tokens_for_tools(&b).unwrap();
    assert_eq!(total + 12, ca + cb);
    assert!(total >= ca + 7);
}

#[test]
fn tool_count_ignores_order_and_ending_periods() {
    let mut counter = TokenCounter::new().unwrap();
    let tools = vec![plain_tool("read", "Read a file..."), plain_tool("write", "Write a file")];
    let swapped = vec![tools[1].clone(), tools[0].clone()];
    let trimmed = vec![plain_tool("read", "Read a file"), tools[1].clone()];
    let count = counter.count_tokens_for_tools(&tools);
    assert_eq!(counter.count_tokens_for_tools(&swapped), count);
    assert_eq!(counter.count_tokens_for_tools(&trimmed), count);
}

#[test]
fn a_text_that_is_not_empty_has_a_token() {
    let mut counter = TokenCounter::new().unwrap();
    assert!(counter.count_tokens("x").unwrap() >= 1);
    assert!(counter.count_tokens("   ").unwrap() >= 1);
}
