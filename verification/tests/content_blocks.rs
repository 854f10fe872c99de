use chat_history::json::{JsonNumber, JsonValue};
use chat_history::models::ContentBlockType;
use chat_history::parser::content::{parse_block_array, parse_content_blocks};
use chat_history::parser::jsonl::{parse_jsonl_line, RawContent, RawContentBlock};

/// A JSON string.
fn text(value: &str) -> JsonValue {
    JsonValue::String(value.to_string())
}

/// A JSON integer.
fn number(value: i64) -> JsonValue {
    JsonValue::Number(JsonNumber::Int(value))
}

/// A JSON object with the given members.
fn object(members: Vec<(&str, JsonValue)>) -> JsonValue {
    JsonValue::Object(members.into_iter().map(|(key, value)| (key.to_string(), value)).collect())
}

#[test]
fn test_parse_text_block() {
    let raw_blocks = vec![RawContentBlock {
        block_type: "text".to_string(),
        text: Some("Hello world".to_string()),
        name: None,
        input: None,
        tool_use_id: None,
        content: None,
    }];

    let blocks = parse_block_array(&raw_blocks);
    assert_eq!(blocks.len(), 1);
    assert_eq!(blocks[0].block_type, ContentBlockType::Text);
    assert_eq!(blocks[0].content, "Hello world");
}

#[test]
fn test_parse_tool_use_block() {
    let raw_blocks = vec![RawContentBlock {
        block_type: "tool_use".to_string(),
        text: None,
        name: Some("read_file".to_string()),
        input: Some(object(vec![("path", text("/test.txt"))])),
        tool_use_id: Some("toolu_123".to_string()),
        content: None,
    }];

    let blocks = parse_block_array(&raw_blocks);
    assert_eq!(blocks.len(), 1);
    assert_eq!(blocks[0].block_type, ContentBlockType::ToolUse);
    assert_eq!(blocks[0].tool_name, Some("read_file".to_string()));
    assert!(blocks[0].content.contains("path"));
}

#[test]
fn test_parse_tool_result_block() {
    let raw_blocks = vec![RawContentBlock {
        block_type: "tool_result".to_string(),
        text: None,
        name: None,
        input: None,
        tool_use_id: Some("toolu_123".to_string()),
        content: Some(text("File contents here")),
    }];

    let blocks = parse_block_array(&raw_blocks);
    assert_eq!(blocks.len(), 1);
    assert_eq!(blocks[0].block_type, ContentBlockType::ToolResult);
    assert_eq!(blocks[0].tool_name, Some("toolu_123".to_string()));
    assert_eq!(blocks[0].content, "File contents here");
}

#[test]
fn test_parse_mixed_blocks() {
    let raw_blocks = vec![
        RawContentBlock {
            block_type: "text".to_string(),
            text: Some("Let me read that file".to_string()),
            name: None,
            input: None,
            tool_use_id: None,
            content: None,
        },
        RawContentBlock {
            block_type: "tool_use".to_string(),
            text: None,
            name: Some("read_file".to_string()),
            input: Some(object(vec![("path", text("/test.txt"))])),
            tool_use_id: Some("toolu_456".to_string()),
            content: None,
        },
    ];

    let blocks = parse_block_array(&raw_blocks);
    assert_eq!(blocks.len(), 2);
    assert_eq!(blocks[0].block_type, ContentBlockType::Text);
    assert_eq!(blocks[1].block_type, ContentBlockType::ToolUse);
}

#[test]
fn test_parse_text_block_with_code_fence() {
    let raw_blocks = vec![RawContentBlock {
        block_type: "text".to_string(),
        text: Some("Here's code:\n```rust\nfn test() {}\n```".to_string()),
        name: None,
        input: None,
        tool_use_id: None,
        content: None,
    }];

    let blocks = parse_block_array(&raw_blocks);
    assert_eq!(blocks.len(), 2);
    assert_eq!(blocks[0].block_type, ContentBlockType::Text);
    assert_eq!(blocks[1].block_type, ContentBlockType::Code);
    assert_eq!(blocks[1].language, Some("rust".to_string()));
}

#[test]
fn test_parse_content_blocks_text() {
    let raw = RawContent::Text("Simple text".to_string());
    let blocks = parse_content_blocks(&raw);

    assert_eq!(blocks.len(), 1);
    assert_eq!(blocks[0].block_type, ContentBlockType::Text);
}

#[test]
fn test_parse_content_blocks_array() {
    let raw = RawContent::Blocks(vec![RawContentBlock {
        block_type: "text".to_string(),
        text: Some("From array".to_string()),
        name: None,
        input: None,
        tool_use_id: None,
        content: None,
    }]);

    let blocks = parse_content_blocks(&raw);
    assert_eq!(blocks.len(), 1);
    assert_eq!(blocks[0].content, "From array");
}

#[test]
fn test_tool_use_with_empty_input() {
    let raw_blocks = vec![RawContentBlock {
        block_type: "tool_use".to_string(),
        text: None,
        name: Some("empty_tool".to_string()),
        input: Some(object(vec![])),
        tool_use_id: Some("toolu_empty".to_string()),
        content: None,
    }];

    let blocks = parse_block_array(&raw_blocks);
    assert_eq!(blocks.len(), 1);
    assert_eq!(blocks[0].block_type, ContentBlockType::ToolUse);
    assert_eq!(blocks[0].content, "{}");
}

#[test]
fn test_tool_use_with_no_input() {
    let raw_blocks = vec![RawContentBlock {
        block_type: "tool_use".to_string(),
        text: None,
        name: Some("no_input_tool".to_string()),
        input: None,
        tool_use_id: Some("toolu_noinput".to_string()),
        content: None,
    }];

    let blocks = parse_block_array(&raw_blocks);
    assert_eq!(blocks.len(), 1);
    assert_eq!(blocks[0].block_type, ContentBlockType::ToolUse);
    assert!(blocks[0].content.is_empty());
}

#[test]
fn test_tool_result_with_empty_content() {
    let raw_blocks = vec![RawContentBlock {
        block_type: "tool_result".to_string(),
        text: None,
        name: None,
        input: None,
        tool_use_id: Some("toolu_result".to_string()),
        content: None,
    }];

    let blocks = parse_block_array(&raw_blocks);
    assert_eq!(blocks.len(), 1);
    assert_eq!(blocks[0].block_type, ContentBlockType::ToolResult);
    assert!(blocks[0].content.is_empty());
}

#[test]
fn test_tool_result_with_array_content() {
    let raw_blocks = vec![RawContentBlock {
        block_type: "tool_result".to_string(),
        text: None,
        name: None,
        input: None,
        tool_use_id: Some("toolu_arr".to_string()),
        content: Some(JsonValue::Array(vec![text("item1"), text("item2"), text("item3")])),
    }];

    let blocks = parse_block_array(&raw_blocks);
    assert_eq!(blocks.len(), 1);
    assert_eq!(blocks[0].block_type, ContentBlockType::ToolResult);
    assert!(blocks[0].content.contains("item1"));
    assert!(blocks[0].content.contains("item2"));
}

#[test]
fn test_unknown_block_type_with_text() {
    let raw_blocks = vec![RawContentBlock {
        block_type: "unknown_type".to_string(),
        text: Some("Fallback text".to_string()),
        name: None,
        input: None,
        tool_use_id: None,
        content: None,
    }];

    let blocks = parse_block_array(&raw_blocks);
    assert_eq!(blocks.len(), 1);
    assert_eq!(blocks[0].block_type, ContentBlockType::Text);
    assert_eq!(blocks[0].content, "Fallback text");
}

#[test]
fn test_unknown_block_type_without_text() {
    let raw_blocks = vec![RawContentBlock {
        block_type: "unknown_type".to_string(),
        text: None,
        name: None,
        input: None,
        tool_use_id: None,
        content: None,
    }];

    let blocks = parse_block_array(&raw_blocks);
    assert!(blocks.is_empty(), "Unknown type without text should produce no block");
}

#[test]
fn test_text_block_with_empty_text() {
    let raw_blocks = vec![RawContentBlock {
        block_type: "text".to_string(),
        text: Some(String::new()),
        name: None,
        input: None,
        tool_use_id: None,
        content: None,
    }];

    let blocks = parse_block_array(&raw_blocks);
    assert!(blocks.is_empty(), "Empty text block should produce no output");
}

#[test]
fn test_parse_tool_use_with_complex_input() {
    let raw_blocks = vec![RawContentBlock {
        block_type: "tool_use".to_string(),
        text: None,
        name: Some("complex_tool".to_string()),
        input: Some(object(vec![
            ("string", text("value")),
            ("number", number(42)),
            ("boolean", JsonValue::Bool(true)),
            ("null", JsonValue::Null),
            ("array", JsonValue::Array(vec![number(1), number(2), number(3)])),
            (
                "nested",
                object(vec![("deep", object(vec![("value", text("found"))]))]),
            ),
        ])),
        tool_use_id: Some("toolu_complex".to_string()),
        content: None,
    }];

    let blocks = parse_block_array(&raw_blocks);
    assert_eq!(blocks.len(), 1);
    assert_eq!(blocks[0].block_type, ContentBlockType::ToolUse);
    // JSON should be pretty-printed
    assert!(blocks[0].content.contains("\"string\": \"value\""));
    assert!(blocks[0].content.contains("\"number\": 42"));
    assert!(blocks[0].content.contains("\"deep\""));
}

#[test]
fn of_two_members_with_one_name_the_last_counts() {
    let value = object(vec![("path", text("first")), ("mode", text("r")), ("path", text("last"))]);
    assert_eq!(value.get("path").and_then(|found| found.as_str()), Some("last"));
    assert_eq!(value.get("mode").and_then(|found| found.as_str()), Some("r"));
    assert!(value.get("other").is_none());
    assert!(text("path").get("path").is_none());

    // The text written for the object agrees with the lookup.
    let block = RawContentBlock {
        block_type: "tool_use".to_string(),
        text: None,
        name: Some("Read".to_string()),
        input: Some(value),
        tool_use_id: None,
        content: None,
    };
    let blocks = parse_block_array(&[block]);
    assert_eq!(blocks.len(), 1);
    assert!(blocks[0].content.contains("\"path\": \"last\""));
    assert!(!blocks[0].content.contains("first"));
}

#[test]
fn duplicate_names_in_a_line_keep_the_last_value() {
    let line = r#"{"type":"user","message":{"content":"old","content":"new"}}"#;
    let record = parse_jsonl_line(line).unwrap();
    assert_eq!(record.message.content, RawContent::Text("new".to_string()));
}
