use chat_history::parser::jsonl::{parse_jsonl_line, ParserError, RawContent, RawMessageType};

#[test]
fn test_parse_valid_user_message_string_content() {
    let line = r#"{"type":"user","message":{"content":"Hello, how are you?","role":"user"},"timestamp":"2025-01-15T10:30:00Z","uuid":"abc-123","sessionId":"session-456"}"#;

    let result = parse_jsonl_line(line);
    assert!(result.is_ok(), "Should parse valid user message");

    let msg = result.unwrap();
    assert_eq!(msg.message_type, RawMessageType::User);
    assert_eq!(msg.timestamp, Some("2025-01-15T10:30:00Z".to_string()));
    assert_eq!(msg.uuid, Some("abc-123".to_string()));
    assert_eq!(msg.session_id, Some("session-456".to_string()));
    assert_eq!(msg.message.role, Some("user".to_string()));

    match &msg.message.content {
        RawContent::Text(text) => assert_eq!(text, "Hello, how are you?"),
        RawContent::Blocks(_) => panic!("Expected text content, got blocks"),
    }
}

#[test]
fn test_parse_valid_assistant_message_with_tokens() {
    let line = r#"{"type":"assistant","message":{"content":"I'm doing well, thanks!","role":"assistant"},"timestamp":"2025-01-15T10:30:05Z","tokenCount":{"input":10,"output":25}}"#;

    let result = parse_jsonl_line(line);
    assert!(result.is_ok(), "Should parse valid assistant message");

    let msg = result.unwrap();
    assert_eq!(msg.message_type, RawMessageType::Assistant);

    let tokens = msg.token_count.unwrap();
    assert_eq!(tokens.input, 10);
    assert_eq!(tokens.output, 25);
}

#[test]
fn test_parse_system_message() {
    let line = r#"{"type":"system","message":{"content":"System initialized","role":"system"}}"#;

    let result = parse_jsonl_line(line);
    assert!(result.is_ok(), "Should parse system message");

    let msg = result.unwrap();
    assert_eq!(msg.message_type, RawMessageType::System);
}

#[test]
fn test_parse_array_content_text_block() {
    let line = r#"{"type":"assistant","message":{"content":[{"type":"text","text":"Here is the answer"}],"role":"assistant"}}"#;

    let result = parse_jsonl_line(line);
    assert!(result.is_ok(), "Should parse array content");

    let msg = result.unwrap();
    match &msg.message.content {
        RawContent::Blocks(blocks) => {
            assert_eq!(blocks.len(), 1);
            assert_eq!(blocks[0].block_type, "text");
            assert_eq!(blocks[0].text, Some("Here is the answer".to_string()));
        }
        RawContent::Text(_) => panic!("Expected blocks, got text"),
    }
}

#[test]
fn test_parse_array_content_tool_use() {
    let line = r#"{"type":"assistant","message":{"content":[{"type":"tool_use","name":"read_file","tool_use_id":"toolu_123","input":{"path":"/test.txt"}}],"role":"assistant"}}"#;

    let result = parse_jsonl_line(line);
    assert!(result.is_ok(), "Should parse tool_use content");

    let msg = result.unwrap();
    match &msg.message.content {
        RawContent::Blocks(blocks) => {
            assert_eq!(blocks.len(), 1);
            assert_eq!(blocks[0].block_type, "tool_use");
            assert_eq!(blocks[0].name, Some("read_file".to_string()));
            assert_eq!(blocks[0].tool_use_id, Some("toolu_123".to_string()));
            assert!(blocks[0].input.is_some());
        }
        RawContent::Text(_) => panic!("Expected blocks, got text"),
    }
}

#[test]
fn test_parse_array_content_tool_result() {
    let line = r#"{"type":"user","message":{"content":[{"type":"tool_result","tool_use_id":"toolu_123","content":"File contents here"}],"role":"user"}}"#;

    let result = parse_jsonl_line(line);
    assert!(result.is_ok(), "Should parse tool_result content");

    let msg = result.unwrap();
    match &msg.message.content {
        RawContent::Blocks(blocks) => {
            assert_eq!(blocks.len(), 1);
            assert_eq!(blocks[0].block_type, "tool_result");
            assert_eq!(blocks[0].tool_use_id, Some("toolu_123".to_string()));
        }
        RawContent::Text(_) => panic!("Expected blocks, got text"),
    }
}

#[test]
fn test_parse_mixed_content_blocks() {
    let line = r#"{"type":"assistant","message":{"content":[{"type":"text","text":"Let me read that file"},{"type":"tool_use","name":"read_file","tool_use_id":"toolu_456","input":{}}],"role":"assistant"}}"#;

    let result = parse_jsonl_line(line);
    assert!(result.is_ok(), "Should parse mixed content blocks");

    let msg = result.unwrap();
    match &msg.message.content {
        RawContent::Blocks(blocks) => {
            assert_eq!(blocks.len(), 2);
            assert_eq!(blocks[0].block_type, "text");
            assert_eq!(blocks[1].block_type, "tool_use");
        }
        RawContent::Text(_) => panic!("Expected blocks, got text"),
    }
}

#[test]
fn test_parse_missing_optional_fields() {
    // Only required fields: type and message
    let line = r#"{"type":"user","message":{"content":"Hello"}}"#;

    let result = parse_jsonl_line(line);
    assert!(result.is_ok(), "Should parse with missing optional fields");

    let msg = result.unwrap();
    assert!(msg.timestamp.is_none());
    assert!(msg.uuid.is_none());
    assert!(msg.session_id.is_none());
    assert!(msg.token_count.is_none());
    assert!(msg.message.role.is_none());
}

#[test]
fn test_parse_null_content() {
    let line = r#"{"type":"user","message":{"content":null,"role":"user"}}"#;

    let result = parse_jsonl_line(line);
    assert!(result.is_ok(), "Should handle null content");

    let msg = result.unwrap();
    match &msg.message.content {
        RawContent::Text(text) => assert!(text.is_empty()),
        RawContent::Blocks(_) => panic!("Expected empty text, got blocks"),
    }
}

#[test]
fn test_parse_missing_content() {
    let line = r#"{"type":"user","message":{"role":"user"}}"#;

    let result = parse_jsonl_line(line);
    assert!(result.is_ok(), "Should handle missing content");

    let msg = result.unwrap();
    match &msg.message.content {
        RawContent::Text(text) => assert!(text.is_empty()),
        RawContent::Blocks(_) => panic!("Expected empty text, got blocks"),
    }
}

#[test]
fn test_parse_empty_line() {
    let result = parse_jsonl_line("");
    assert!(result.is_err(), "Should error on empty line");

    match result.unwrap_err() {
        ParserError::MissingField(field) => assert!(field.contains("empty")),
        _ => panic!("Expected MissingField error"),
    }
}

#[test]
fn test_parse_whitespace_line() {
    let result = parse_jsonl_line("   \t\n  ");
    assert!(result.is_err(), "Should error on whitespace-only line");
}

#[test]
fn test_parse_invalid_json() {
    let result = parse_jsonl_line("{not valid json}");
    assert!(result.is_err(), "Should error on invalid JSON");

    match result.unwrap_err() {
        ParserError::JsonParse(_) => {}
        _ => panic!("Expected JsonParse error"),
    }
}

#[test]
fn test_parse_missing_type_field() {
    let line = r#"{"message":{"content":"Hello"}}"#;

    let result = parse_jsonl_line(line);
    assert!(result.is_err(), "Should error when type is missing");

    match result.unwrap_err() {
        ParserError::MissingField(field) => assert_eq!(field, "type"),
        _ => panic!("Expected MissingField error for type"),
    }
}

#[test]
fn test_parse_missing_message_field() {
    let line = r#"{"type":"user"}"#;

    let result = parse_jsonl_line(line);
    assert!(result.is_err(), "Should error when message is missing");

    match result.unwrap_err() {
        ParserError::MissingField(field) => assert_eq!(field, "message"),
        _ => panic!("Expected MissingField error for message"),
    }
}

#[test]
fn test_parse_invalid_type_value() {
    let line = r#"{"type":"unknown","message":{"content":"Hello"}}"#;

    let result = parse_jsonl_line(line);
    assert!(result.is_err(), "Should error on invalid type value");

    match result.unwrap_err() {
        ParserError::InvalidField { field, reason } => {
            assert_eq!(field, "type");
            assert!(reason.contains("unknown"));
        }
        _ => panic!("Expected InvalidField error"),
    }
}

#[test]
fn test_parse_type_not_string() {
    let line = r#"{"type":123,"message":{"content":"Hello"}}"#;

    let result = parse_jsonl_line(line);
    assert!(result.is_err(), "Should error when type is not string");

    match result.unwrap_err() {
        ParserError::InvalidField { field, .. } => assert_eq!(field, "type"),
        _ => panic!("Expected InvalidField error"),
    }
}

#[test]
fn test_parse_invalid_content_type() {
    let line = r#"{"type":"user","message":{"content":123}}"#;

    let result = parse_jsonl_line(line);
    assert!(result.is_err(), "Should error when content is invalid type");

    match result.unwrap_err() {
        ParserError::InvalidField { field, .. } => assert_eq!(field, "message.content"),
        _ => panic!("Expected InvalidField error"),
    }
}

#[test]
fn test_parse_preserves_whitespace_in_content() {
    let line = r#"{"type":"user","message":{"content":"  Hello\n  World  "}}"#;

    let result = parse_jsonl_line(line);
    assert!(result.is_ok());

    let msg = result.unwrap();
    match &msg.message.content {
        RawContent::Text(text) => assert_eq!(text, "  Hello\n  World  "),
        RawContent::Blocks(_) => panic!("Expected text content"),
    }
}

#[test]
fn test_parse_unicode_content() {
    let line = r#"{"type":"user","message":{"content":"你好世界 🌍 émojis"}}"#;

    let result = parse_jsonl_line(line);
    assert!(result.is_ok(), "Should handle unicode content");

    let msg = result.unwrap();
    match &msg.message.content {
        RawContent::Text(text) => {
            assert!(text.contains("你好"));
            assert!(text.contains("🌍"));
        }
        RawContent::Blocks(_) => panic!("Expected text content"),
    }
}

#[test]
fn test_parse_very_long_content() {
    // Test content with very long text (10KB)
    let long_text = "a".repeat(10_000);
    let line = format!(
        r#"{{"type":"user","message":{{"content":"{}"}}}}"#,
        long_text
    );

    let result = parse_jsonl_line(&line);
    assert!(result.is_ok(), "Should handle very long content");

    let msg = result.unwrap();
    match &msg.message.content {
        RawContent::Text(text) => assert_eq!(text.len(), 10_000),
        _ => panic!("Expected text content"),
    }
}

#[test]
fn test_parse_special_characters_in_session_id() {
    let line = r#"{"type":"user","message":{"content":"Test"},"sessionId":"session/with\\special\"chars:123"}"#;

    let result = parse_jsonl_line(line);
    assert!(result.is_ok(), "Should handle special characters in sessionId");

    let msg = result.unwrap();
    assert_eq!(
        msg.session_id,
        Some(r#"session/with\special"chars:123"#.to_string())
    );
}

#[test]
fn test_parse_empty_content_array() {
    let line = r#"{"type":"assistant","message":{"content":[],"role":"assistant"}}"#;

    let result = parse_jsonl_line(line);
    assert!(result.is_ok(), "Should handle empty content array");

    let msg = result.unwrap();
    match &msg.message.content {
        RawContent::Blocks(blocks) => assert!(blocks.is_empty()),
        _ => panic!("Expected empty blocks"),
    }
}

#[test]
fn test_parse_content_with_escaped_characters() {
    let line = r#"{"type":"user","message":{"content":"Line1\nLine2\tTabbed\r\nWindows"}}"#;

    let result = parse_jsonl_line(line);
    assert!(result.is_ok(), "Should handle escaped characters");

    let msg = result.unwrap();
    match &msg.message.content {
        RawContent::Text(text) => {
            assert!(text.contains('\n'));
            assert!(text.contains('\t'));
            assert!(text.contains("\r\n"));
        }
        _ => panic!("Expected text content"),
    }
}

#[test]
fn test_parse_zero_token_counts() {
    let line = r#"{"type":"assistant","message":{"content":"Test"},"tokenCount":{"input":0,"output":0}}"#;

    let result = parse_jsonl_line(line);
    assert!(result.is_ok());

    let msg = result.unwrap();
    let tokens = msg.token_count.unwrap();
    assert_eq!(tokens.input, 0);
    assert_eq!(tokens.output, 0);
}

#[test]
fn test_parse_negative_token_counts() {
    // While negative tokens don't make sense, parser should handle them gracefully
    let line = r#"{"type":"assistant","message":{"content":"Test"},"tokenCount":{"input":-5,"output":-10}}"#;

    let result = parse_jsonl_line(line);
    assert!(result.is_ok());

    let msg = result.unwrap();
    let tokens = msg.token_count.unwrap();
    assert_eq!(tokens.input, -5);
    assert_eq!(tokens.output, -10);
}

#[test]
fn test_parse_extra_fields_ignored() {
    // JSON with extra unexpected fields should still parse
    let line = r#"{"type":"user","message":{"content":"Test","extraField":"ignored"},"unknownField":123,"nested":{"a":1}}"#;

    let result = parse_jsonl_line(line);
    assert!(result.is_ok(), "Should ignore extra fields");

    let msg = result.unwrap();
    assert_eq!(msg.message_type, RawMessageType::User);
}

#[test]
fn test_parse_message_type_case_sensitive() {
    // Type should be lowercase
    let line_upper = r#"{"type":"USER","message":{"content":"Test"}}"#;
    let result = parse_jsonl_line(line_upper);
    assert!(result.is_err(), "Should reject uppercase type");

    let line_mixed = r#"{"type":"User","message":{"content":"Test"}}"#;
    let result = parse_jsonl_line(line_mixed);
    assert!(result.is_err(), "Should reject mixed case type");
}

#[test]
fn test_parse_content_block_with_null_fields() {
    let line = r#"{"type":"assistant","message":{"content":[{"type":"text","text":"Hello","name":null,"input":null}],"role":"assistant"}}"#;

    let result = parse_jsonl_line(line);
    assert!(result.is_ok(), "Should handle null optional fields in content blocks");

    let msg = result.unwrap();
    match &msg.message.content {
        RawContent::Blocks(blocks) => {
            assert_eq!(blocks.len(), 1);
            assert_eq!(blocks[0].block_type, "text");
            assert!(blocks[0].name.is_none());
            assert!(blocks[0].input.is_none());
        }
        _ => panic!("Expected blocks content"),
    }
}
#[test]
fn test_deeply_nested_json_in_tool_input() {
    let line = r#"{"type":"assistant","message":{"content":[{"type":"tool_use","name":"complex_tool","tool_use_id":"toolu_deep","input":{"level1":{"level2":{"level3":{"level4":{"value":"deep"}}}}}}],"role":"assistant"}}"#;

    let result = parse_jsonl_line(line);
    assert!(result.is_ok(), "Should handle deeply nested JSON in tool input");

    let msg = result.unwrap();
    match &msg.message.content {
        RawContent::Blocks(blocks) => {
            assert_eq!(blocks[0].block_type, "tool_use");
            let input = blocks[0].input.as_ref().unwrap();
            let value = input
                .get("level1")
                .and_then(|v| v.get("level2"))
                .and_then(|v| v.get("level3"))
                .and_then(|v| v.get("level4"))
                .and_then(|v| v.get("value"))
                .and_then(|v| v.as_str());
            assert!(value == Some("deep"));
        }
        _ => panic!("Expected blocks content"),
    }
}

#[test]
fn test_tool_result_with_json_content() {
    let line = r#"{"type":"user","message":{"content":[{"type":"tool_result","tool_use_id":"toolu_json","content":{"data":[1,2,3],"status":"ok"}}],"role":"user"}}"#;

    let result = parse_jsonl_line(line);
    assert!(result.is_ok(), "Should handle JSON object as tool_result content");

    let msg = result.unwrap();
    match &msg.message.content {
        RawContent::Blocks(blocks) => {
            assert_eq!(blocks[0].block_type, "tool_result");
            let content = blocks[0].content.as_ref().unwrap();
            assert!(content.get("data").unwrap().as_array().is_some());
        }
        _ => panic!("Expected blocks content"),
    }
}

#[test]
fn token_count_that_is_no_object_counts_as_zero() {
    let line = r#"{"type":"user","message":{"content":"x"},"tokenCount":"many"}"#;
    let msg = parse_jsonl_line(line).unwrap();
    let tokens = msg.token_count.unwrap();
    assert_eq!((tokens.input, tokens.output), (0, 0));
}

#[test]
fn token_count_with_a_bad_member_counts_as_zero() {
    let line = r#"{"type":"user","message":{"content":"x"},"tokenCount":{"input":7,"output":"x"}}"#;
    let msg = parse_jsonl_line(line).unwrap();
    let tokens = msg.token_count.unwrap();
    assert_eq!((tokens.input, tokens.output), (0, 0));
}

#[test]
fn token_count_above_the_integer_range_counts_as_zero() {
    let line = r#"{"type":"user","message":{"content":"x"},"tokenCount":{"input":18446744073709551615,"output":1}}"#;
    let msg = parse_jsonl_line(line).unwrap();
    let tokens = msg.token_count.unwrap();
    assert_eq!((tokens.input, tokens.output), (0, 0));
}

#[test]
fn token_count_with_one_member_defaults_the_other() {
    let line = r#"{"type":"user","message":{"content":"x"},"tokenCount":{"output":3}}"#;
    let msg = parse_jsonl_line(line).unwrap();
    let tokens = msg.token_count.unwrap();
    assert_eq!((tokens.input, tokens.output), (0, 3));
}

#[test]
fn malformed_content_block_is_a_json_fault() {
    let line = r#"{"type":"user","message":{"content":[{"text":"no type"}]}}"#;
    match parse_jsonl_line(line).unwrap_err() {
        ParserError::JsonParse(text) => assert_eq!(text, "invalid content block"),
        other => panic!("Expected JsonParse error, got {:?}", other),
    }
    let line = r#"{"type":"user","message":{"content":[{"type":"text","text":5}]}}"#;
    assert!(matches!(parse_jsonl_line(line), Err(ParserError::JsonParse(_))));
    let line = r#"{"type":"user","message":{"content":["text"]}}"#;
    assert!(matches!(parse_jsonl_line(line), Err(ParserError::JsonParse(_))));
}

#[test]
fn unknown_type_is_named_in_the_fault() {
    let line = r#"{"type":"robot","message":{"content":"x"}}"#;
    match parse_jsonl_line(line).unwrap_err() {
        ParserError::InvalidField { field, reason } => {
            assert_eq!(field, "type");
            assert_eq!(reason, "unknown message type: robot");
        }
        other => panic!("Expected InvalidField error, got {:?}", other),
    }
}

#[test]
fn type_is_checked_before_message() {
    let line = r#"{"type":7}"#;
    assert!(matches!(
        parse_jsonl_line(line),
        Err(ParserError::InvalidField { .. })
    ));
    let line = r#"[1, 2]"#;
    match parse_jsonl_line(line).unwrap_err() {
        ParserError::MissingField(field) => assert_eq!(field, "type"),
        other => panic!("Expected MissingField error, got {:?}", other),
    }
}

#[test]
fn line_is_trimmed_before_it_is_read() {
    let line = "  \t{\"type\":\"user\",\"message\":{\"content\":\"x\"}}  \r";
    let msg = parse_jsonl_line(line).unwrap();
    assert_eq!(msg.message_type, RawMessageType::User);
}

#[test]
fn non_string_timestamp_is_no_timestamp() {
    let line = r#"{"type":"user","message":{"content":"x"},"timestamp":12,"uuid":null,"sessionId":["a"]}"#;
    let msg = parse_jsonl_line(line).unwrap();
    assert!(msg.timestamp.is_none());
    assert!(msg.uuid.is_none());
    assert!(msg.session_id.is_none());
}
