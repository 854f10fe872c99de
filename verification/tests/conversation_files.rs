use chat_history::parser::conversation::{
    calculate_total_tokens, extract_project_info, generate_conversation_id,
    parse_conversation_file, ParsedConversation,
};
use chat_history::parser::jsonl::{
    ParserError, RawContent, RawInnerMessage, RawMessage, RawMessageType, RawTokenCount,
};

/// Parses `content` as the lines of the file at `path`.
fn parse_file_text(path: &str, content: &str) -> Result<Vec<ParsedConversation>, ParserError> {
    let lines: Vec<String> = content.lines().map(|line| line.to_string()).collect();
    Ok(parse_conversation_file(path, &lines))
}

#[test]
fn test_parse_conversation_file_single_session() {
    let file_path = "/tmp/logs/project-hash/session.jsonl";

    let content = r#"{"type":"user","message":{"content":"Hello"},"timestamp":"2025-01-15T10:00:00Z","sessionId":"session-1"}
{"type":"assistant","message":{"content":"Hi there!"},"timestamp":"2025-01-15T10:00:05Z","sessionId":"session-1","tokenCount":{"input":5,"output":10}}"#;

    let result = parse_file_text(file_path, content);
    assert!(result.is_ok(), "Should parse conversation file");

    let conversations = result.unwrap();
    assert_eq!(conversations.len(), 1, "Should have 1 conversation");

    let conv = &conversations[0];
    assert_eq!(conv.session_id, "session-1");
    assert_eq!(conv.messages.len(), 2);
    assert_eq!(conv.start_time, "2025-01-15T10:00:00Z");
    assert_eq!(conv.last_time, "2025-01-15T10:00:05Z");
    assert_eq!(conv.total_input_tokens, 5);
    assert_eq!(conv.total_output_tokens, 10);
}

#[test]
fn test_parse_conversation_file_multiple_sessions() {
    let file_path = "/tmp/logs/project-hash/multi.jsonl";

    let content = r#"{"type":"user","message":{"content":"First session"},"timestamp":"2025-01-15T09:00:00Z","sessionId":"session-A"}
{"type":"user","message":{"content":"Second session"},"timestamp":"2025-01-15T10:00:00Z","sessionId":"session-B"}
{"type":"assistant","message":{"content":"Reply A"},"timestamp":"2025-01-15T09:00:05Z","sessionId":"session-A"}
{"type":"assistant","message":{"content":"Reply B"},"timestamp":"2025-01-15T10:00:05Z","sessionId":"session-B"}"#;

    let result = parse_file_text(file_path, content);
    assert!(result.is_ok());

    let conversations = result.unwrap();
    assert_eq!(conversations.len(), 2, "Should have 2 conversations");

    // Should be sorted by start_time (newest first)
    assert_eq!(conversations[0].session_id, "session-B");
    assert_eq!(conversations[1].session_id, "session-A");

    // Each conversation should have 2 messages
    assert_eq!(conversations[0].messages.len(), 2);
    assert_eq!(conversations[1].messages.len(), 2);
}

#[test]
fn test_parse_conversation_file_empty_file() {
    let file_path = "/tmp/logs/empty.jsonl";

    let content = "";

    let result = parse_file_text(file_path, content);
    assert!(result.is_ok(), "Should handle empty file gracefully");

    let conversations = result.unwrap();
    assert!(conversations.is_empty(), "Empty file should return no conversations");
}

#[test]
fn test_parse_conversation_file_with_empty_lines() {
    let file_path = "/tmp/logs/with-blanks.jsonl";

    let content = r#"{"type":"user","message":{"content":"Hello"},"sessionId":"s1"}

{"type":"assistant","message":{"content":"Hi"},"sessionId":"s1"}

"#;

    let result = parse_file_text(file_path, content);
    assert!(result.is_ok(), "Should skip empty lines");

    let conversations = result.unwrap();
    assert_eq!(conversations.len(), 1);
    assert_eq!(conversations[0].messages.len(), 2);
}

#[test]
fn test_parse_conversation_file_with_malformed_lines() {
    let file_path = "/tmp/logs/malformed.jsonl";

    let content = r#"{"type":"user","message":{"content":"Valid"},"sessionId":"s1"}
{invalid json here}
{"type":"assistant","message":{"content":"Also valid"},"sessionId":"s1"}"#;

    let result = parse_file_text(file_path, content);
    assert!(result.is_ok(), "Should skip malformed lines");

    let conversations = result.unwrap();
    assert_eq!(conversations.len(), 1);
    assert_eq!(
        conversations[0].messages.len(),
        2,
        "Should have 2 valid messages"
    );
}

#[test]
fn test_parse_conversation_file_no_session_id() {
    let file_path = "/tmp/logs/no-session.jsonl";

    let content = r#"{"type":"user","message":{"content":"No session ID"}}
{"type":"assistant","message":{"content":"Reply"}}"#;

    let result = parse_file_text(file_path, content);
    assert!(result.is_ok());

    let conversations = result.unwrap();
    assert_eq!(conversations.len(), 1);
    assert_eq!(
        conversations[0].session_id, "default",
        "Should use 'default' session ID"
    );
}

#[test]
fn test_parse_conversation_file_token_aggregation() {
    let file_path = "/tmp/logs/tokens.jsonl";

    let content = r#"{"type":"user","message":{"content":"Q1"},"sessionId":"s1","tokenCount":{"input":10,"output":0}}
{"type":"assistant","message":{"content":"A1"},"sessionId":"s1","tokenCount":{"input":0,"output":20}}
{"type":"user","message":{"content":"Q2"},"sessionId":"s1","tokenCount":{"input":15,"output":0}}
{"type":"assistant","message":{"content":"A2"},"sessionId":"s1","tokenCount":{"input":0,"output":30}}"#;

    let result = parse_file_text(file_path, content);
    assert!(result.is_ok());

    let conversations = result.unwrap();
    assert_eq!(conversations[0].total_input_tokens, 25);
    assert_eq!(conversations[0].total_output_tokens, 50);
}

#[test]
fn test_parse_conversation_file_messages_sorted_by_timestamp() {
    let file_path = "/tmp/logs/unsorted.jsonl";

    // Messages in file are out of order
    let content = r#"{"type":"assistant","message":{"content":"Third"},"timestamp":"2025-01-15T10:02:00Z","sessionId":"s1"}
{"type":"user","message":{"content":"First"},"timestamp":"2025-01-15T10:00:00Z","sessionId":"s1"}
{"type":"user","message":{"content":"Second"},"timestamp":"2025-01-15T10:01:00Z","sessionId":"s1"}"#;

    let result = parse_file_text(file_path, content);
    assert!(result.is_ok());

    let conversations = result.unwrap();
    let msgs = &conversations[0].messages;

    // Should be sorted chronologically
    assert_eq!(msgs[0].timestamp, Some("2025-01-15T10:00:00Z".to_string()));
    assert_eq!(msgs[1].timestamp, Some("2025-01-15T10:01:00Z".to_string()));
    assert_eq!(msgs[2].timestamp, Some("2025-01-15T10:02:00Z".to_string()));
}

#[test]
fn test_conversation_messages_sorted_chronologically() {
    let file_path = "/tmp/logs/project/out-of-order.jsonl";

    // Messages intentionally out of order
    let content = r#"{"type":"assistant","message":{"content":"Fourth"},"timestamp":"2025-01-15T10:03:00Z","sessionId":"s1"}
{"type":"user","message":{"content":"First"},"timestamp":"2025-01-15T10:00:00Z","sessionId":"s1"}
{"type":"assistant","message":{"content":"Second"},"timestamp":"2025-01-15T10:01:00Z","sessionId":"s1"}
{"type":"user","message":{"content":"Third"},"timestamp":"2025-01-15T10:02:00Z","sessionId":"s1"}"#;

    let result = parse_file_text(file_path, content);
    assert!(result.is_ok());

    let conversations = result.unwrap();
    let msgs = &conversations[0].messages;

    // Verify chronological order
    for i in 1..msgs.len() {
        let prev = msgs[i - 1].timestamp.as_deref().unwrap_or("");
        let curr = msgs[i].timestamp.as_deref().unwrap_or("");
        assert!(prev <= curr, "Messages should be in chronological order");
    }
}

#[test]
fn test_conversation_with_missing_timestamps() {
    let file_path = "/tmp/logs/project/no-timestamps.jsonl";

    let content = r#"{"type":"user","message":{"content":"No timestamp"},"sessionId":"s1"}
{"type":"assistant","message":{"content":"Also no timestamp"},"sessionId":"s1"}"#;

    let result = parse_file_text(file_path, content);
    assert!(result.is_ok());

    let conversations = result.unwrap();
    let conv = &conversations[0];

    // start_time and last_time should be empty when no timestamps
    assert!(conv.start_time.is_empty());
    assert!(conv.last_time.is_empty());
}

#[test]
fn test_extract_project_info() {
    let path = "/Users/test/.chat/projects/abc123-hash/session.jsonl";
    let (project_path, project_name) = extract_project_info(path);

    assert_eq!(
        project_path,
        "/Users/test/.chat/projects/abc123-hash"
    );
    assert_eq!(project_name, "abc123-hash");
}

#[test]
fn test_generate_conversation_id_deterministic() {
    let path = "/test/path/session.jsonl";
    let session_id = "session-123";

    let id1 = generate_conversation_id(path, session_id);
    let id2 = generate_conversation_id(path, session_id);

    assert_eq!(id1, id2, "Same inputs should produce same ID");
    assert_eq!(id1.len(), 12, "ID should be 12 characters");
}

#[test]
fn test_generate_conversation_id_unique() {
    let path1 = "/path/a/session.jsonl";
    let path2 = "/path/b/session.jsonl";
    let session_id = "session-123";

    let id1 = generate_conversation_id(path1, session_id);
    let id2 = generate_conversation_id(path2, session_id);

    assert_ne!(id1, id2, "Different paths should produce different IDs");
}

#[test]
fn test_calculate_total_tokens() {
    let messages = vec![
        RawMessage {
            message_type: RawMessageType::User,
            message: RawInnerMessage {
                content: RawContent::Text("test".to_string()),
                role: Some("user".to_string()),
            },
            timestamp: None,
            token_count: Some(RawTokenCount {
                input: 10,
                output: 0,
            }),
            uuid: None,
            session_id: None,
        },
        RawMessage {
            message_type: RawMessageType::Assistant,
            message: RawInnerMessage {
                content: RawContent::Text("reply".to_string()),
                role: Some("assistant".to_string()),
            },
            timestamp: None,
            token_count: Some(RawTokenCount {
                input: 0,
                output: 25,
            }),
            uuid: None,
            session_id: None,
        },
        RawMessage {
            message_type: RawMessageType::User,
            message: RawInnerMessage {
                content: RawContent::Text("no tokens".to_string()),
                role: None,
            },
            timestamp: None,
            token_count: None, // No token count
            uuid: None,
            session_id: None,
        },
    ];

    let (input, output) = calculate_total_tokens(&messages);
    assert_eq!(input, 10);
    assert_eq!(output, 25);
}

#[test]
fn test_generate_conversation_id_consistency() {
    // Same inputs should always produce same ID
    let path = "/some/long/path/to/project/session.jsonl";
    let session_id = "my-session-123";

    let id1 = generate_conversation_id(path, session_id);
    let id2 = generate_conversation_id(path, session_id);
    let id3 = generate_conversation_id(path, session_id);

    assert_eq!(id1, id2);
    assert_eq!(id2, id3);
    assert_eq!(id1.len(), 12);
}

#[test]
fn test_generate_conversation_id_different_sessions() {
    let path = "/test/session.jsonl";

    let id1 = generate_conversation_id(path, "session-1");
    let id2 = generate_conversation_id(path, "session-2");

    assert_ne!(id1, id2, "Different sessions should have different IDs");
}

#[test]
fn test_extract_project_info_root_path() {
    let path = "/session.jsonl";
    let (project_path, project_name) = extract_project_info(path);

    // Should handle edge case of file at root
    // Parent of "/session.jsonl" is "/" which converts to "/" string
    assert_eq!(project_path, "/");
    // file_name of "/" returns None, so project_name is "unknown"
    assert_eq!(project_name, "unknown");
}

#[test]
fn test_extract_project_info_normal_path() {
    let path = "/Users/test/.chat/projects/my-project-hash/session-123.jsonl";
    let (project_path, project_name) = extract_project_info(path);

    assert_eq!(project_path, "/Users/test/.chat/projects/my-project-hash");
    assert_eq!(project_name, "my-project-hash");
}

#[test]
fn test_calculate_total_tokens_empty() {
    let messages: Vec<RawMessage> = vec![];
    let (input, output) = calculate_total_tokens(&messages);
    assert_eq!(input, 0);
    assert_eq!(output, 0);
}

#[test]
fn test_calculate_total_tokens_all_none() {
    let messages = vec![
        RawMessage {
            message_type: RawMessageType::User,
            message: RawInnerMessage {
                content: RawContent::Text("test".to_string()),
                role: None,
            },
            timestamp: None,
            token_count: None,
            uuid: None,
            session_id: None,
        },
    ];
    let (input, output) = calculate_total_tokens(&messages);
    assert_eq!(input, 0);
    assert_eq!(output, 0);
}

#[test]
fn project_of_a_bare_file_name_is_empty_and_unknown() {
    let (project_path, project_name) = extract_project_info("session.jsonl");
    assert_eq!(project_path, "");
    assert_eq!(project_name, "unknown");
}

#[test]
fn project_of_the_empty_path_is_empty_and_unknown() {
    let (project_path, project_name) = extract_project_info("");
    assert_eq!(project_path, "");
    assert_eq!(project_name, "unknown");
}

#[test]
fn project_of_a_relative_path_is_its_directory() {
    let (project_path, project_name) = extract_project_info("logs/alpha/session.jsonl");
    assert_eq!(project_path, "logs/alpha");
    assert_eq!(project_name, "alpha");
}

#[test]
fn conversations_carry_the_project_of_their_file() {
    let lines = vec![
        r#"{"type":"user","message":{"content":"Hello"},"sessionId":"s1"}"#.to_string(),
        r#"{"type":"user","message":{"content":"Again"},"sessionId":"s2"}"#.to_string(),
    ];
    let file_path = "/tmp/logs/alpha-project/session.jsonl";
    let conversations = parse_conversation_file(file_path, &lines);
    let (project_path, project_name) = extract_project_info(file_path);
    assert_eq!(conversations.len(), 2);
    for conversation in &conversations {
        assert_eq!(conversation.project_path, "/tmp/logs/alpha-project");
        assert_eq!(conversation.project_name, "alpha-project");
        assert_eq!(conversation.project_path, project_path);
        assert_eq!(conversation.project_name, project_name);
    }
}

#[test]
fn conversations_partition_the_records_of_a_file() {
    let lines: Vec<String> = [
        r#"{"type":"user","message":{"content":"a1"},"sessionId":"a","timestamp":"2025-01-01T00:00:03Z"}"#,
        r#"{"type":"user","message":{"content":"none1"}}"#,
        r#"{"type":"assistant","message":{"content":"b1"},"sessionId":"b"}"#,
        r#"{"type":"assistant","message":{"content":"a2"},"sessionId":"a","timestamp":"2025-01-01T00:00:01Z"}"#,
        r#"{broken"#,
        r#"{"type":"user","message":{"content":"none2"},"timestamp":"2025-01-01T00:00:09Z"}"#,
        r#"{"type":"user","message":{"content":"a3"},"sessionId":"a"}"#,
        r#"   "#,
        r#"{"type":"user","message":{"content":"d1"},"sessionId":"default"}"#,
    ]
    .iter()
    .map(|line| line.to_string())
    .collect();
    let conversations = parse_conversation_file("/tmp/logs/proj/s.jsonl", &lines);

    let mut sessions: Vec<&str> = conversations.iter().map(|c| c.session_id.as_str()).collect();
    sessions.sort();
    assert_eq!(sessions, vec!["a", "b", "default"]);
    let total: usize = conversations.iter().map(|c| c.messages.len()).sum();
    assert_eq!(total, 7);
    for conversation in &conversations {
        let expected = match conversation.session_id.as_str() {
            "a" => 3,
            "b" => 1,
            _ => 3,
        };
        assert_eq!(conversation.messages.len(), expected);
        for message in &conversation.messages {
            let session = message.session_id.as_deref().unwrap_or("default");
            assert_eq!(session, conversation.session_id);
        }
    }
}
