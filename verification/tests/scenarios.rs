use chat_history::models::{ContentBlock, ContentBlockType};
use chat_history::parser::chronology::sort_messages;
use chat_history::parser::content::{
    blocks_from_fences, extract_preview, parse_text_content, CODE_FENCE_PATTERN,
};
use chat_history::parser::conversation::{
    calculate_total_tokens, conversations_from_records, id_from_hash, parse_conversation_file,
    parse_lines, project_info_from,
};
use chat_history::parser::jsonl::{
    parse_jsonl_line, RawContent, RawInnerMessage, RawMessage, RawMessageType, RawTokenCount,
};
use chat_history::pattern::Capture;
use chat_history::text::{chars_le, chars_of, str_equal, trim_chars, trim_end_chars};

fn text_block(content: &str) -> ContentBlock {
    ContentBlock {
        block_type: ContentBlockType::Text,
        content: content.to_string(),
        language: None,
        tool_name: None,
    }
}

fn shape(blocks: &[ContentBlock]) -> Vec<(ContentBlockType, String, Option<String>)> {
    blocks
        .iter()
        .map(|block| (block.block_type, block.content.clone(), block.language.clone()))
        .collect()
}

#[test]
fn fenced_text_gives_text_code_text() {
    let blocks = parse_text_content("Here:\n```py\nprint(1)\n```\nDone");
    assert_eq!(
        shape(&blocks),
        vec![
            (ContentBlockType::Text, "Here:".to_string(), None),
            (ContentBlockType::Code, "print(1)".to_string(), Some("py".to_string())),
            (ContentBlockType::Text, "Done".to_string(), None),
        ]
    );
    assert!(blocks.iter().all(|block| block.tool_name.is_none()));
}

#[test]
fn unterminated_fence_stays_text() {
    let blocks = parse_text_content("```py\nprint(1)");
    assert_eq!(
        shape(&blocks),
        vec![(ContentBlockType::Text, "```py\nprint(1)".to_string(), None)]
    );
}

#[test]
fn fence_body_keeps_leading_whitespace_and_loses_trailing() {
    let blocks = parse_text_content("```\n\n  indented\n\t\n \n```");
    assert_eq!(
        shape(&blocks),
        vec![(ContentBlockType::Code, "\n  indented".to_string(), Some("text".to_string()))]
    );
}

#[test]
fn fences_are_counted_in_characters() {
    let blocks = parse_text_content("é→\n```π\nα\u{3000}\n```\u{2003}ü ");
    assert_eq!(
        shape(&blocks),
        vec![
            (ContentBlockType::Text, "é→".to_string(), None),
            (ContentBlockType::Code, "α".to_string(), Some("π".to_string())),
            (ContentBlockType::Text, "ü".to_string(), None),
        ]
    );
}

#[test]
fn blocks_follow_the_fences_given() {
    let text = "ab cd ef";
    let fences = vec![
        Capture { start: 1, end: 4, first: Some((1, 2)), second: Some((2, 4)) },
        Capture { start: 4, end: 6, first: None, second: None },
    ];
    let blocks = blocks_from_fences(text, &fences);
    assert_eq!(
        shape(&blocks),
        vec![
            (ContentBlockType::Text, "a".to_string(), None),
            (ContentBlockType::Code, " c".to_string(), Some("b".to_string())),
            (ContentBlockType::Code, "".to_string(), Some("text".to_string())),
            (ContentBlockType::Text, "ef".to_string(), None),
        ]
    );
    assert!(blocks_from_fences("", &vec![]).is_empty());
    assert_eq!(CODE_FENCE_PATTERN, r"```(\w*)\n([\s\S]*?)```");
}

#[test]
fn preview_of_a_long_run_is_cut_hard() {
    let preview = extract_preview(&[text_block(&"a".repeat(150))]);
    assert_eq!(preview, format!("{}...", "a".repeat(100)));
    assert_eq!(preview.len(), 103);
    let exact = "a".repeat(100);
    assert_eq!(extract_preview(&[text_block(&exact)]), exact);
}

#[test]
fn preview_is_cut_before_the_last_space_of_the_first_hundred() {
    let text = format!("{} {} {}", "a".repeat(40), "b".repeat(50), "c".repeat(30));
    let preview = extract_preview(&[text_block(&text)]);
    assert_eq!(preview, format!("{} {}...", "a".repeat(40), "b".repeat(50)));
    // A space in position 100 is outside the first hundred characters.
    let text = format!("{} {} {}", "a".repeat(40), "b".repeat(59), "c".repeat(30));
    let preview = extract_preview(&[text_block(&text)]);
    assert_eq!(preview, format!("{}...", "a".repeat(40)));
    // Other whitespace is no place to cut.
    let text = format!("{}\n{}", "a".repeat(40), "b".repeat(80));
    let preview = extract_preview(&[text_block(&text)]);
    assert_eq!(preview, format!("{}\n{}...", "a".repeat(40), "b".repeat(59)));
}

#[test]
fn preview_counts_characters_not_bytes() {
    let text = "é".repeat(100);
    assert_eq!(extract_preview(&[text_block(&text)]), text);
    let text = "é".repeat(101);
    assert_eq!(
        extract_preview(&[text_block(&text)]),
        format!("{}...", "é".repeat(100))
    );
}

#[test]
fn preview_skips_empty_text_blocks() {
    let blocks = vec![text_block(""), text_block("second")];
    assert_eq!(extract_preview(&blocks), "second");
}

fn record(kind: RawMessageType, time: Option<&str>, session: Option<&str>, text: &str) -> RawMessage {
    RawMessage {
        message_type: kind,
        message: RawInnerMessage { content: RawContent::Text(text.to_string()), role: None },
        timestamp: time.map(|t| t.to_string()),
        token_count: None,
        uuid: None,
        session_id: session.map(|s| s.to_string()),
    }
}

fn texts(messages: &[RawMessage]) -> Vec<String> {
    messages
        .iter()
        .map(|m| match &m.message.content {
            RawContent::Text(text) => text.clone(),
            RawContent::Blocks(_) => String::new(),
        })
        .collect()
}

#[test]
fn records_without_timestamp_come_first() {
    let mut messages = vec![
        record(RawMessageType::User, Some("2025-01-02T00:00:00Z"), None, "b"),
        record(RawMessageType::User, None, None, "x"),
        record(RawMessageType::User, Some("2025-01-01T00:00:00Z"), None, "a"),
        record(RawMessageType::User, None, None, "y"),
        record(RawMessageType::User, Some(""), None, "z"),
        record(RawMessageType::User, Some("2025-01-01T00:00:00Z"), None, "a2"),
    ];
    sort_messages(&mut messages);
    assert_eq!(texts(&messages), vec!["x", "y", "z", "a", "a2", "b"]);
}

#[test]
fn sorting_agrees_with_string_order() {
    let samples = ["", "a", "ab", "b", "é", "z", "\u{10000}", "\u{ffff}", "aé", "a\u{7f}"];
    for a in samples {
        for b in samples {
            assert_eq!(chars_le(&chars_of(a), &chars_of(b)), a <= b, "{:?} vs {:?}", a, b);
            assert_eq!(str_equal(a, b), a == b);
        }
    }
}

#[test]
fn token_totals_add_up() {
    let mut a = record(RawMessageType::User, None, None, "q");
    a.token_count = Some(RawTokenCount { input: 10, output: 0 });
    let mut b = record(RawMessageType::Assistant, None, None, "r");
    b.token_count = Some(RawTokenCount { input: 0, output: 25 });
    let c = record(RawMessageType::User, None, None, "no counts");
    assert_eq!(calculate_total_tokens(&[a.clone(), b.clone(), c]), (10, 25));
    let mut negative = a.clone();
    negative.token_count = Some(RawTokenCount { input: -30, output: -1 });
    assert_eq!(calculate_total_tokens(&[a.clone(), negative.clone(), b]), (-20, 24));
    let mut huge = a.clone();
    huge.token_count = Some(RawTokenCount { input: i64::MAX, output: i64::MIN });
    assert_eq!(
        calculate_total_tokens(&[huge.clone(), a, negative]),
        (i64::MAX - 20, i64::MAX)
    );
}

#[test]
fn two_lines_of_one_session_make_one_conversation() {
    let lines = vec![
        r#"{"type":"user","message":{"content":"Hi"},"sessionId":"s","timestamp":"10:00:00Z","tokenCount":{"input":5,"output":0}}"#.to_string(),
        r#"{"type":"assistant","message":{"content":"Hello"},"sessionId":"s","timestamp":"10:00:05Z","tokenCount":{"input":0,"output":10}}"#.to_string(),
    ];
    let conversations = parse_conversation_file("/home/u/logs/project/file.jsonl", &lines);
    assert_eq!(conversations.len(), 1);
    let conversation = &conversations[0];
    assert_eq!(conversation.messages.len(), 2);
    assert_eq!(conversation.start_time, "10:00:00Z");
    assert_eq!(conversation.last_time, "10:00:05Z");
    assert_eq!(conversation.total_input_tokens, 5);
    assert_eq!(conversation.total_output_tokens, 10);
    assert_eq!(conversation.session_id, "s");
    assert_eq!(conversation.file_path, "/home/u/logs/project/file.jsonl");
    assert_eq!(conversation.project_path, "/home/u/logs/project");
    assert_eq!(conversation.project_name, "project");
}

#[test]
fn reading_a_file_again_gives_the_same_conversations() {
    let lines: Vec<String> = [
        r#"{"type":"user","message":{"content":"one"},"sessionId":"a","timestamp":"2"}"#,
        "",
        "not json",
        r#"{"type":"user","message":{"content":"two"},"timestamp":"1"}"#,
        r#"{"type":"assistant","message":{"content":"three"},"sessionId":"a","timestamp":"1"}"#,
    ]
    .iter()
    .map(|line| line.to_string())
    .collect();
    let first = parse_lines("/x/p/f.jsonl", "/x/p", "p", &lines);
    let second = parse_lines("/x/p/f.jsonl", "/x/p", "p", &lines);
    assert_eq!(first, second);
    assert_eq!(first.parse_errors, 1);
    assert_eq!(first.conversations.len(), 2);
    assert_eq!(parse_conversation_file("/x/p/f.jsonl", &lines), first.conversations);
    let ids: Vec<&str> = first.conversations.iter().map(|c| c.id.as_str()).collect();
    assert_eq!(ids.len(), 2);
    assert_ne!(ids[0], ids[1]);
    assert!(ids.iter().all(|id| id.len() == 12
        && id.chars().all(|c| c.is_ascii_digit() || ('a'..='f').contains(&c))));
    // The same session in another file is another conversation.
    let elsewhere = parse_lines("/x/p/g.jsonl", "/x/p", "p", &lines);
    assert!(elsewhere.conversations.iter().all(|c| !ids.contains(&c.id.as_str())));
}

#[test]
fn sessions_are_grouped_and_come_newest_first() {
    let records = vec![
        record(RawMessageType::User, Some("2025-01-01"), Some("old"), "o1"),
        record(RawMessageType::User, Some("2025-03-01"), None, "d1"),
        record(RawMessageType::User, Some("2025-02-01"), Some("mid"), "m1"),
        record(RawMessageType::User, Some("2025-01-02"), Some("old"), "o2"),
        record(RawMessageType::User, Some("2025-02-01"), Some("default"), "d2"),
        record(RawMessageType::User, Some("2025-02-01"), Some("tie"), "t1"),
    ];
    let conversations = conversations_from_records("/f", "/", "unknown", records);
    let sessions: Vec<&str> = conversations.iter().map(|c| c.session_id.as_str()).collect();
    assert_eq!(sessions, vec!["default", "mid", "tie", "old"]);
    assert_eq!(texts(&conversations[0].messages), vec!["d2", "d1"]);
    assert_eq!(conversations[0].start_time, "2025-02-01");
    assert_eq!(conversations[0].last_time, "2025-03-01");
    assert_eq!(texts(&conversations[3].messages), vec!["o1", "o2"]);
    assert!(conversations_from_records("/f", "/", "unknown", vec![]).is_empty());
}

#[test]
fn identifier_is_the_head_of_the_hexadecimal_hash() {
    assert_eq!(id_from_hash(0), "000000000000");
    assert_eq!(id_from_hash(u64::MAX), "ffffffffffff");
    assert_eq!(id_from_hash(0x0123_4567_89ab_cdef), "0123456789ab");
    assert_eq!(id_from_hash(0xffff), "000000000000");
    assert_eq!(id_from_hash(0x1_0000), "000000000001");
}

#[test]
fn project_is_the_parent_directory() {
    assert_eq!(
        project_info_from(Some("/a/b".to_string()), Some("b".to_string())),
        ("/a/b".to_string(), "b".to_string())
    );
    assert_eq!(
        project_info_from(Some("/".to_string()), None),
        ("/".to_string(), "unknown".to_string())
    );
    assert_eq!(project_info_from(None, None), (String::new(), "unknown".to_string()));
}

#[test]
fn trimming_removes_unicode_whitespace_at_both_ends() {
    let text = "\u{2003}\t a\u{a0}b \n\u{3000}";
    assert_eq!(trim_chars(&chars_of(text)), chars_of(text.trim()));
    assert_eq!(trim_end_chars(&chars_of(text)), chars_of(text.trim_end()));
    assert_eq!(trim_chars(&chars_of("a\u{a0}b")), chars_of("a\u{a0}b"));
    assert!(trim_chars(&chars_of(" \u{85}\u{2028} ")).is_empty());
    assert_eq!(trim_chars(&chars_of("\u{200b}x")), chars_of("\u{200b}x"));
}

#[test]
fn decoded_line_keeps_what_the_document_says() {
    let line = r#"{"sessionId":"s","type":"assistant","uuid":"u","timestamp":"t","tokenCount":{"input":-1,"output":2,"more":3},"message":{"role":"assistant","content":[{"type":"text","text":"a","extra":1},{"type":"tool_use","name":"n","input":[1.5,true,null,"s",{"k":18446744073709551615}],"tool_use_id":"id"}]}}"#;
    let message = parse_jsonl_line(line).unwrap();
    assert_eq!(message.message_type, RawMessageType::Assistant);
    assert_eq!(message.token_count, Some(RawTokenCount { input: -1, output: 2 }));
    let blocks = match &message.message.content {
        RawContent::Blocks(blocks) => blocks,
        RawContent::Text(_) => panic!("Expected blocks"),
    };
    assert_eq!(blocks.len(), 2);
    assert_eq!(blocks[0].text, Some("a".to_string()));
    assert!(blocks[0].input.is_none());
    let shown = chat_history::parser::content::parse_block_array(blocks);
    assert_eq!(
        shown[1].content,
        "[\n  1.5,\n  true,\n  null,\n  \"s\",\n  {\n    \"k\": 18446744073709551615\n  }\n]"
    );
}
