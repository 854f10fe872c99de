use chat_history::models::{ContentBlock, ContentBlockType};
use chat_history::parser::content::{extract_preview, parse_text_content};
use chat_history::pattern::{char_captures, char_offset, char_width, Capture};
use chat_history::text::chars_of;

#[test]
fn test_parse_plain_text() {
    let text = "Hello, this is plain text without any code.";
    let blocks = parse_text_content(text);

    assert_eq!(blocks.len(), 1);
    assert_eq!(blocks[0].block_type, ContentBlockType::Text);
    assert_eq!(blocks[0].content, text);
}

#[test]
fn test_parse_single_code_block() {
    let text = "```rust\nfn main() {\n    println!(\"Hello\");\n}\n```";
    let blocks = parse_text_content(text);

    assert_eq!(blocks.len(), 1);
    assert_eq!(blocks[0].block_type, ContentBlockType::Code);
    assert_eq!(blocks[0].language, Some("rust".to_string()));
    assert!(blocks[0].content.contains("fn main()"));
}

#[test]
fn test_parse_code_block_no_language() {
    let text = "```\nsome code\n```";
    let blocks = parse_text_content(text);

    assert_eq!(blocks.len(), 1);
    assert_eq!(blocks[0].block_type, ContentBlockType::Code);
    assert_eq!(blocks[0].language, Some("text".to_string()));
    assert_eq!(blocks[0].content, "some code");
}

#[test]
fn test_parse_text_with_code_block() {
    let text = "Here's some code:\n```python\nprint('hello')\n```\nThat's it!";
    let blocks = parse_text_content(text);

    assert_eq!(blocks.len(), 3);
    assert_eq!(blocks[0].block_type, ContentBlockType::Text);
    assert!(blocks[0].content.contains("Here's some code"));
    assert_eq!(blocks[1].block_type, ContentBlockType::Code);
    assert_eq!(blocks[1].language, Some("python".to_string()));
    assert_eq!(blocks[2].block_type, ContentBlockType::Text);
    assert!(blocks[2].content.contains("That's it"));
}

#[test]
fn test_parse_multiple_code_blocks() {
    let text = "```js\nconst a = 1;\n```\n\n```ts\nconst b: number = 2;\n```";
    let blocks = parse_text_content(text);

    assert_eq!(blocks.len(), 2);
    assert_eq!(blocks[0].language, Some("js".to_string()));
    assert_eq!(blocks[1].language, Some("ts".to_string()));
}

#[test]
fn test_parse_empty_text() {
    let blocks = parse_text_content("");
    assert!(blocks.is_empty());
}

#[test]
fn test_parse_whitespace_only() {
    let blocks = parse_text_content("   \n\t  ");
    assert!(blocks.is_empty());
}

#[test]
fn test_extract_preview_short() {
    let blocks = vec![ContentBlock {
        block_type: ContentBlockType::Text,
        content: "Short preview".to_string(),
        language: None,
        tool_name: None,
    }];

    let preview = extract_preview(&blocks);
    assert_eq!(preview, "Short preview");
}

#[test]
fn test_extract_preview_long() {
    let long_text = "a ".repeat(60); // 120 characters
    let blocks = vec![ContentBlock {
        block_type: ContentBlockType::Text,
        content: long_text,
        language: None,
        tool_name: None,
    }];

    let preview = extract_preview(&blocks);
    assert!(preview.len() <= 103); // 100 + "..."
    assert!(preview.ends_with("..."));
}

#[test]
fn test_extract_preview_skips_code() {
    let blocks = vec![
        ContentBlock {
            block_type: ContentBlockType::Code,
            content: "fn main() {}".to_string(),
            language: Some("rust".to_string()),
            tool_name: None,
        },
        ContentBlock {
            block_type: ContentBlockType::Text,
            content: "This is the text".to_string(),
            language: None,
            tool_name: None,
        },
    ];

    let preview = extract_preview(&blocks);
    assert_eq!(preview, "This is the text");
}

#[test]
fn test_extract_preview_empty() {
    let blocks: Vec<ContentBlock> = vec![];
    let preview = extract_preview(&blocks);
    assert!(preview.is_empty());
}

#[test]
fn test_parse_code_block_at_start() {
    let text = "```python\nprint('hello')\n```\nSome text after";
    let blocks = parse_text_content(text);

    assert_eq!(blocks.len(), 2);
    assert_eq!(blocks[0].block_type, ContentBlockType::Code);
    assert_eq!(blocks[0].language, Some("python".to_string()));
    assert_eq!(blocks[1].block_type, ContentBlockType::Text);
    assert!(blocks[1].content.contains("Some text after"));
}

#[test]
fn test_parse_code_block_at_end() {
    let text = "Some text before\n```rust\nfn test() {}\n```";
    let blocks = parse_text_content(text);

    assert_eq!(blocks.len(), 2);
    assert_eq!(blocks[0].block_type, ContentBlockType::Text);
    assert!(blocks[0].content.contains("Some text before"));
    assert_eq!(blocks[1].block_type, ContentBlockType::Code);
    assert_eq!(blocks[1].language, Some("rust".to_string()));
}

#[test]
fn test_parse_unclosed_code_fence() {
    // Unclosed code fence should be treated as regular text
    let text = "Here's some code:\n```rust\nfn main() {\n    println!(\"Hello\");";
    let blocks = parse_text_content(text);

    // Since the code fence is not closed, it's all text
    assert_eq!(blocks.len(), 1);
    assert_eq!(blocks[0].block_type, ContentBlockType::Text);
    assert!(blocks[0].content.contains("```rust"));
}

#[test]
fn test_parse_code_fence_with_special_language() {
    // The regex pattern is ```(\w*)\n which requires \n immediately after \w*
    // For "c++", after "c" comes "++" which is not \n, so the fence doesn't match
    // This is a known limitation - languages with special chars don't parse as code blocks
    let text = "```c++\nint main() { return 0; }\n```";
    let blocks = parse_text_content(text);

    // Entire thing becomes text because the regex doesn't match
    assert_eq!(blocks.len(), 1);
    assert_eq!(blocks[0].block_type, ContentBlockType::Text);
    assert!(blocks[0].content.contains("```c++"));

    // However, standard language names work fine
    let text_cpp = "```cpp\nint main() { return 0; }\n```";
    let blocks_cpp = parse_text_content(text_cpp);
    assert_eq!(blocks_cpp.len(), 1);
    assert_eq!(blocks_cpp[0].block_type, ContentBlockType::Code);
    assert_eq!(blocks_cpp[0].language, Some("cpp".to_string()));
}

#[test]
fn test_parse_code_fence_with_empty_code() {
    let text = "```rust\n```";
    let blocks = parse_text_content(text);

    assert_eq!(blocks.len(), 1);
    assert_eq!(blocks[0].block_type, ContentBlockType::Code);
    assert_eq!(blocks[0].language, Some("rust".to_string()));
    assert!(blocks[0].content.is_empty());
}

#[test]
fn test_parse_adjacent_code_blocks() {
    let text = "```js\nconst a = 1;\n```\n```ts\nconst b: number = 2;\n```";
    let blocks = parse_text_content(text);

    assert_eq!(blocks.len(), 2);
    assert_eq!(blocks[0].language, Some("js".to_string()));
    assert_eq!(blocks[1].language, Some("ts".to_string()));
}

#[test]
fn test_parse_code_block_with_backticks_in_code() {
    // Code block containing backtick characters in the code
    let text = "```bash\necho `date`\n```";
    let blocks = parse_text_content(text);

    assert_eq!(blocks.len(), 1);
    assert_eq!(blocks[0].block_type, ContentBlockType::Code);
    assert!(blocks[0].content.contains("`date`"));
}

#[test]
fn test_parse_code_block_with_triple_backticks_in_code() {
    // This is a tricky case - code containing ```
    // The regex will match the first ``` it finds
    let text = "```md\nHere's how to write a code block:\n\\`\\`\\`rust\ncode here\n\\`\\`\\`\n```";
    let blocks = parse_text_content(text);

    // Should treat escaped backticks as content
    assert!(blocks.len() >= 1);
}

#[test]
fn test_parse_text_with_only_whitespace_between_blocks() {
    let text = "```js\na\n```\n   \n\t\n```py\nb\n```";
    let blocks = parse_text_content(text);

    // Whitespace-only text between blocks should be omitted
    assert_eq!(blocks.len(), 2);
    assert_eq!(blocks[0].language, Some("js".to_string()));
    assert_eq!(blocks[1].language, Some("py".to_string()));
}

#[test]
fn test_parse_code_block_preserves_internal_whitespace() {
    let text = "```python\n    def foo():\n        pass\n```";
    let blocks = parse_text_content(text);

    assert_eq!(blocks.len(), 1);
    assert!(blocks[0].content.contains("    def foo()"));
    assert!(blocks[0].content.contains("        pass"));
}

#[test]
fn test_extract_preview_truncates_at_word_boundary() {
    // Create text that's just over 100 chars with a word boundary
    let text = "This is a test sentence that is designed to be longer than one hundred characters so we can test truncation at word boundaries properly.";
    let blocks = vec![ContentBlock {
        block_type: ContentBlockType::Text,
        content: text.to_string(),
        language: None,
        tool_name: None,
    }];

    let preview = extract_preview(&blocks);
    assert!(preview.len() <= 103); // 100 + "..."
    assert!(preview.ends_with("..."));
    // The preview should end at a space boundary within first 100 chars
    let without_ellipsis = preview.trim_end_matches("...");
    // Verify the truncation happened and the result is reasonable
    assert!(without_ellipsis.len() <= 100);
    assert!(without_ellipsis.len() > 50); // Should have substantial content
}

#[test]
fn test_extract_preview_no_word_boundary() {
    // 100+ character string with no spaces
    let text = "a".repeat(150);
    let blocks = vec![ContentBlock {
        block_type: ContentBlockType::Text,
        content: text,
        language: None,
        tool_name: None,
    }];

    let preview = extract_preview(&blocks);
    assert_eq!(preview.len(), 103); // 100 + "..."
    assert!(preview.ends_with("..."));
}

#[test]
fn test_extract_preview_exactly_100_chars() {
    let text = "a".repeat(100);
    let blocks = vec![ContentBlock {
        block_type: ContentBlockType::Text,
        content: text.clone(),
        language: None,
        tool_name: None,
    }];

    let preview = extract_preview(&blocks);
    assert_eq!(preview, text); // No truncation needed
}

#[test]
fn test_extract_preview_only_code_blocks() {
    let blocks = vec![
        ContentBlock {
            block_type: ContentBlockType::Code,
            content: "fn main() {}".to_string(),
            language: Some("rust".to_string()),
            tool_name: None,
        },
        ContentBlock {
            block_type: ContentBlockType::ToolUse,
            content: r#"{"path": "/test"}"#.to_string(),
            language: None,
            tool_name: Some("read_file".to_string()),
        },
    ];

    let preview = extract_preview(&blocks);
    assert!(preview.is_empty(), "Preview should be empty when no text blocks");
}

#[test]
fn test_parse_many_code_blocks() {
    // Stress test with many code blocks
    let mut text = String::new();
    for i in 0..20 {
        text.push_str(&format!("Text {}\n```lang{}\ncode {}\n```\n", i, i, i));
    }

    let blocks = parse_text_content(&text);

    // Should have 20 text blocks and 20 code blocks = 40 total
    assert_eq!(blocks.len(), 40);

    // Verify alternating pattern
    for (i, block) in blocks.iter().enumerate() {
        if i % 2 == 0 {
            assert_eq!(block.block_type, ContentBlockType::Text);
        } else {
            assert_eq!(block.block_type, ContentBlockType::Code);
        }
    }
}

#[test]
fn test_parse_unicode_in_code_block() {
    let text = "```python\n# Unicode: ‰Ω†Â•Ω‰∏ñÁïå üöÄ\nprint('„Åì„Çì„Å´„Å°„ÅØ')\n```";
    let blocks = parse_text_content(text);

    assert_eq!(blocks.len(), 1);
    assert_eq!(blocks[0].block_type, ContentBlockType::Code);
    assert!(blocks[0].content.contains("‰Ω†Â•Ω‰∏ñÁïå"));
    assert!(blocks[0].content.contains("üöÄ"));
    assert!(blocks[0].content.contains("„Åì„Çì„Å´„Å°„ÅØ"));
}

#[test]
fn fences_are_found_behind_characters_of_several_bytes() {
    let text = "héllo 🎉 wörld\n```rust\nlet s = \"ñandú\";\n```\nüber 日本語";
    let blocks = parse_text_content(text);
    assert_eq!(blocks.len(), 3);
    assert_eq!(blocks[0].block_type, ContentBlockType::Text);
    assert_eq!(blocks[0].content, "héllo 🎉 wörld");
    assert_eq!(blocks[1].block_type, ContentBlockType::Code);
    assert_eq!(blocks[1].language, Some("rust".to_string()));
    assert_eq!(blocks[1].content, "let s = \"ñandú\";");
    assert_eq!(blocks[2].block_type, ContentBlockType::Text);
    assert_eq!(blocks[2].content, "über 日本語");
}

#[test]
fn byte_offsets_become_character_offsets() {
    // Bytes: a = 1, é = 2, 🎉 = 4, z = 1; the characters start at 0, 1, 3, 7.
    let chars = chars_of("aé🎉z");
    let expected = [(0, 0), (1, 1), (2, 2), (3, 2), (4, 3), (7, 3), (8, 4), (100, 4)];
    for (byte, index) in expected {
        assert_eq!(char_offset(&chars, byte), index, "byte {}", byte);
    }
    assert_eq!(char_offset(&Vec::new(), 3), 0);
    for (c, width) in [('a', 1), ('\u{7F}', 1), ('\u{80}', 2), ('é', 2), ('\u{7FF}', 2)] {
        assert_eq!(char_width(c), width);
        assert_eq!(char_width(c), c.len_utf8());
    }
    for c in ['\u{800}', '日', '\u{FFFF}', '\u{10000}', '🎉', '\u{10FFFF}'] {
        assert_eq!(char_width(c), c.len_utf8());
    }
}

#[test]
fn matches_in_bytes_become_matches_in_characters() {
    let chars = chars_of("é```\nñ```");
    let found = vec![Capture { start: 2, end: 11, first: Some((5, 5)), second: Some((6, 8)) }];
    assert_eq!(
        char_captures(&chars, &found),
        vec![Capture { start: 1, end: 9, first: Some((4, 4)), second: Some((5, 6)) }]
    );
}
