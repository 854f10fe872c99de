//! Parsing of transcript records and of message bodies.

pub mod chronology;
pub mod content;
pub mod conversation;
pub mod jsonl;

pub use content::{extract_preview, parse_block_array, parse_content_blocks, parse_text_content};
pub use jsonl::{
    parse_jsonl_line, ParserError, RawContent, RawContentBlock, RawInnerMessage, RawMessage,
    RawMessageType, RawTokenCount,
};
