//! Decoding of transcript records, one JSON document per line.

use crate::json::{
    error_text, json_document, lemma_trees_of, parse_document, tree_of, trees_of, JsonNumber,
    JsonNumberView, JsonTree, JsonValue,
};
use crate::text::{chars_of, result_view, str_equal, string_of, trim_chars, trim_spec};
use vstd::prelude::*;
use vstd::string::StringExecFns;

verus! {

/// Why a record or a file could not be read.
#[derive(Debug, Clone, PartialEq, Eq)]
pub enum ParserError {
    /// The home directory is unknown.
    HomeNotFound,
    /// The file could not be read; the text says why.
    Io(String),
    /// The line is not a JSON document of the expected shape.
    JsonParse(String),
    /// A required field is absent.
    MissingField(String),
    /// A field holds a value that is not accepted.
    InvalidField { field: String, reason: String },
}

/// Mathematical model of a [`ParserError`].
pub enum ParserErrorView {
    HomeNotFound,
    Io(Seq<char>),
    JsonParse(Seq<char>),
    MissingField(Seq<char>),
    InvalidField { field: Seq<char>, reason: Seq<char> },
}

impl DeepView for ParserError {
    type V = ParserErrorView;

    open spec fn deep_view(&self) -> ParserErrorView {
        match self {
            ParserError::HomeNotFound => ParserErrorView::HomeNotFound,
            ParserError::Io(text) => ParserErrorView::Io(text@),
            ParserError::JsonParse(text) => ParserErrorView::JsonParse(text@),
            ParserError::MissingField(name) => ParserErrorView::MissingField(name@),
            ParserError::InvalidField { field, reason } => ParserErrorView::InvalidField {
                field: field@,
                reason: reason@,
            },
        }
    }
}

/// Role discriminator of a record.
#[derive(Debug, Clone, Copy, PartialEq, Eq, Structural)]
pub enum RawMessageType {
    User,
    Assistant,
    System,
}

impl DeepView for RawMessageType {
    type V = RawMessageType;

    open spec fn deep_view(&self) -> RawMessageType {
        *self
    }
}

/// One typed sub-block of a structured message body.
#[derive(Debug, Clone, PartialEq, Eq)]
pub struct RawContentBlock {
    pub block_type: String,
    /// Text, for text blocks.
    pub text: Option<String>,
    /// Tool name, for tool invocations.
    pub name: Option<String>,
    /// Tool input, for tool invocations.
    pub input: Option<JsonValue>,
    /// Identifier of the invocation, for invocations and results.
    pub tool_use_id: Option<String>,
    /// Result, for tool results.
    pub content: Option<JsonValue>,
}

/// Mathematical model of a [`RawContentBlock`].
pub struct RawContentBlockView {
    pub block_type: Seq<char>,
    pub text: Option<Seq<char>>,
    pub name: Option<Seq<char>>,
    pub input: Option<JsonTree>,
    pub tool_use_id: Option<Seq<char>>,
    pub content: Option<JsonTree>,
}

impl DeepView for RawContentBlock {
    type V = RawContentBlockView;

    open spec fn deep_view(&self) -> RawContentBlockView {
        RawContentBlockView {
            block_type: self.block_type@,
            text: self.text.deep_view(),
            name: self.name.deep_view(),
            input: self.input.deep_view(),
            tool_use_id: self.tool_use_id.deep_view(),
            content: self.content.deep_view(),
        }
    }
}

/// Body of a message: plain text, or an ordered list of typed sub-blocks.
#[derive(Debug, Clone, PartialEq, Eq)]
pub enum RawContent {
    Text(String),
    Blocks(Vec<RawContentBlock>),
}

/// Mathematical model of a [`RawContent`].
pub enum RawContentView {
    Text(Seq<char>),
    Blocks(Seq<RawContentBlockView>),
}

impl DeepView for RawContent {
    type V = RawContentView;

    open spec fn deep_view(&self) -> RawContentView {
        match self {
            RawContent::Text(text) => RawContentView::Text(text@),
            RawContent::Blocks(blocks) => RawContentView::Blocks(blocks.deep_view()),
        }
    }
}

/// The `message` member of a record.
#[derive(Debug, Clone, PartialEq, Eq)]
pub struct RawInnerMessage {
    pub content: RawContent,
    pub role: Option<String>,
}

/// Mathematical model of a [`RawInnerMessage`].
pub struct RawInnerMessageView {
    pub content: RawContentView,
    pub role: Option<Seq<char>>,
}

impl DeepView for RawInnerMessage {
    type V = RawInnerMessageView;

    open spec fn deep_view(&self) -> RawInnerMessageView {
        RawInnerMessageView { content: self.content.deep_view(), role: self.role.deep_view() }
    }
}

/// Token counts of a record.
#[derive(Debug, Clone, Copy, PartialEq, Eq)]
pub struct RawTokenCount {
    pub input: i64,
    pub output: i64,
}

impl Default for RawTokenCount {
    fn default() -> (out: Self)
        ensures
            out == (RawTokenCount { input: 0, output: 0 }),
    {
        RawTokenCount { input: 0, output: 0 }
    }
}

/// One decoded line of a transcript.
#[derive(Debug, Clone, PartialEq, Eq)]
pub struct RawMessage {
    pub message_type: RawMessageType,
    pub message: RawInnerMessage,
    /// ISO 8601 timestamp.
    pub timestamp: Option<String>,
    pub token_count: Option<RawTokenCount>,
    /// Identifier of the message.
    pub uuid: Option<String>,
    /// Session that the message belongs to.
    pub session_id: Option<String>,
}

/// Mathematical model of a [`RawMessage`].
pub struct RawMessageView {
    pub message_type: RawMessageType,
    pub message: RawInnerMessageView,
    pub timestamp: Option<Seq<char>>,
    pub token_count: Option<RawTokenCount>,
    pub uuid: Option<Seq<char>>,
    pub session_id: Option<Seq<char>>,
}

impl DeepView for RawMessage {
    type V = RawMessageView;

    open spec fn deep_view(&self) -> RawMessageView {
        RawMessageView {
            message_type: self.message_type,
            message: self.message.deep_view(),
            timestamp: self.timestamp.deep_view(),
            token_count: self.token_count,
            uuid: self.uuid.deep_view(),
            session_id: self.session_id.deep_view(),
        }
    }
}

/// The text of the string member `key`; `None` where the member is absent or
/// no string.
pub open spec fn string_member(tree: JsonTree, key: Seq<char>) -> Option<Seq<char>> {
    match tree.get(key) {
        Some(value) => value.as_str(),
        None => None,
    }
}

/// An optional string field of a block: absent or null is no value, a string
/// is its value, anything else is a fault (the outer `None`).
pub open spec fn optional_string(tree: JsonTree, key: Seq<char>) -> Option<Option<Seq<char>>> {
    match tree.get(key) {
        None => Some(None),
        Some(JsonTree::Null) => Some(None),
        Some(JsonTree::String(s)) => Some(Some(s)),
        Some(_) => None,
    }
}

/// An optional field of a block that takes any document: absent or null is
/// no value.
pub open spec fn optional_value(tree: JsonTree, key: Seq<char>) -> Option<JsonTree> {
    match tree.get(key) {
        None => None,
        Some(JsonTree::Null) => None,
        Some(value) => Some(value),
    }
}

/// The sub-block that a document stands for: an object whose `type` is a
/// string and whose `text`, `name` and `tool_use_id`, where present and not
/// null, are strings. Other members are ignored. `None` for any other
/// document.
pub open spec fn decode_block(tree: JsonTree) -> Option<RawContentBlockView> {
    if !(tree is Object) {
        None
    } else {
        match (
            string_member(tree, "type"@),
            optional_string(tree, "text"@),
            optional_string(tree, "name"@),
            optional_string(tree, "tool_use_id"@),
        ) {
            (Some(block_type), Some(text), Some(name), Some(tool_use_id)) => Some(
                RawContentBlockView {
                    block_type,
                    text,
                    name,
                    input: optional_value(tree, "input"@),
                    tool_use_id,
                    content: optional_value(tree, "content"@),
                },
            ),
            _ => None,
        }
    }
}

/// The sub-blocks that the first `k` documents of `items` stand for; `None`
/// if one of them stands for none.
pub open spec fn decode_blocks(items: Seq<JsonTree>, k: int) -> Option<Seq<RawContentBlockView>>
    decreases k,
{
    if k <= 0 {
        Some(Seq::empty())
    } else {
        match (decode_blocks(items, k - 1), decode_block(items[k - 1])) {
            (Some(front), Some(block)) => Some(front.push(block)),
            _ => None,
        }
    }
}

/// Message of the fault reported for a malformed sub-block.
pub open spec fn bad_block() -> ParserErrorView {
    ParserErrorView::JsonParse("invalid content block"@)
}

/// The body and role that the `message` member stands for. A string body is
/// text; a list is decoded block by block; a null or absent body is empty
/// text; any other body is rejected.
pub open spec fn decode_inner(tree: JsonTree) -> Result<RawInnerMessageView, ParserErrorView> {
    let role = string_member(tree, "role"@);
    match tree.get("content"@) {
        Some(JsonTree::String(s)) => Ok(
            RawInnerMessageView { content: RawContentView::Text(s), role },
        ),
        Some(JsonTree::Array(items)) => match decode_blocks(items, items.len() as int) {
            Some(blocks) => Ok(
                RawInnerMessageView { content: RawContentView::Blocks(blocks), role },
            ),
            None => Err(bad_block()),
        },
        Some(JsonTree::Null) => Ok(
            RawInnerMessageView { content: RawContentView::Text(Seq::empty()), role },
        ),
        Some(_) => Err(
            ParserErrorView::InvalidField {
                field: "message.content"@,
                reason: "expected string or array"@,
            },
        ),
        None => Ok(RawInnerMessageView { content: RawContentView::Text(Seq::empty()), role }),
    }
}

/// An integer member of the token object: zero where absent, its value where
/// it is an integer in the range of `i64`, a fault (`None`) otherwise.
pub open spec fn count_member(tree: JsonTree, key: Seq<char>) -> Option<i64> {
    match tree.get(key) {
        None => Some(0),
        Some(JsonTree::Number(JsonNumberView::Int(i))) => Some(i),
        Some(_) => None,
    }
}

/// The token counts that a `tokenCount` member stands for: those of an
/// object whose `input` and `output` are integers where present, and zeros
/// for anything else.
pub open spec fn decode_token_count(tree: JsonTree) -> RawTokenCount {
    if !(tree is Object) {
        RawTokenCount { input: 0, output: 0 }
    } else {
        match (count_member(tree, "input"@), count_member(tree, "output"@)) {
            (Some(input), Some(output)) => RawTokenCount { input, output },
            _ => RawTokenCount { input: 0, output: 0 },
        }
    }
}

/// The role that the `type` member names.
pub open spec fn decode_type(tree: JsonTree) -> Result<RawMessageType, ParserErrorView> {
    match tree.get("type"@) {
        Some(JsonTree::String(t)) => if t == "user"@ {
            Ok(RawMessageType::User)
        } else if t == "assistant"@ {
            Ok(RawMessageType::Assistant)
        } else if t == "system"@ {
            Ok(RawMessageType::System)
        } else {
            Err(
                ParserErrorView::InvalidField {
                    field: "type"@,
                    reason: "unknown message type: "@ + t,
                },
            )
        },
        Some(_) => Err(
            ParserErrorView::InvalidField { field: "type"@, reason: "expected string"@ },
        ),
        None => Err(ParserErrorView::MissingField("type"@)),
    }
}

/// The record that a document stands for, or the first fault found in it:
/// the role is checked first, then the presence of `message`, then the body.
pub open spec fn decode_record(tree: JsonTree) -> Result<RawMessageView, ParserErrorView> {
    match decode_type(tree) {
        Err(fault) => Err(fault),
        Ok(message_type) => match tree.get("message"@) {
            None => Err(ParserErrorView::MissingField("message"@)),
            Some(inner) => match decode_inner(inner) {
                Err(fault) => Err(fault),
                Ok(message) => Ok(
                    RawMessageView {
                        message_type,
                        message,
                        timestamp: string_member(tree, "timestamp"@),
                        token_count: match tree.get("tokenCount"@) {
                            Some(counts) => Some(decode_token_count(counts)),
                            None => None,
                        },
                        uuid: string_member(tree, "uuid"@),
                        session_id: string_member(tree, "sessionId"@),
                    },
                ),
            },
        },
    }
}

/// Whether `outcome` is what the line decodes to: a blank line is rejected
/// as empty; a line whose trimmed text is a JSON document decodes as that
/// document does; any other line is a JSON fault, whatever its wording.
pub open spec fn line_decodes_to(
    line: Seq<char>,
    outcome: Result<RawMessageView, ParserErrorView>,
) -> bool {
    let text = trim_spec(line);
    if text.len() == 0 {
        outcome == Err::<RawMessageView, ParserErrorView>(
            ParserErrorView::MissingField("line is empty"@),
        )
    } else {
        match json_document(text) {
            Some(tree) => outcome == decode_record(tree),
            None => outcome matches Err(ParserErrorView::JsonParse(_)),
        }
    }
}

fn owned_member(value: &JsonValue, key: &str) -> (text: Option<String>)
    ensures
        text.deep_view() == string_member(value.deep_view(), key@),
{
    match value.get(key) {
        Some(found) => match found.as_str() {
            Some(s) => Some(s.to_owned()),
            None => None,
        },
        None => None,
    }
}

fn optional_string_field(value: &JsonValue, key: &str) -> (field: Option<Option<String>>)
    ensures
        field.deep_view() == optional_string(value.deep_view(), key@),
{
    match value.get(key) {
        None => Some(None),
        Some(JsonValue::Null) => Some(None),
        Some(JsonValue::String(s)) => Some(Some(s.clone())),
        Some(_) => None,
    }
}

fn optional_value_field(value: &JsonValue, key: &str) -> (field: Option<JsonValue>)
    ensures
        field.deep_view() == optional_value(value.deep_view(), key@),
{
    match value.get(key) {
        None => None,
        Some(JsonValue::Null) => None,
        Some(found) => Some(found.clone()),
    }
}

/// Decodes one sub-block of a structured body.
pub fn parse_content_block(value: &JsonValue) -> (block: Option<RawContentBlock>)
    ensures
        block.deep_view() == decode_block(value.deep_view()),
{
    match value {
        JsonValue::Object(_) => {},
        _ => {
            return None;
        },
    }
    let block_type = match owned_member(value, "type") {
        Some(t) => t,
        None => {
            return None;
        },
    };
    let text = match optional_string_field(value, "text") {
        Some(t) => t,
        None => {
            return None;
        },
    };
    let name = match optional_string_field(value, "name") {
        Some(t) => t,
        None => {
            return None;
        },
    };
    let tool_use_id = match optional_string_field(value, "tool_use_id") {
        Some(t) => t,
        None => {
            return None;
        },
    };
    let input = optional_value_field(value, "input");
    let content = optional_value_field(value, "content");
    Some(RawContentBlock { block_type, text, name, input, tool_use_id, content })
}

fn parse_blocks(items: &Vec<JsonValue>) -> (blocks: Option<Vec<RawContentBlock>>)
    ensures
        blocks.deep_view() == decode_blocks(trees_of(items@), trees_of(items@).len() as int),
{
    let mut blocks: Vec<RawContentBlock> = Vec::new();
    let mut k: usize = 0;
    proof {
        lemma_trees_of(items@);
    }
    assert(blocks.deep_view() =~= Seq::empty());
    while k < items.len()
        invariant
            k <= items.len(),
            trees_of(items@).len() == items.len(),
            forall|i: int|
                0 <= i < items.len() ==> #[trigger] trees_of(items@)[i] == tree_of(items@[i]),
            decode_blocks(trees_of(items@), k as int) == Some(blocks.deep_view()),
        decreases items.len() - k,
    {
        match parse_content_block(&items[k]) {
            Some(block) => {
                let ghost before = blocks.deep_view();
                blocks.push(block);
                assert(blocks.deep_view() =~= before.push(block.deep_view()));
            },
            None => {
                proof {
                    assert(decode_blocks(trees_of(items@), k as int + 1) is None);
                    lemma_decode_blocks_fails(trees_of(items@), k as int + 1, items.len() as int);
                }
                return None;
            },
        }
        k += 1;
    }
    Some(blocks)
}

/// Once a prefix of a list fails to decode, so does every longer prefix.
pub proof fn lemma_decode_blocks_fails(items: Seq<JsonTree>, k: int, n: int)
    requires
        0 <= k <= n,
        decode_blocks(items, k) is None,
    ensures
        decode_blocks(items, n) is None,
    decreases n - k,
{
    if k < n {
        lemma_decode_blocks_fails(items, k, n - 1);
    }
}

/// Decodes the `message` member of a record.
pub fn parse_inner_message(value: &JsonValue) -> (inner: Result<RawInnerMessage, ParserError>)
    ensures
        result_view(inner) == decode_inner(value.deep_view()),
{
    let role = owned_member(value, "role");
    let content = match value.get("content") {
        Some(JsonValue::String(s)) => RawContent::Text(s.clone()),
        Some(JsonValue::Array(items)) => match parse_blocks(items) {
            Some(blocks) => RawContent::Blocks(blocks),
            None => {
                return Err(ParserError::JsonParse("invalid content block".to_owned()));
            },
        },
        Some(JsonValue::Null) => RawContent::Text(String::new()),
        Some(_) => {
            return Err(
                ParserError::InvalidField {
                    field: "message.content".to_owned(),
                    reason: "expected string or array".to_owned(),
                },
            );
        },
        None => RawContent::Text(String::new()),
    };
    Ok(RawInnerMessage { content, role })
}

fn count_field(value: &JsonValue, key: &str) -> (count: Option<i64>)
    ensures
        count == count_member(value.deep_view(), key@),
{
    match value.get(key) {
        None => Some(0),
        Some(JsonValue::Number(JsonNumber::Int(i))) => Some(*i),
        Some(_) => None,
    }
}

/// Decodes the `tokenCount` member of a record.
pub fn parse_token_count(value: &JsonValue) -> (counts: RawTokenCount)
    ensures
        counts == decode_token_count(value.deep_view()),
{
    match value {
        JsonValue::Object(_) => {},
        _ => {
            return RawTokenCount { input: 0, output: 0 };
        },
    }
    match (count_field(value, "input"), count_field(value, "output")) {
        (Some(input), Some(output)) => RawTokenCount { input, output },
        _ => RawTokenCount { input: 0, output: 0 },
    }
}

fn parse_type(value: &JsonValue) -> (role: Result<RawMessageType, ParserError>)
    ensures
        result_view(role) == decode_type(value.deep_view()),
{
    match value.get("type") {
        Some(JsonValue::String(t)) => {
            if str_equal(t.as_str(), "user") {
                Ok(RawMessageType::User)
            } else if str_equal(t.as_str(), "assistant") {
                Ok(RawMessageType::Assistant)
            } else if str_equal(t.as_str(), "system") {
                Ok(RawMessageType::System)
            } else {
                Err(
                    ParserError::InvalidField {
                        field: "type".to_owned(),
                        reason: "unknown message type: ".to_owned().concat(t.as_str()),
                    },
                )
            }
        },
        Some(_) => Err(
            ParserError::InvalidField {
                field: "type".to_owned(),
                reason: "expected string".to_owned(),
            },
        ),
        None => Err(ParserError::MissingField("type".to_owned())),
    }
}

/// Decodes the record that a JSON document stands for.
///
/// Succeeds exactly when the document names one of the three roles in a
/// string `type`, has a `message` member, and the body of that message is a
/// string, null, absent, or a list of well-formed sub-blocks. The faults, in
/// the order in which they are looked for: a missing or unaccepted `type`, a
/// missing `message`, an unaccepted body.
pub fn record_from_json(value: &JsonValue) -> (record: Result<RawMessage, ParserError>)
    ensures
        result_view(record) == decode_record(value.deep_view()),
{
    let message_type = match parse_type(value) {
        Ok(t) => t,
        Err(fault) => {
            return Err(fault);
        },
    };
    let inner = match value.get("message") {
        Some(inner) => inner,
        None => {
            return Err(ParserError::MissingField("message".to_owned()));
        },
    };
    let message = match parse_inner_message(inner) {
        Ok(m) => m,
        Err(fault) => {
            return Err(fault);
        },
    };
    let timestamp = owned_member(value, "timestamp");
    let uuid = owned_member(value, "uuid");
    let session_id = owned_member(value, "sessionId");
    let token_count = match value.get("tokenCount") {
        Some(counts) => Some(parse_token_count(counts)),
        None => None,
    };
    Ok(RawMessage { message_type, message, timestamp, token_count, uuid, session_id })
}

/// Decodes one line of a transcript.
///
/// A blank line is rejected as `MissingField("line is empty")`, a line that
/// is no JSON as `JsonParse` with the reader's message; any other line
/// decodes as its document does (see [`record_from_json`]).
pub fn parse_jsonl_line(line: &str) -> (record: Result<RawMessage, ParserError>)
    ensures
        line_decodes_to(line@, result_view(record)),
{
    let trimmed = trim_chars(&chars_of(line));
    if trimmed.len() == 0 {
        return Err(ParserError::MissingField("line is empty".to_owned()));
    }
    let text = string_of(&trimmed);
    match parse_document(text.as_str()) {
        Ok(value) => record_from_json(&value),
        Err(fault) => Err(ParserError::JsonParse(error_text(&fault))),
    }
}

} // verus!
