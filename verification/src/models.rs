//! Data structures shared by the parser, the index and the read cache.

use vstd::prelude::*;

verus! {

/// Input and output token counts.
#[derive(Debug, Clone, Copy, PartialEq, Eq)]
pub struct TokenCount {
    pub input: i64,
    pub output: i64,
}

impl Default for TokenCount {
    fn default() -> (out: Self)
        ensures
            out.input == 0,
            out.output == 0,
    {
        TokenCount { input: 0, output: 0 }
    }
}

/// Kind of a content block.
#[derive(Debug, Clone, Copy, PartialEq, Eq, Structural)]
pub enum ContentBlockType {
    Text,
    Code,
    ToolUse,
    ToolResult,
}

/// One typed, ordered unit of display content within a message.
#[derive(Debug, Clone)]
pub struct ContentBlock {
    pub block_type: ContentBlockType,
    pub content: String,
    /// Programming language, for code blocks.
    pub language: Option<String>,
    /// Tool name, for tool invocations; invocation identifier, for tool results.
    pub tool_name: Option<String>,
}

/// Mathematical model of a [`ContentBlock`].
pub struct ContentBlockView {
    pub block_type: ContentBlockType,
    pub content: Seq<char>,
    pub language: Option<Seq<char>>,
    pub tool_name: Option<Seq<char>>,
}

impl DeepView for ContentBlock {
    type V = ContentBlockView;

    open spec fn deep_view(&self) -> ContentBlockView {
        ContentBlockView {
            block_type: self.block_type,
            content: self.content@,
            language: self.language.deep_view(),
            tool_name: self.tool_name.deep_view(),
        }
    }
}

/// Role of the author of a message.
#[derive(Debug, Clone, Copy, PartialEq, Eq, Structural)]
pub enum MessageRole {
    User,
    Assistant,
    System,
}

/// A single message of a conversation.
#[derive(Debug, Clone)]
pub struct Message {
    pub id: String,
    pub role: MessageRole,
    pub content: Vec<ContentBlock>,
    /// ISO 8601 timestamp; empty when the record had none.
    pub timestamp: String,
    pub token_count: Option<TokenCount>,
}

/// Mathematical model of a [`Message`].
pub struct MessageView {
    pub id: Seq<char>,
    pub role: MessageRole,
    pub content: Seq<ContentBlockView>,
    pub timestamp: Seq<char>,
    pub token_count: Option<TokenCount>,
}

impl DeepView for Message {
    type V = MessageView;

    open spec fn deep_view(&self) -> MessageView {
        MessageView {
            id: self.id@,
            role: self.role,
            content: self.content.deep_view(),
            timestamp: self.timestamp@,
            token_count: self.token_count,
        }
    }
}

/// A complete conversation with all of its messages.
#[derive(Debug, Clone)]
pub struct Conversation {
    /// Identifier derived from the file path and the session.
    pub id: String,
    pub project_path: String,
    pub project_name: String,
    /// First message timestamp (ISO 8601).
    pub start_time: String,
    /// Last message timestamp (ISO 8601).
    pub last_time: String,
    pub messages: Vec<Message>,
    pub total_tokens: TokenCount,
    pub bookmarked: Option<bool>,
    pub tags: Option<Vec<String>>,
}

/// Summary of a conversation, as shown in lists.
#[derive(Debug, Clone)]
pub struct ConversationSummary {
    pub id: String,
    pub project_name: String,
    pub start_time: String,
    pub last_time: String,
    pub preview: String,
    pub message_count: i32,
    pub bookmarked: bool,
}

/// Mathematical model of a [`ConversationSummary`].
pub struct ConversationSummaryView {
    pub id: Seq<char>,
    pub project_name: Seq<char>,
    pub start_time: Seq<char>,
    pub last_time: Seq<char>,
    pub preview: Seq<char>,
    pub message_count: i32,
    pub bookmarked: bool,
}

impl DeepView for ConversationSummary {
    type V = ConversationSummaryView;

    open spec fn deep_view(&self) -> ConversationSummaryView {
        ConversationSummaryView {
            id: self.id@,
            project_name: self.project_name@,
            start_time: self.start_time@,
            last_time: self.last_time@,
            preview: self.preview@,
            message_count: self.message_count,
            bookmarked: self.bookmarked,
        }
    }
}

/// Filter options for conversation queries.
#[derive(Debug, Clone)]
pub struct ConversationFilters {
    pub project: Option<String>,
    /// Start of the date range (inclusive, ISO 8601).
    pub date_start: Option<String>,
    /// End of the date range (inclusive, ISO 8601).
    pub date_end: Option<String>,
    pub bookmarked: Option<bool>,
    /// Tags that a conversation must all carry.
    pub tags: Option<Vec<String>>,
}

/// Mathematical model of a [`ConversationFilters`].
pub struct ConversationFiltersView {
    pub project: Option<Seq<char>>,
    pub date_start: Option<Seq<char>>,
    pub date_end: Option<Seq<char>>,
    pub bookmarked: Option<bool>,
    pub tags: Option<Seq<Seq<char>>>,
}

impl DeepView for ConversationFilters {
    type V = ConversationFiltersView;

    open spec fn deep_view(&self) -> ConversationFiltersView {
        ConversationFiltersView {
            project: self.project.deep_view(),
            date_start: self.date_start.deep_view(),
            date_end: self.date_end.deep_view(),
            bookmarked: self.bookmarked,
            tags: self.tags.deep_view(),
        }
    }
}

impl Default for ConversationFilters {
    fn default() -> (out: Self)
        ensures
            out.project is None,
            out.date_start is None,
            out.date_end is None,
            out.bookmarked is None,
            out.tags is None,
    {
        ConversationFilters {
            project: None,
            date_start: None,
            date_end: None,
            bookmarked: None,
            tags: None,
        }
    }
}

/// A project with the number of its conversations.
#[derive(Debug, Clone)]
pub struct ProjectInfo {
    pub project_path: String,
    pub project_name: String,
    pub conversation_count: i32,
    /// Timestamp of the most recent activity (ISO 8601).
    pub last_activity: String,
}

} // verus!
