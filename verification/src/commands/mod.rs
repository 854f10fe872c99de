//! The computations behind the commands that a front end invokes: query
//! preparation, paging defaults, and the assembly of a full conversation.

pub mod query;

use crate::db::sqlite::{DbError, DbErrorView};
use crate::db::store::{bookmark_set, ConversationStore};
use crate::models::{Conversation, Message, MessageRole, MessageView, TokenCount};
use crate::parser::content::{content_blocks, parse_content_blocks};
use crate::parser::conversation::{ParsedConversation, ParsedConversationView};
use crate::parser::jsonl::{
    ParserError, ParserErrorView, RawMessage, RawMessageType, RawMessageView,
};
use crate::stable_sort::{key_fn, sort_stable, stable_sort, SortKey};
use crate::table::{value_of};
use crate::text::{
    append_chars, chars_of, list_contains, str_equal, string_of, trim_chars, trim_spec,
};
use vstd::prelude::*;

verus! {

/// Number of results of a list query where none is asked for.
pub const DEFAULT_LIMIT: i32 = 100;

/// Shortest search query, in bytes of its trimmed text, that is run.
pub const MIN_QUERY_BYTES: usize = 2;

/// Paging of list queries.
#[derive(Debug, Clone, Copy, PartialEq, Eq)]
pub struct PaginationParams {
    /// Largest number of results.
    pub limit: i32,
    /// Number of results to skip.
    pub offset: i32,
}

/// The limit of a list query where none is asked for.
pub fn default_limit() -> (limit: i32)
    ensures
        limit == DEFAULT_LIMIT,
{
    DEFAULT_LIMIT
}

impl Default for PaginationParams {
    fn default() -> (out: Self)
        ensures
            out.limit == DEFAULT_LIMIT,
            out.offset == 0,
    {
        PaginationParams { limit: default_limit(), offset: 0 }
    }
}

/// Why a command failed.
#[derive(Debug, Clone, PartialEq, Eq)]
pub enum CommandError {
    /// The store failed.
    Database(DbError),
    /// A transcript could not be read.
    Parser(ParserError),
    /// What was asked for does not exist; the text names it.
    NotFound(String),
}

/// Mathematical model of a [`CommandError`].
pub enum CommandErrorView {
    Database(DbErrorView),
    Parser(ParserErrorView),
    NotFound(Seq<char>),
}

impl DeepView for CommandError {
    type V = CommandErrorView;

    open spec fn deep_view(&self) -> CommandErrorView {
        match self {
            CommandError::Database(fault) => CommandErrorView::Database(fault.deep_view()),
            CommandError::Parser(fault) => CommandErrorView::Parser(fault.deep_view()),
            CommandError::NotFound(what) => CommandErrorView::NotFound(what@),
        }
    }
}

/// A tag with the number of conversations that carry it.
#[derive(Debug, Clone, PartialEq, Eq)]
pub struct TagInfo {
    pub tag: String,
    pub count: i32,
}

/// What the store holds of a conversation beyond its messages.
#[derive(Debug, Clone, PartialEq, Eq)]
pub struct ConversationMetadata {
    pub id: String,
    pub project_path: String,
    pub project_name: String,
    pub start_time: String,
    pub last_time: String,
    pub file_path: String,
    pub total_input_tokens: i64,
    pub total_output_tokens: i64,
    pub bookmarked: bool,
}

/// `text` with every double quote doubled.
pub open spec fn quotes_doubled(text: Seq<char>) -> Seq<char>
    decreases text.len(),
{
    if text.len() == 0 {
        Seq::empty()
    } else if text.last() == '"' {
        quotes_doubled(text.drop_last()).push('"').push('"')
    } else {
        quotes_doubled(text.drop_last()).push(text.last())
    }
}

/// The full-text query for what a user typed: double quotes are doubled;
/// text with a space becomes a phrase in double quotes, any other text a
/// prefix query that ends in `*`.
pub open spec fn fts_query(query: Seq<char>) -> Seq<char> {
    let escaped = quotes_doubled(query);
    if escaped.contains(' ') {
        seq!['"'] + escaped + seq!['"']
    } else {
        escaped.push('*')
    }
}

/// Prepares what a user typed for the full-text index (see [`fts_query`]).
pub fn prepare_fts_query(query: &str) -> (prepared: String)
    ensures
        prepared@ == fts_query(query@),
{
    let chars = chars_of(query);
    let mut escaped: Vec<char> = Vec::new();
    let mut has_space = false;
    let mut i: usize = 0;
    assert(chars@.take(0) =~= Seq::empty());
    while i < chars.len()
        invariant
            i <= chars.len(),
            escaped@ == quotes_doubled(chars@.take(i as int)),
            has_space == escaped@.contains(' '),
        decreases chars.len() - i,
    {
        let ghost before = escaped@;
        proof {
            assert(chars@.take(i + 1).drop_last() =~= chars@.take(i as int));
            assert(chars@.take(i + 1).last() == chars@[i as int]);
        }
        let c = chars[i];
        if c == '"' {
            escaped.push('"');
            escaped.push('"');
        } else {
            escaped.push(c);
            if c == ' ' {
                has_space = true;
            }
        }
        proof {
            if before.contains(' ') {
                let at = choose|at: int| 0 <= at < before.len() && before[at] == ' ';
                assert(escaped@[at] == ' ');
            }
            if c == ' ' {
                assert(escaped@[escaped@.len() - 1] == ' ');
            }
            if escaped@.contains(' ') && !before.contains(' ') {
                let at = choose|at: int| 0 <= at < escaped@.len() && escaped@[at] == ' ';
                if at < before.len() {
                    assert(before[at] == ' ');
                }
            }
        }
        i += 1;
    }
    proof {
        assert(chars@.take(chars.len() as int) =~= chars@);
    }
    if has_space {
        let mut phrase: Vec<char> = Vec::new();
        phrase.push('"');
        append_chars(&mut phrase, &escaped);
        phrase.push('"');
        assert(phrase@ =~= seq!['"'] + escaped@ + seq!['"']);
        string_of(&phrase)
    } else {
        escaped.push('*');
        string_of(&escaped)
    }
}

/// Whether a text has at least [`MIN_QUERY_BYTES`] bytes in UTF-8: two
/// characters, or one that is not ASCII.
pub open spec fn long_enough(text: Seq<char>) -> bool {
    text.len() >= 2 || (text.len() == 1 && text[0] as u32 >= 0x80)
}

/// The full-text query for a search request: that of the trimmed text, or
/// `None` where the trimmed text is too short to be searched for, so that
/// the search gives no results.
pub fn search_query(query: &str) -> (prepared: Option<String>)
    ensures
        prepared.deep_view() == if long_enough(trim_spec(query@)) {
            Some(fts_query(trim_spec(query@)))
        } else {
            None
        },
{
    let trimmed = trim_chars(&chars_of(query));
    let searchable = trimmed.len() >= 2 || (trimmed.len() == 1 && trimmed[0] as u32 >= 0x80);
    if searchable {
        Some(prepare_fts_query(string_of(&trimmed).as_str()))
    } else {
        None
    }
}

/// The decimal digit for a value below ten.
pub open spec fn digit_char(d: nat) -> char {
    if d == 0 {
        '0'
    } else if d == 1 {
        '1'
    } else if d == 2 {
        '2'
    } else if d == 3 {
        '3'
    } else if d == 4 {
        '4'
    } else if d == 5 {
        '5'
    } else if d == 6 {
        '6'
    } else if d == 7 {
        '7'
    } else if d == 8 {
        '8'
    } else {
        '9'
    }
}

/// The decimal digits of a number.
pub open spec fn decimal(n: nat) -> Seq<char>
    decreases n,
{
    if n < 10 {
        seq![digit_char(n)]
    } else {
        decimal(n / 10).push(digit_char(n % 10))
    }
}

fn digit_of(d: usize) -> (c: char)
    requires
        d < 10,
    ensures
        c == digit_char(d as nat),
{
    if d == 0 {
        '0'
    } else if d == 1 {
        '1'
    } else if d == 2 {
        '2'
    } else if d == 3 {
        '3'
    } else if d == 4 {
        '4'
    } else if d == 5 {
        '5'
    } else if d == 6 {
        '6'
    } else if d == 7 {
        '7'
    } else if d == 8 {
        '8'
    } else {
        '9'
    }
}

fn push_decimal(out: &mut Vec<char>, n: usize)
    ensures
        final(out)@ == old(out)@ + decimal(n as nat),
    decreases n,
{
    if n < 10 {
        out.push(digit_of(n));
        assert(out@ =~= old(out)@ + decimal(n as nat));
    } else {
        push_decimal(out, n / 10);
        out.push(digit_of(n % 10));
        assert(out@ =~= old(out)@ + decimal(n as nat));
    }
}

/// The identifier of the message at position `index` that has none of its
/// own.
pub open spec fn fallback_id(index: nat) -> Seq<char> {
    "msg_"@ + decimal(index)
}

/// The role of a record.
pub open spec fn role_of(kind: RawMessageType) -> MessageRole {
    match kind {
        RawMessageType::User => MessageRole::User,
        RawMessageType::Assistant => MessageRole::Assistant,
        RawMessageType::System => MessageRole::System,
    }
}

/// The message that the record at position `index` is shown as.
pub open spec fn message_of(record: RawMessageView, index: nat) -> MessageView {
    MessageView {
        id: match record.uuid {
            Some(id) => id,
            None => fallback_id(index),
        },
        role: role_of(record.message_type),
        content: content_blocks(record.message.content),
        timestamp: match record.timestamp {
            Some(t) => t,
            None => Seq::empty(),
        },
        token_count: match record.token_count {
            Some(counts) => Some(TokenCount { input: counts.input, output: counts.output }),
            None => None,
        },
    }
}

/// The messages that the records are shown as, in order.
pub open spec fn messages_of(records: Seq<RawMessageView>) -> Seq<MessageView> {
    Seq::new(records.len(), |i: int| message_of(records[i], i as nat))
}

fn message_from(record: &RawMessage, index: usize) -> (message: Message)
    ensures
        message.deep_view() == message_of(record.deep_view(), index as nat),
{
    let id = match &record.uuid {
        Some(id) => id.clone(),
        None => {
            let mut text = chars_of("msg_");
            push_decimal(&mut text, index);
            string_of(&text)
        },
    };
    let role = match record.message_type {
        RawMessageType::User => MessageRole::User,
        RawMessageType::Assistant => MessageRole::Assistant,
        RawMessageType::System => MessageRole::System,
    };
    let timestamp = match &record.timestamp {
        Some(t) => t.clone(),
        None => String::new(),
    };
    let token_count = match record.token_count {
        Some(counts) => Some(TokenCount { input: counts.input, output: counts.output }),
        None => None,
    };
    Message {
        id,
        role,
        content: parse_content_blocks(&record.message.content),
        timestamp,
        token_count,
    }
}

/// Turns the records of a conversation into messages with display blocks. A
/// record without an identifier gets one from its position.
pub fn messages_from_records(records: &[RawMessage]) -> (messages: Vec<Message>)
    ensures
        messages.deep_view() == messages_of(records.deep_view()),
{
    let mut messages: Vec<Message> = Vec::new();
    let mut k: usize = 0;
    while k < records.len()
        invariant
            k <= records.len(),
            messages.len() == k,
            forall|j: int|
                0 <= j < k ==> (#[trigger] messages@[j]).deep_view() == message_of(
                    records@[j].deep_view(),
                    j as nat,
                ),
        decreases records.len() - k,
    {
        messages.push(message_from(&records[k], k));
        k += 1;
    }
    assert(messages.deep_view() =~= messages_of(records.deep_view()));
    messages
}

/// Position of the first conversation among the first `k` with the
/// identifier `id`.
pub open spec fn conversation_position(
    conversations: Seq<ParsedConversationView>,
    id: Seq<char>,
    k: int,
) -> Option<int>
    decreases k,
{
    if k <= 0 {
        None
    } else {
        match conversation_position(conversations, id, k - 1) {
            Some(at) => Some(at),
            None => if conversations[k - 1].id == id {
                Some(k - 1)
            } else {
                None
            },
        }
    }
}

/// Finds the position of the conversation with the identifier `id` among
/// those read from a file.
pub fn find_conversation(conversations: &[ParsedConversation], id: &str) -> (found: Option<usize>)
    ensures
        found matches Some(at) ==> at < conversations.len() && conversation_position(
            conversations.deep_view(),
            id@,
            conversations.len() as int,
        ) == Some(at as int),
        found is None ==> conversation_position(
            conversations.deep_view(),
            id@,
            conversations.len() as int,
        ) is None,
{
    let mut k: usize = 0;
    while k < conversations.len()
        invariant
            k <= conversations.len(),
            conversation_position(conversations.deep_view(), id@, k as int) is None,
        decreases conversations.len() - k,
    {
        assert(conversations.deep_view()[k as int] == conversations@[k as int].deep_view());
        if str_equal(conversations[k].id.as_str(), id) {
            proof {
                lemma_conversation_found(
                    conversations.deep_view(),
                    id@,
                    k as int,
                    conversations.len() as int,
                );
            }
            return Some(k);
        }
        k += 1;
    }
    None
}

/// Once the conversation is found at `k` with none before it, `k` is its
/// position in every longer prefix.
pub proof fn lemma_conversation_found(
    conversations: Seq<ParsedConversationView>,
    id: Seq<char>,
    k: int,
    n: int,
)
    requires
        0 <= k < n <= conversations.len(),
        conversation_position(conversations, id, k) is None,
        conversations[k].id == id,
    ensures
        conversation_position(conversations, id, n) == Some(k),
    decreases n - k,
{
    if n > k + 1 {
        lemma_conversation_found(conversations, id, k, n - 1);
    }
}

/// Assembles a full conversation from what the store holds of it, the
/// conversations read from its file, and its tags.
///
/// Fails with `NotFound` if the file holds no conversation with the stored
/// identifier. The messages are those of the conversation in the file,
/// turned into display blocks; the totals and times are the stored ones; an
/// empty list of tags is shown as none.
pub fn conversation_from(
    metadata: ConversationMetadata,
    parsed: &[ParsedConversation],
    tags: Vec<String>,
) -> (result: Result<Conversation, CommandError>)
    ensures
        match conversation_position(parsed.deep_view(), metadata.id@, parsed.len() as int) {
            Some(at) => result matches Ok(conversation) && conversation.id@ == metadata.id@
                && conversation.project_path@ == metadata.project_path@
                && conversation.project_name@ == metadata.project_name@
                && conversation.start_time@ == metadata.start_time@ && conversation.last_time@
                == metadata.last_time@ && conversation.messages.deep_view() == messages_of(
                parsed.deep_view()[at].messages,
            ) && conversation.total_tokens == (TokenCount {
                input: metadata.total_input_tokens,
                output: metadata.total_output_tokens,
            }) && conversation.bookmarked == Some(metadata.bookmarked) && (tags.len() == 0
                ==> conversation.tags is None) && (tags.len() > 0 ==> conversation.tags == Some(
                tags,
            )),
            None => result matches Err(CommandError::NotFound(what)) && what@
                == "Conversation not found in file: "@ + metadata.id@,
        },
{
    let found = match find_conversation(parsed, metadata.id.as_str()) {
        Some(at) => {
            assert(parsed.deep_view()[at as int] == parsed@[at as int].deep_view());
            &parsed[at]
        },
        None => {
            let mut what = chars_of("Conversation not found in file: ");
            append_chars(&mut what, &chars_of(metadata.id.as_str()));
            return Err(CommandError::NotFound(string_of(&what)));
        },
    };
    let messages = messages_from_records(found.messages.as_slice());
    Ok(
        Conversation {
            id: metadata.id,
            project_path: metadata.project_path,
            project_name: metadata.project_name,
            start_time: metadata.start_time,
            last_time: metadata.last_time,
            messages,
            total_tokens: TokenCount {
                input: metadata.total_input_tokens,
                output: metadata.total_output_tokens,
            },
            bookmarked: Some(metadata.bookmarked),
            tags: if tags.len() == 0 {
                None
            } else {
                Some(tags)
            },
        },
    )
}

/// Flips the bookmark of a conversation and returns the new status. Fails
/// if the store has no conversation with this identifier.
pub fn toggle_bookmark(store: &mut ConversationStore, conversation_id: &str) -> (result: Result<
    bool,
    CommandError,
>)
    ensures
        match value_of(old(store)@, conversation_id@) {
            Some(row) => result == Ok::<bool, CommandError>(!row.bookmarked) && final(store)@
                == bookmark_set(old(store)@, conversation_id@, !row.bookmarked),
            None => result matches Err(CommandError::Database(DbError::Sqlite(_)))
                && final(store)@ == old(store)@,
        },
{
    let bookmarked = match store.get(conversation_id) {
        Some(row) => row.bookmarked,
        None => {
            return Err(
                CommandError::Database(DbError::Sqlite("FOREIGN KEY constraint failed".to_owned())),
            );
        },
    };
    store.set_bookmarked(conversation_id, !bookmarked);
    Ok(!bookmarked)
}

/// The lower-case form of a text, as `str::to_lowercase` gives it.
pub uninterp spec fn lowercased(text: Seq<char>) -> Seq<char>;

/// Calls `str::to_lowercase`. The standard library documents the result as
/// the lower-case equivalent of the text by the Unicode `Lowercase`
/// property, a function of the text alone, which [`lowercased`] names.
#[verifier::external_body]
fn to_lowercase(text: &str) -> (lower: String)
    ensures
        lower@ == lowercased(text@),
{
    text.to_lowercase()
}

impl SortKey for String {
    open spec fn key_of(v: Seq<char>) -> Seq<char> {
        v
    }

    fn sort_key(&self) -> (key: Vec<char>) {
        chars_of(self.as_str())
    }
}

/// The form in which a tag is stored: trimmed and in lower case.
pub open spec fn normal_tag(tag: Seq<char>) -> Seq<char> {
    lowercased(trim_spec(tag))
}

/// The stored forms of the first `k` tags, each once, in the order in
/// which they first occur; a tag whose stored form is empty is left out.
pub open spec fn distinct_tags(tags: Seq<Seq<char>>, k: int) -> Seq<Seq<char>>
    decreases k,
{
    if k <= 0 {
        Seq::empty()
    } else {
        let before = distinct_tags(tags, k - 1);
        let tag = normal_tag(tags[k - 1]);
        if tag.len() == 0 || before.contains(tag) {
            before
        } else {
            before.push(tag)
        }
    }
}

/// The tags that are stored for a request: the distinct stored forms, in
/// ascending order.
pub open spec fn normalized_tags(tags: Seq<Seq<char>>) -> Seq<Seq<char>> {
    stable_sort(distinct_tags(tags, tags.len() as int), key_fn::<String>(), true)
}

/// Normalizes the tags of a request: each tag is trimmed and put in lower
/// case, empty tags and repetitions are dropped, and the rest is sorted.
pub fn normalize_tags(tags: &[String]) -> (stored: Vec<String>)
    ensures
        stored.deep_view() == normalized_tags(tags.deep_view()),
{
    let mut stored: Vec<String> = Vec::new();
    let mut k: usize = 0;
    assert(stored.deep_view() =~= Seq::empty());
    while k < tags.len()
        invariant
            k <= tags.len(),
            stored.deep_view() == distinct_tags(tags.deep_view(), k as int),
        decreases tags.len() - k,
    {
        assert(tags.deep_view()[k as int] == tags@[k as int]@);
        let trimmed = string_of(&trim_chars(&chars_of(tags[k].as_str())));
        let tag = to_lowercase(trimmed.as_str());
        if !tag.as_str().is_empty() && !list_contains(stored.as_slice(), &chars_of(tag.as_str())) {
            let ghost before = stored.deep_view();
            stored.push(tag);
            assert(stored.deep_view() =~= before.push(tag@));
        }
        k += 1;
    }
    sort_stable(&mut stored, true);
    stored
}

} // verus!
