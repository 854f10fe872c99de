//! Processing of a batch of changed files: store and index writes, ledger
//! commits, cache refresh and the change notification.

use crate::db::metadata::{committed, update_file_metadata, ModifiedFile, ModifiedFileView};
use crate::db::store::{latest_first, stored, ConversationRecord, ConversationRecordView};
use crate::parser::conversation::{ParsedConversation, ParsedConversationView};
use crate::parser::jsonl::{
    RawContent, RawContentBlock, RawContentBlockView, RawContentView, RawMessage, RawMessageType,
    RawMessageView,
};
use crate::search::index::{index_conversation, indexed, searchable_content, SearchEntryView};
use crate::state::{AppState, Database, DatabaseView};
use crate::text::{chars_of, list_contains, str_equal, string_of, trim_chars, trim_spec};
use vstd::prelude::*;

verus! {

/// Longest text, in characters, that a stored preview is cut from.
pub const STORED_PREVIEW_LIMIT: usize = 200;

/// Why the watcher or a batch failed.
#[derive(Debug, Clone, PartialEq, Eq)]
pub enum WatcherError {
    /// The directory of the transcripts could not be determined.
    ProjectsDirNotFound(String),
    /// The file watcher could not be created.
    WatcherCreation(String),
    /// The directory could not be watched.
    WatchStart(String),
    /// The store failed.
    Database(String),
    /// A file could not be read or parsed.
    Parser(String),
}

/// The notification sent after a batch.
#[derive(Debug, Clone, Copy, PartialEq, Eq)]
pub struct ConversationsUpdatedPayload {
    /// Number of conversations from files that were new.
    pub new_count: usize,
    /// Number of conversations from files that were modified.
    pub updated_count: usize,
    /// Whether the batch came from live watching rather than from startup.
    pub from_watcher: bool,
}

/// A file of a batch with the conversations read from it, or `None` where
/// the file could not be read.
#[derive(Debug, Clone, PartialEq, Eq)]
pub struct BatchFile {
    pub file: ModifiedFile,
    pub conversations: Option<Vec<ParsedConversation>>,
}

/// Mathematical model of a [`BatchFile`].
pub struct BatchFileView {
    pub file: ModifiedFileView,
    pub conversations: Option<Seq<ParsedConversationView>>,
}

impl DeepView for BatchFile {
    type V = BatchFileView;

    open spec fn deep_view(&self) -> BatchFileView {
        BatchFileView {
            file: self.file.deep_view(),
            conversations: self.conversations.deep_view(),
        }
    }
}

/// `text` with each line break replaced by a space.
pub open spec fn without_line_breaks(text: Seq<char>) -> Seq<char> {
    Seq::new(
        text.len(),
        |i: int|
            if text[i] == '\n' {
                ' '
            } else {
                text[i]
            },
    )
}

/// The stored preview of a text: its first [`STORED_PREVIEW_LIMIT`]
/// characters, line breaks replaced by spaces, trimmed.
pub open spec fn stored_preview(text: Seq<char>) -> Seq<char> {
    let head = if text.len() <= STORED_PREVIEW_LIMIT {
        text
    } else {
        text.take(STORED_PREVIEW_LIMIT as int)
    };
    trim_spec(without_line_breaks(head))
}

/// The text of the first sub-block among the first `k` that has a text and,
/// if `strict`, is of type `text`.
pub open spec fn first_block_text(blocks: Seq<RawContentBlockView>, strict: bool, k: int) -> Option<
    Seq<char>,
>
    decreases k,
{
    if k <= 0 {
        None
    } else {
        match first_block_text(blocks, strict, k - 1) {
            Some(text) => Some(text),
            None => if (!strict || blocks[k - 1].block_type == "text"@) && blocks[k - 1].text
                is Some {
                blocks[k - 1].text
            } else {
                None
            },
        }
    }
}

/// The text that a record offers for a preview: a plain body, or the text of
/// its first suitable sub-block.
pub open spec fn record_text(m: RawMessageView, strict: bool) -> Option<Seq<char>> {
    match m.message.content {
        RawContentView::Text(text) => Some(text),
        RawContentView::Blocks(blocks) => first_block_text(blocks, strict, blocks.len() as int),
    }
}

/// The text of the first user record among the first `k` that offers one in
/// a body or in a sub-block of type `text`.
pub open spec fn first_user_text(messages: Seq<RawMessageView>, k: int) -> Option<Seq<char>>
    decreases k,
{
    if k <= 0 {
        None
    } else {
        match first_user_text(messages, k - 1) {
            Some(text) => Some(text),
            None => if messages[k - 1].message_type == RawMessageType::User {
                record_text(messages[k - 1], true)
            } else {
                None
            },
        }
    }
}

/// The preview stored for a conversation: cut from the first user record
/// that offers a text; failing that, from the first record of any role and
/// any of its sub-blocks; failing that, empty.
pub open spec fn generated_preview(messages: Seq<RawMessageView>) -> Seq<char> {
    match first_user_text(messages, messages.len() as int) {
        Some(text) => stored_preview(text),
        None => if messages.len() > 0 {
            match record_text(messages[0], false) {
                Some(text) => stored_preview(text),
                None => Seq::empty(),
            }
        } else {
            Seq::empty()
        },
    }
}

fn cut_preview(text: &str) -> (preview: String)
    ensures
        preview@ == stored_preview(text@),
{
    let chars = chars_of(text);
    let limit = if chars.len() <= STORED_PREVIEW_LIMIT {
        chars.len()
    } else {
        STORED_PREVIEW_LIMIT
    };
    let mut line: Vec<char> = Vec::new();
    let mut i: usize = 0;
    let ghost head = chars@.take(limit as int);
    while i < limit
        invariant
            i <= limit <= chars.len(),
            head == chars@.take(limit as int),
            line@ == without_line_breaks(head).take(i as int),
        decreases limit - i,
    {
        let c = if chars[i] == '\n' {
            ' '
        } else {
            chars[i]
        };
        line.push(c);
        assert(line@ =~= without_line_breaks(head).take(i + 1));
        i += 1;
    }
    proof {
        assert(without_line_breaks(head).take(limit as int) =~= without_line_breaks(head));
        if chars.len() <= STORED_PREVIEW_LIMIT {
            assert(head =~= text@);
        }
    }
    string_of(&trim_chars(&line))
}

fn block_text(blocks: &Vec<RawContentBlock>, strict: bool) -> (text: Option<&String>)
    ensures
        text.deep_view() == first_block_text(blocks.deep_view(), strict, blocks.len() as int),
{
    let mut k: usize = 0;
    while k < blocks.len()
        invariant
            k <= blocks.len(),
            first_block_text(blocks.deep_view(), strict, k as int) is None,
        decreases blocks.len() - k,
    {
        assert(blocks.deep_view()[k as int] == blocks@[k as int].deep_view());
        let suitable = !strict || str_equal(blocks[k].block_type.as_str(), "text");
        if suitable {
            match &blocks[k].text {
                Some(text) => {
                    proof {
                        lemma_first_block_text_found(
                            blocks.deep_view(),
                            strict,
                            k as int,
                            blocks.len() as int,
                        );
                    }
                    return Some(text);
                },
                None => {},
            }
        }
        k += 1;
    }
    None
}

/// Once a suitable sub-block is found at `k` with none before it, its text
/// is the first of every longer prefix.
pub proof fn lemma_first_block_text_found(
    blocks: Seq<RawContentBlockView>,
    strict: bool,
    k: int,
    n: int,
)
    requires
        0 <= k < n <= blocks.len(),
        first_block_text(blocks, strict, k) is None,
        !strict || blocks[k].block_type == "text"@,
        blocks[k].text is Some,
    ensures
        first_block_text(blocks, strict, n) == blocks[k].text,
    decreases n - k,
{
    if n > k + 1 {
        lemma_first_block_text_found(blocks, strict, k, n - 1);
    }
}

/// Once a user record that offers a text is found at `k` with none before
/// it, its text is the first of every longer prefix.
pub proof fn lemma_first_user_text_found(messages: Seq<RawMessageView>, k: int, n: int)
    requires
        0 <= k < n <= messages.len(),
        first_user_text(messages, k) is None,
        messages[k].message_type == RawMessageType::User,
        record_text(messages[k], true) is Some,
    ensures
        first_user_text(messages, n) == record_text(messages[k], true),
    decreases n - k,
{
    if n > k + 1 {
        lemma_first_user_text_found(messages, k, n - 1);
    }
}

fn text_of_record(record: &RawMessage, strict: bool) -> (text: Option<&String>)
    ensures
        text.deep_view() == record_text(record.deep_view(), strict),
{
    match &record.message.content {
        RawContent::Text(text) => Some(text),
        RawContent::Blocks(blocks) => block_text(blocks, strict),
    }
}

/// The preview stored for a conversation (see [`generated_preview`]).
pub fn generate_preview(messages: &[RawMessage]) -> (preview: String)
    ensures
        preview@ == generated_preview(messages.deep_view()),
{
    let mut k: usize = 0;
    while k < messages.len()
        invariant
            k <= messages.len(),
            first_user_text(messages.deep_view(), k as int) is None,
        decreases messages.len() - k,
    {
        assert(messages.deep_view()[k as int] == messages@[k as int].deep_view());
        let is_user = match messages[k].message_type {
            RawMessageType::User => true,
            _ => false,
        };
        if is_user {
            match text_of_record(&messages[k], true) {
                Some(text) => {
                    proof {
                        lemma_first_user_text_found(
                            messages.deep_view(),
                            k as int,
                            messages.len() as int,
                        );
                    }
                    return cut_preview(text.as_str());
                },
                None => {},
            }
        }
        k += 1;
    }
    if messages.len() > 0 {
        assert(messages.deep_view()[0] == messages@[0].deep_view());
        match text_of_record(&messages[0], false) {
            Some(text) => cut_preview(text.as_str()),
            None => String::new(),
        }
    } else {
        String::new()
    }
}

/// The record that is stored for a conversation read from a file with the
/// modification time `modified_at`.
pub open spec fn record_of(
    conversation: ParsedConversationView,
    modified_at: Seq<char>,
) -> ConversationRecordView {
    ConversationRecordView {
        id: conversation.id,
        project_path: conversation.project_path,
        project_name: conversation.project_name,
        start_time: conversation.start_time,
        last_time: conversation.last_time,
        preview: generated_preview(conversation.messages),
        message_count: conversation.messages.len() as usize,
        total_input_tokens: conversation.total_input_tokens,
        total_output_tokens: conversation.total_output_tokens,
        file_path: conversation.file_path,
        file_modified_at: modified_at,
    }
}

/// The tables after one conversation is written: its record is stored, and
/// it is indexed under its searchable text and project name.
pub open spec fn with_conversation(
    db: DatabaseView,
    conversation: ParsedConversationView,
    modified_at: Seq<char>,
) -> DatabaseView {
    let record = record_of(conversation, modified_at);
    let conversations = stored(db.conversations, record);
    DatabaseView {
        conversations,
        search_index: indexed(
            conversations,
            db.search_index,
            conversation.id,
            SearchEntryView {
                content: searchable_content(conversation.messages),
                project_name: conversation.project_name,
            },
        ),
        file_metadata: db.file_metadata,
    }
}

/// The tables after the first `k` conversations of a file are written.
pub open spec fn with_conversations(
    db: DatabaseView,
    conversations: Seq<ParsedConversationView>,
    modified_at: Seq<char>,
    k: int,
) -> DatabaseView
    decreases k,
{
    if k <= 0 {
        db
    } else {
        with_conversation(
            with_conversations(db, conversations, modified_at, k - 1),
            conversations[k - 1],
            modified_at,
        )
    }
}

/// The tables after a file is processed: unchanged if the file holds no
/// conversation; otherwise every conversation is written and then the
/// ledger records the file.
pub open spec fn with_file(
    db: DatabaseView,
    file_path: Seq<char>,
    modified_at: Seq<char>,
    conversations: Seq<ParsedConversationView>,
    parsed_at: Seq<char>,
) -> DatabaseView {
    if conversations.len() == 0 {
        db
    } else {
        let written = with_conversations(
            db,
            conversations,
            modified_at,
            conversations.len() as int,
        );
        DatabaseView {
            conversations: written.conversations,
            search_index: written.search_index,
            file_metadata: committed(written.file_metadata, file_path, modified_at, parsed_at),
        }
    }
}

fn conversation_record(conversation: &ParsedConversation, modified_at: &str) -> (record:
    ConversationRecord)
    ensures
        record.deep_view() == record_of(conversation.deep_view(), modified_at@),
{
    ConversationRecord {
        id: conversation.id.clone(),
        project_path: conversation.project_path.clone(),
        project_name: conversation.project_name.clone(),
        start_time: conversation.start_time.clone(),
        last_time: conversation.last_time.clone(),
        preview: generate_preview(conversation.messages.as_slice()),
        message_count: conversation.messages.len(),
        total_input_tokens: conversation.total_input_tokens,
        total_output_tokens: conversation.total_output_tokens,
        file_path: conversation.file_path.clone(),
        file_modified_at: modified_at.to_owned(),
    }
}

/// Writes the conversations of one file to the tables and returns their
/// number.
///
/// Each conversation is stored under its identifier and indexed under its
/// searchable text; after all of them the ledger records the file with the
/// modification time `modified_at` as processed at `parsed_at`. A file
/// without conversations changes nothing, and is not recorded.
pub fn process_single_file(
    db: &mut Database,
    file_path: &str,
    modified_at: &str,
    conversations: &[ParsedConversation],
    parsed_at: &str,
) -> (count: usize)
    ensures
        final(db)@ == with_file(
            old(db)@,
            file_path@,
            modified_at@,
            conversations.deep_view(),
            parsed_at@,
        ),
        count == conversations.len(),
{
    if conversations.len() == 0 {
        return 0;
    }
    let mut k: usize = 0;
    while k < conversations.len()
        invariant
            k <= conversations.len(),
            db@ == with_conversations(old(db)@, conversations.deep_view(), modified_at@, k as int),
        decreases conversations.len() - k,
    {
        assert(conversations.deep_view()[k as int] == conversations@[k as int].deep_view());
        let conversation = &conversations[k];
        let record = conversation_record(conversation, modified_at);
        db.conversations.upsert(record);
        let _ = index_conversation(&db.conversations, &mut db.search_index, conversation);
        k += 1;
    }
    update_file_metadata(&mut db.file_metadata, file_path, modified_at, parsed_at);
    conversations.len()
}

/// The files among the first `k` of `modified` whose path is one of
/// `changed`, in their order.
pub open spec fn selected_files(
    modified: Seq<ModifiedFileView>,
    changed: Seq<Seq<char>>,
    k: int,
) -> Seq<ModifiedFileView>
    decreases k,
{
    if k <= 0 {
        Seq::empty()
    } else if changed.contains(modified[k - 1].file_path) {
        selected_files(modified, changed, k - 1).push(modified[k - 1])
    } else {
        selected_files(modified, changed, k - 1)
    }
}

/// Narrows the files that classification found new or modified to those
/// that the watcher saw change, so that a file that was touched but is
/// unchanged is not processed.
pub fn files_to_process(modified: Vec<ModifiedFile>, changed_paths: &[String]) -> (files: Vec<
    ModifiedFile,
>)
    ensures
        files.deep_view() == selected_files(
            modified.deep_view(),
            changed_paths.deep_view(),
            modified.len() as int,
        ),
{
    let mut files: Vec<ModifiedFile> = Vec::new();
    let ghost all = modified.deep_view();
    let ghost rows = modified@;
    assert(files.deep_view() =~= Seq::empty());
    for file in it: modified
        invariant
            it.seq() == rows,
            all.len() == rows.len(),
            forall|i: int| 0 <= i < rows.len() ==> #[trigger] all[i] == rows[i].deep_view(),
            files.deep_view() == selected_files(all, changed_paths.deep_view(), it.index() as int),
    {
        assert(file == rows[it.index() as int]);
        if list_contains(changed_paths, &chars_of(file.file_path.as_str())) {
            let ghost before = files.deep_view();
            files.push(file);
            assert(files.deep_view() =~= before.push(file.deep_view()));
        }
    }
    files
}

/// `a + b`, or the largest count if the sum is out of range.
pub open spec fn capped_sum(a: usize, b: usize) -> usize {
    if a + b > usize::MAX {
        usize::MAX
    } else {
        (a + b) as usize
    }
}

/// The counts of a notification after the first `k` files of a batch: the
/// conversations of each file that was read count as new if the file was
/// new, and as updated otherwise.
pub open spec fn tally(files: Seq<BatchFileView>, k: int) -> (usize, usize)
    decreases k,
{
    if k <= 0 {
        (0, 0)
    } else {
        let before = tally(files, k - 1);
        match files[k - 1].conversations {
            Some(conversations) => if files[k - 1].file.is_new {
                (capped_sum(before.0, conversations.len() as usize), before.1)
            } else {
                (before.0, capped_sum(before.1, conversations.len() as usize))
            },
            None => before,
        }
    }
}

/// The tables after the first `k` files of a batch are processed; a file
/// that could not be read changes nothing.
pub open spec fn with_batch(
    db: DatabaseView,
    files: Seq<BatchFileView>,
    parsed_at: Seq<char>,
    k: int,
) -> DatabaseView
    decreases k,
{
    if k <= 0 {
        db
    } else {
        let before = with_batch(db, files, parsed_at, k - 1);
        match files[k - 1].conversations {
            Some(conversations) => with_file(
                before,
                files[k - 1].file.file_path,
                files[k - 1].file.current_modified_at,
                conversations,
                parsed_at,
            ),
            None => before,
        }
    }
}

/// Applies a batch of files and gives the notification to send for it.
///
/// Each file that was read is processed as [`process_single_file`] does; a
/// file that could not be read is skipped without effect on the others.
/// Then, whatever became of the files and also where the batch holds none,
/// the cache is replaced by the summaries of the store, and the one
/// notification of the batch carries the counts of new and updated
/// conversations.
pub fn process_changed_files(
    state: &mut AppState,
    files: &[BatchFile],
    parsed_at: &str,
    from_watcher: bool,
) -> (notice: ConversationsUpdatedPayload)
    ensures
        final(state).tables()@ == with_batch(
            old(state).tables()@,
            files.deep_view(),
            parsed_at@,
            files.len() as int,
        ),
        final(state).cached() == latest_first(final(state).tables()@.conversations),
        notice == (ConversationsUpdatedPayload {
            new_count: tally(files.deep_view(), files.len() as int).0,
            updated_count: tally(files.deep_view(), files.len() as int).1,
            from_watcher,
        }),
{
    let mut new_count: usize = 0;
    let mut updated_count: usize = 0;
    let ghost start = state.tables()@;
    let db = state.db_mut();
    let mut k: usize = 0;
    while k < files.len()
        invariant
            k <= files.len(),
            db@ == with_batch(start, files.deep_view(), parsed_at@, k as int),
            (new_count, updated_count) == tally(files.deep_view(), k as int),
        decreases files.len() - k,
    {
        assert(files.deep_view()[k as int] == files@[k as int].deep_view());
        let entry = &files[k];
        match &entry.conversations {
            Some(conversations) => {
                let count = process_single_file(
                    db,
                    entry.file.file_path.as_str(),
                    entry.file.current_modified_at.as_str(),
                    conversations.as_slice(),
                    parsed_at,
                );
                if entry.file.is_new {
                    new_count = new_count.saturating_add(count);
                } else {
                    updated_count = updated_count.saturating_add(count);
                }
            },
            None => {},
        }
        k += 1;
    }
    let _ = state.refresh_conversations_cache();
    ConversationsUpdatedPayload { new_count, updated_count, from_watcher }
}

} // verus!
