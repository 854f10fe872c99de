//! The search index: at most one entry for each stored conversation.

use crate::db::sqlite::{no_rows, no_rows_error, DbError};
use crate::db::store::{ConversationStore, StoreRows, stored};
use crate::parser::conversation::{ParsedConversation, ParsedConversationView};
use crate::parser::jsonl::{
    RawContent, RawContentBlock, RawContentBlockView, RawContentView, RawMessage, RawMessageType,
    RawMessageView,
};
use crate::table::{distinct_keys, has_key, lemma_remove, remove_rows, value_of, Table};
use crate::text::{
    append_chars, chars_of, is_blank, lemma_trim_empty_iff_blank, str_equal, string_of,
    trim_start_index,
};
use vstd::prelude::*;

verus! {

/// What the index holds of a conversation.
#[derive(Debug, Clone, PartialEq, Eq)]
pub struct SearchEntry {
    /// The searchable text.
    pub content: String,
    /// The facet: display name of the project.
    pub project_name: String,
}

/// Mathematical model of a [`SearchEntry`].
pub struct SearchEntryView {
    pub content: Seq<char>,
    pub project_name: Seq<char>,
}

impl DeepView for SearchEntry {
    type V = SearchEntryView;

    open spec fn deep_view(&self) -> SearchEntryView {
        SearchEntryView { content: self.content@, project_name: self.project_name@ }
    }
}

/// The entries of an index: identifiers of conversations with their entry.
pub type IndexRows = Seq<(Seq<char>, SearchEntryView)>;

/// The search index.
pub struct SearchIndex {
    entries: Table<SearchEntry>,
}

/// Whether every entry of the index belongs to a conversation of the store.
pub open spec fn within_store(index: IndexRows, store: StoreRows) -> bool {
    forall|i: int| 0 <= i < index.len() ==> has_key(store, (#[trigger] index[i]).0)
}

/// The index after a conversation is indexed: if the store has the
/// conversation, its old entry is deleted and the new one inserted;
/// otherwise nothing changes.
pub open spec fn indexed(
    store: StoreRows,
    index: IndexRows,
    id: Seq<char>,
    entry: SearchEntryView,
) -> IndexRows {
    if has_key(store, id) {
        remove_rows(index, id).push((id, entry))
    } else {
        index
    }
}

/// The index after a conversation is taken out: without its entry if the
/// store has the conversation, unchanged otherwise.
pub open spec fn unindexed(store: StoreRows, index: IndexRows, id: Seq<char>) -> IndexRows {
    if has_key(store, id) {
        remove_rows(index, id)
    } else {
        index
    }
}

/// The index after a rebuild: one entry for each row of the store, in the
/// order of the rows.
pub open spec fn rebuilt(store: StoreRows) -> IndexRows {
    Seq::new(
        store.len(),
        |i: int|
            (
                store[i].0,
                SearchEntryView {
                    content: store[i].1.record.preview,
                    project_name: store[i].1.record.project_name,
                },
            ),
    )
}

/// The tag under which a tool invocation is searchable.
pub open spec fn tool_tag(name: Seq<char>) -> Seq<char> {
    "[tool: "@ + name + "]"@
}

/// What one sub-block adds to the searchable text: the text of a text
/// block that is not blank, and the tag of a tool invocation that has a
/// name.
pub open spec fn block_parts(block: RawContentBlockView) -> Seq<Seq<char>> {
    if block.block_type == "text"@ {
        match block.text {
            Some(text) => if is_blank(text) {
                Seq::empty()
            } else {
                seq![text]
            },
            None => Seq::empty(),
        }
    } else if block.block_type == "tool_use"@ {
        match block.name {
            Some(name) => seq![tool_tag(name)],
            None => Seq::empty(),
        }
    } else {
        Seq::empty()
    }
}

/// What the first `k` sub-blocks add to the searchable text.
pub open spec fn blocks_parts(blocks: Seq<RawContentBlockView>, k: int) -> Seq<Seq<char>>
    decreases k,
{
    if k <= 0 {
        Seq::empty()
    } else {
        blocks_parts(blocks, k - 1) + block_parts(blocks[k - 1])
    }
}

/// What one record adds to the searchable text; a system record adds
/// nothing.
pub open spec fn message_parts(m: RawMessageView) -> Seq<Seq<char>> {
    if m.message_type == RawMessageType::System {
        Seq::empty()
    } else {
        match m.message.content {
            RawContentView::Text(text) => if is_blank(text) {
                Seq::empty()
            } else {
                seq![text]
            },
            RawContentView::Blocks(blocks) => blocks_parts(blocks, blocks.len() as int),
        }
    }
}

/// What the first `k` records add to the searchable text.
pub open spec fn messages_parts(messages: Seq<RawMessageView>, k: int) -> Seq<Seq<char>>
    decreases k,
{
    if k <= 0 {
        Seq::empty()
    } else {
        messages_parts(messages, k - 1) + message_parts(messages[k - 1])
    }
}

/// The parts joined by single spaces.
pub open spec fn joined(parts: Seq<Seq<char>>) -> Seq<char>
    decreases parts.len(),
{
    if parts.len() == 0 {
        Seq::empty()
    } else if parts.len() == 1 {
        parts[0]
    } else {
        joined(parts.drop_last()) + seq![' '] + parts.last()
    }
}

/// The searchable text of a conversation: the text of its user and
/// assistant records and a tag for each tool invocation, joined by spaces.
pub open spec fn searchable_content(messages: Seq<RawMessageView>) -> Seq<char> {
    joined(messages_parts(messages, messages.len() as int))
}

/// The texts that a list of character vectors holds.
spec fn texts(parts: Seq<Vec<char>>) -> Seq<Seq<char>> {
    Seq::new(parts.len(), |i: int| parts[i]@)
}

fn push_part(parts: &mut Vec<Vec<char>>, part: Vec<char>)
    ensures
        texts(final(parts)@) == texts(old(parts)@).push(part@),
{
    parts.push(part);
    assert(texts(parts@) =~= texts(old(parts)@).push(part@));
}

fn is_blank_text(text: &str) -> (blank: bool)
    ensures
        blank == is_blank(text@),
{
    let chars = chars_of(text);
    let start = trim_start_index(&chars);
    proof {
        lemma_trim_empty_iff_blank(text@);
    }
    start == chars.len()
}

fn add_block_parts(parts: &mut Vec<Vec<char>>, block: &RawContentBlock)
    ensures
        texts(final(parts)@) == texts(old(parts)@) + block_parts(block.deep_view()),
{
    if str_equal(block.block_type.as_str(), "text") {
        match &block.text {
            Some(text) => {
                if !is_blank_text(text.as_str()) {
                    push_part(parts, chars_of(text.as_str()));
                }
            },
            None => {},
        }
    } else if str_equal(block.block_type.as_str(), "tool_use") {
        match &block.name {
            Some(name) => {
                let mut tag = chars_of("[tool: ");
                append_chars(&mut tag, &chars_of(name.as_str()));
                append_chars(&mut tag, &chars_of("]"));
                push_part(parts, tag);
            },
            None => {},
        }
    }
    assert(texts(parts@) =~= texts(old(parts)@) + block_parts(block.deep_view()));
}

fn add_message_parts(parts: &mut Vec<Vec<char>>, message: &RawMessage)
    ensures
        texts(final(parts)@) == texts(old(parts)@) + message_parts(message.deep_view()),
{
    let is_system = match message.message_type {
        RawMessageType::System => true,
        _ => false,
    };
    if is_system {
        assert(texts(parts@) =~= texts(old(parts)@) + message_parts(message.deep_view()));
        return ;
    }
    match &message.message.content {
        RawContent::Text(text) => {
            if !is_blank_text(text.as_str()) {
                push_part(parts, chars_of(text.as_str()));
            }
            assert(texts(parts@) =~= texts(old(parts)@) + message_parts(
                message.deep_view(),
            ));
        },
        RawContent::Blocks(blocks) => {
            let mut k: usize = 0;
            assert(texts(parts@) =~= texts(old(parts)@) + blocks_parts(
                blocks.deep_view(),
                0,
            ));
            while k < blocks.len()
                invariant
                    k <= blocks.len(),
                    texts(parts@) == texts(old(parts)@) + blocks_parts(
                        blocks.deep_view(),
                        k as int,
                    ),
                decreases blocks.len() - k,
            {
                let ghost before = texts(parts@);
                assert(blocks.deep_view()[k as int] == blocks@[k as int].deep_view());
                add_block_parts(parts, &blocks[k]);
                assert(texts(parts@) =~= texts(old(parts)@) + blocks_parts(
                    blocks.deep_view(),
                    k + 1,
                ));
                k += 1;
            }
        },
    }
}

fn join_parts(parts: &Vec<Vec<char>>) -> (text: Vec<char>)
    ensures
        text@ == joined(texts(parts@)),
{
    let mut text: Vec<char> = Vec::new();
    let mut k: usize = 0;
    let ghost all = texts(parts@);
    assert(all.take(0) =~= Seq::empty());
    while k < parts.len()
        invariant
            k <= parts.len(),
            all == texts(parts@),
            text@ == joined(all.take(k as int)),
        decreases parts.len() - k,
    {
        proof {
            assert(all.take(k + 1).drop_last() =~= all.take(k as int));
            assert(all.take(k + 1).last() == parts@[k as int]@);
            if k == 0 {
                assert(all.take(1)[0] == parts@[0]@);
            }
        }
        if k > 0 {
            text.push(' ');
        }
        append_chars(&mut text, &parts[k]);
        proof {
            if k == 0 {
                assert(text@ =~= parts@[0]@);
            } else {
                assert(text@ =~= joined(all.take(k as int)) + seq![' '] + parts@[k as int]@);
            }
        }
        k += 1;
    }
    proof {
        assert(all.take(parts.len() as int) =~= all);
    }
    text
}

/// Flattens a conversation into its searchable text (see
/// [`searchable_content`]).
pub fn extract_searchable_content(conversation: &ParsedConversation) -> (content: String)
    ensures
        content@ == searchable_content(conversation.deep_view().messages),
{
    let mut parts: Vec<Vec<char>> = Vec::new();
    let mut k: usize = 0;
    let ghost messages = conversation.messages.deep_view();
    assert(texts(parts@) =~= Seq::empty());
    while k < conversation.messages.len()
        invariant
            k <= conversation.messages.len(),
            messages == conversation.messages.deep_view(),
            texts(parts@) == messages_parts(messages, k as int),
        decreases conversation.messages.len() - k,
    {
        assert(messages[k as int] == conversation.messages@[k as int].deep_view());
        add_message_parts(&mut parts, &conversation.messages[k]);
        k += 1;
    }
    string_of(&join_parts(&parts))
}

impl SearchIndex {
    /// The entries of the index.
    pub closed spec fn view(&self) -> IndexRows {
        self.entries@
    }

    /// An index without entries.
    pub fn new() -> (index: Self)
        ensures
            index@ == IndexRows::empty(),
    {
        SearchIndex { entries: Table::new() }
    }

    /// Recalls that no conversation has two entries. Does nothing when run.
    pub fn entries_are_distinct(&self)
        ensures
            distinct_keys(self@),
    {
        self.entries.keys_are_distinct();
    }

    /// The entry of the conversation with the identifier `id`.
    pub fn get(&self, id: &str) -> (entry: Option<&SearchEntry>)
        ensures
            entry.deep_view() == value_of(self@, id@),
    {
        self.entries.get(id)
    }

    /// Whether the conversation with the identifier `id` has an entry.
    pub fn contains(&self, id: &str) -> (found: bool)
        ensures
            found == has_key(self@, id@),
    {
        self.entries.contains_key(id)
    }
}

/// Indexes a conversation under its identifier with the text and the facet
/// given.
///
/// If the store has no conversation with this identifier, nothing is
/// written and the lookup fault is returned, so that no entry ever lacks
/// its conversation. Otherwise the entry of the conversation, if it has
/// one, is deleted and the new entry inserted, so that it has exactly one.
pub fn index_conversation_content(
    store: &ConversationStore,
    index: &mut SearchIndex,
    conversation_id: &str,
    content: &str,
    project_name: &str,
) -> (result: Result<(), DbError>)
    ensures
        final(index)@ == indexed(
            store@,
            old(index)@,
            conversation_id@,
            SearchEntryView { content: content@, project_name: project_name@ },
        ),
        result is Ok <==> has_key(store@, conversation_id@),
        result matches Err(fault) ==> fault.deep_view() == no_rows(),
{
    if !store.contains(conversation_id) {
        return Err(no_rows_error());
    }
    index.entries.keys_are_distinct();
    proof {
        lemma_remove(index@, conversation_id@, conversation_id@);
    }
    index.entries.remove(conversation_id);
    index.entries.upsert(
        conversation_id,
        SearchEntry { content: content.to_owned(), project_name: project_name.to_owned() },
    );
    Ok(())
}

/// Indexes a conversation with its searchable text and its project name.
pub fn index_conversation(
    store: &ConversationStore,
    index: &mut SearchIndex,
    conversation: &ParsedConversation,
) -> (result: Result<(), DbError>)
    ensures
        final(index)@ == indexed(
            store@,
            old(index)@,
            conversation.id@,
            SearchEntryView {
                content: searchable_content(conversation.deep_view().messages),
                project_name: conversation.project_name@,
            },
        ),
        result is Ok <==> has_key(store@, conversation.id@),
        result matches Err(fault) ==> fault.deep_view() == no_rows(),
{
    let content = extract_searchable_content(conversation);
    index_conversation_content(
        store,
        index,
        conversation.id.as_str(),
        content.as_str(),
        conversation.project_name.as_str(),
    )
}

/// Takes the entry of a conversation out of the index. Nothing happens if
/// the store has no such conversation or the conversation has no entry.
pub fn remove_from_index(store: &ConversationStore, index: &mut SearchIndex, conversation_id: &str)
    ensures
        final(index)@ == unindexed(store@, old(index)@, conversation_id@),
{
    if store.contains(conversation_id) {
        index.entries.remove(conversation_id);
    }
}

/// The index after the first `k` conversations of a list are indexed.
pub open spec fn indexed_all(
    store: StoreRows,
    index: IndexRows,
    conversations: Seq<ParsedConversationView>,
    k: int,
) -> IndexRows
    decreases k,
{
    if k <= 0 {
        index
    } else {
        indexed(
            store,
            indexed_all(store, index, conversations, k - 1),
            conversations[k - 1].id,
            SearchEntryView {
                content: searchable_content(conversations[k - 1].messages),
                project_name: conversations[k - 1].project_name,
            },
        )
    }
}

/// How many of the first `k` conversations of a list the store has.
pub open spec fn stored_count(
    store: StoreRows,
    conversations: Seq<ParsedConversationView>,
    k: int,
) -> int
    decreases k,
{
    if k <= 0 {
        0
    } else if has_key(store, conversations[k - 1].id) {
        stored_count(store, conversations, k - 1) + 1
    } else {
        stored_count(store, conversations, k - 1)
    }
}

/// Indexes the conversations given, leaving the other entries as they are;
/// a conversation that the store does not have is skipped. Returns how many
/// were indexed.
pub fn build_search_index(
    store: &ConversationStore,
    index: &mut SearchIndex,
    conversations: &[ParsedConversation],
) -> (count: usize)
    ensures
        final(index)@ == indexed_all(
            store@,
            old(index)@,
            conversations.deep_view(),
            conversations.len() as int,
        ),
        count == stored_count(store@, conversations.deep_view(), conversations.len() as int),
{
    let mut count: usize = 0;
    let mut k: usize = 0;
    while k < conversations.len()
        invariant
            k <= conversations.len(),
            count <= k,
            index@ == indexed_all(store@, old(index)@, conversations.deep_view(), k as int),
            count == stored_count(store@, conversations.deep_view(), k as int),
        decreases conversations.len() - k,
    {
        assert(conversations.deep_view()[k as int] == conversations@[k as int].deep_view());
        match index_conversation(store, index, &conversations[k]) {
            Ok(_) => {
                count += 1;
            },
            Err(_) => {},
        }
        k += 1;
    }
    count
}

/// Clears the index and fills it again from the store: one entry for each
/// stored conversation, with its preview as text. Returns the number of
/// entries.
pub fn rebuild_search_index(store: &ConversationStore, index: &mut SearchIndex) -> (count: usize)
    ensures
        final(index)@ == rebuilt(store@),
        count == store@.len(),
{
    let mut entries: Table<SearchEntry> = Table::new();
    let total = store.len();
    let mut i: usize = 0;
    assert(entries@ =~= rebuilt(store@).take(0));
    while i < total
        invariant
            i <= total,
            total == store@.len(),
            entries@ == rebuilt(store@).take(i as int),
        decreases total - i,
    {
        let row = store.row_at(i);
        let id = string_of(store.id_at(i));
        store.rows_are_distinct();
        proof {
            let done = rebuilt(store@).take(i as int);
            assert forall|j: int| 0 <= j < done.len() implies (#[trigger] done[j]).0 != id@ by {
                assert(done[j].0 == store@[j].0);
                assert(store@[j].0 != store@[i as int].0);
            }
            crate::table::lemma_position_none(done, id@);
        }
        entries.upsert(
            id.as_str(),
            SearchEntry {
                content: row.record.preview.clone(),
                project_name: row.record.project_name.clone(),
            },
        );
        assert(entries@ =~= rebuilt(store@).take(i + 1));
        i += 1;
    }
    assert(rebuilt(store@).take(total as int) =~= rebuilt(store@));
    index.entries = entries;
    total
}

/// Removes every entry of the index.
pub fn clear_search_index(index: &mut SearchIndex)
    ensures
        final(index)@ == IndexRows::empty(),
{
    index.entries.clear();
}

/// Number of entries of the index.
pub fn get_index_count(index: &SearchIndex) -> (count: usize)
    ensures
        count == index@.len(),
{
    index.entries.len()
}

} // verus!
