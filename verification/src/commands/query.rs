//! The queries that the list and search commands send to the store: their
//! text and their parameters, built from the filters of a request.

use crate::commands::PaginationParams;
use crate::models::{ConversationFilters, ConversationFiltersView};
use crate::text::{append_chars, chars_of, string_of};
use vstd::prelude::*;

verus! {

/// A value bound to a placeholder of a query.
#[derive(Debug, Clone, PartialEq, Eq)]
pub enum SqlParam {
    Text(String),
    Integer(i32),
}

/// Mathematical model of a [`SqlParam`].
pub enum SqlParamView {
    Text(Seq<char>),
    Integer(i32),
}

impl DeepView for SqlParam {
    type V = SqlParamView;

    open spec fn deep_view(&self) -> SqlParamView {
        match self {
            SqlParam::Text(text) => SqlParamView::Text(text@),
            SqlParam::Integer(value) => SqlParamView::Integer(*value),
        }
    }
}

/// A query with the values for its placeholders, in order.
#[derive(Debug, Clone, PartialEq, Eq)]
pub struct SqlQuery {
    pub sql: String,
    pub params: Vec<SqlParam>,
}

/// Mathematical model of a [`SqlQuery`].
pub struct SqlQueryView {
    pub sql: Seq<char>,
    pub params: Seq<SqlParamView>,
}

impl DeepView for SqlQuery {
    type V = SqlQueryView;

    open spec fn deep_view(&self) -> SqlQueryView {
        SqlQueryView { sql: self.sql@, params: self.params.deep_view() }
    }
}

/// The list query without conditions: every conversation with its bookmark.
pub const LIST_SELECT: &'static str =
    "SELECT c.id, c.project_name, c.start_time, c.last_time, c.preview, c.message_count, \
     CASE WHEN b.conversation_id IS NOT NULL THEN 1 ELSE 0 END as bookmarked FROM \
     conversations c LEFT JOIN bookmarks b ON c.id = b.conversation_id WHERE 1=1";

/// The search query without conditions: every match with its snippet and
/// rank.
pub const SEARCH_SELECT: &'static str =
    "SELECT c.id, COALESCE(snippet(conversations_fts, 0, '<mark>', '</mark>', '...', 50), \
     c.preview) as snippet, bm25(conversations_fts) as rank FROM conversations_fts INNER \
     JOIN conversations c ON conversations_fts.rowid = c.rowid WHERE conversations_fts \
     MATCH ?1";

/// The query for the projects: each with the number of its conversations
/// and its latest activity, by name.
pub const PROJECTS_QUERY: &'static str =
    "SELECT project_path, project_name, COUNT(*) as conversation_count, MAX(last_time) as \
     last_activity FROM conversations GROUP BY project_path, project_name ORDER BY \
     project_name ASC";

/// The query for all tags: each with the number of conversations that carry
/// it, by name.
pub const ALL_TAGS_QUERY: &'static str =
    "SELECT tag, COUNT(*) as count FROM conversation_tags GROUP BY tag ORDER BY tag ASC";

/// The query for what the store holds of one conversation.
pub const CONVERSATION_QUERY: &'static str =
    "SELECT c.id, c.project_path, c.project_name, c.start_time, c.last_time, c.file_path, \
     c.total_input_tokens, c.total_output_tokens, CASE WHEN b.conversation_id IS NOT NULL \
     THEN 1 ELSE 0 END as bookmarked FROM conversations c LEFT JOIN bookmarks b ON c.id = \
     b.conversation_id WHERE c.id = ?1";

/// The query for the tags of one conversation, by name.
pub const CONVERSATION_TAGS_QUERY: &'static str =
    "SELECT tag FROM conversation_tags WHERE conversation_id = ?1 ORDER BY tag ASC";

/// Condition on the project.
pub const PROJECT_CLAUSE: &'static str = " AND c.project_name = ?";

/// Condition on the start of the date range.
pub const DATE_START_CLAUSE: &'static str = " AND c.last_time >= ?";

/// Condition on the end of the date range.
pub const DATE_END_CLAUSE: &'static str = " AND c.last_time <= ?";

/// Condition that holds of bookmarked conversations.
pub const BOOKMARKED_CLAUSE: &'static str = " AND b.conversation_id IS NOT NULL";

/// Condition that holds of conversations without a bookmark.
pub const NOT_BOOKMARKED_CLAUSE: &'static str = " AND b.conversation_id IS NULL";

/// Condition that holds of conversations with a given tag.
pub const TAG_CLAUSE: &'static str =
    " AND EXISTS (SELECT 1 FROM conversation_tags ct WHERE ct.conversation_id = c.id AND \
     ct.tag = ?)";

/// Order and paging of the list query.
pub const LIST_ORDER: &'static str = " ORDER BY c.last_time DESC LIMIT ? OFFSET ?";

/// Order and limit of the search query.
pub const SEARCH_ORDER: &'static str = " ORDER BY rank LIMIT 100";

/// A query that is being put together.
pub struct Draft {
    pub sql: Seq<char>,
    pub params: Seq<SqlParamView>,
}

/// The draft with a condition that binds `value`, if there is one.
pub open spec fn with_text_filter(
    draft: Draft,
    clause: Seq<char>,
    value: Option<Seq<char>>,
) -> Draft {
    match value {
        Some(text) => Draft {
            sql: draft.sql + clause,
            params: draft.params.push(SqlParamView::Text(text)),
        },
        None => draft,
    }
}

/// The draft with the conditions on project and date range.
pub open spec fn with_common_filters(draft: Draft, filters: ConversationFiltersView) -> Draft {
    with_text_filter(
        with_text_filter(
            with_text_filter(draft, PROJECT_CLAUSE@, filters.project),
            DATE_START_CLAUSE@,
            filters.date_start,
        ),
        DATE_END_CLAUSE@,
        filters.date_end,
    )
}

/// The draft with the condition on the bookmark.
pub open spec fn with_bookmark_filter(draft: Draft, bookmarked: Option<bool>) -> Draft {
    match bookmarked {
        Some(true) => Draft { sql: draft.sql + BOOKMARKED_CLAUSE@, params: draft.params },
        Some(false) => Draft { sql: draft.sql + NOT_BOOKMARKED_CLAUSE@, params: draft.params },
        None => draft,
    }
}

/// The draft with one condition for each of the first `k` tags.
pub open spec fn with_tag_filters(draft: Draft, tags: Seq<Seq<char>>, k: int) -> Draft
    decreases k,
{
    if k <= 0 {
        draft
    } else {
        let before = with_tag_filters(draft, tags, k - 1);
        Draft {
            sql: before.sql + TAG_CLAUSE@,
            params: before.params.push(SqlParamView::Text(tags[k - 1])),
        }
    }
}

/// The list query for a request: the conditions that the filters ask for,
/// in the order project, date range, bookmark, tags; newest activity
/// first; limit and offset bound last.
pub open spec fn list_query(
    filters: ConversationFiltersView,
    pagination: PaginationParams,
) -> SqlQueryView {
    let start = Draft { sql: LIST_SELECT@, params: Seq::empty() };
    let filtered = with_bookmark_filter(with_common_filters(start, filters), filters.bookmarked);
    let tagged = match filters.tags {
        Some(tags) => with_tag_filters(filtered, tags, tags.len() as int),
        None => filtered,
    };
    SqlQueryView {
        sql: tagged.sql + LIST_ORDER@,
        params: tagged.params.push(SqlParamView::Integer(pagination.limit)).push(
            SqlParamView::Integer(pagination.offset),
        ),
    }
}

/// The search query for a request: the prepared full-text query bound
/// first, then the conditions on project and date range; best rank first.
pub open spec fn search_sql(
    fts_query: Seq<char>,
    filters: ConversationFiltersView,
) -> SqlQueryView {
    let start = Draft { sql: SEARCH_SELECT@, params: seq![SqlParamView::Text(fts_query)] };
    let filtered = with_common_filters(start, filters);
    SqlQueryView { sql: filtered.sql + SEARCH_ORDER@, params: filtered.params }
}

/// The model of a query that is being put together.
spec fn draft_of(sql: Vec<char>, params: Vec<SqlParam>) -> Draft {
    Draft { sql: sql@, params: params.deep_view() }
}

fn add_text_filter(
    sql: &mut Vec<char>,
    params: &mut Vec<SqlParam>,
    clause: &str,
    value: &Option<String>,
)
    ensures
        draft_of(*final(sql), *final(params)) == with_text_filter(
            draft_of(*old(sql), *old(params)),
            clause@,
            value.deep_view(),
        ),
{
    match value {
        Some(text) => {
            append_chars(sql, &chars_of(clause));
            let ghost before = params.deep_view();
            params.push(SqlParam::Text(text.clone()));
            assert(params.deep_view() =~= before.push(SqlParamView::Text(text@)));
        },
        None => {},
    }
}

fn add_common_filters(
    sql: &mut Vec<char>,
    params: &mut Vec<SqlParam>,
    filters: &ConversationFilters,
)
    ensures
        draft_of(*final(sql), *final(params)) == with_common_filters(
            draft_of(*old(sql), *old(params)),
            filters.deep_view(),
        ),
{
    add_text_filter(sql, params, PROJECT_CLAUSE, &filters.project);
    add_text_filter(sql, params, DATE_START_CLAUSE, &filters.date_start);
    add_text_filter(sql, params, DATE_END_CLAUSE, &filters.date_end);
}

/// Builds the query that lists conversations (see [`list_query`]).
pub fn conversations_query(filters: &ConversationFilters, pagination: &PaginationParams) -> (query:
    SqlQuery)
    ensures
        query.deep_view() == list_query(filters.deep_view(), *pagination),
{
    let mut sql = chars_of(LIST_SELECT);
    let mut params: Vec<SqlParam> = Vec::new();
    assert(params.deep_view() =~= Seq::empty());
    add_common_filters(&mut sql, &mut params, filters);
    match filters.bookmarked {
        Some(true) => {
            append_chars(&mut sql, &chars_of(BOOKMARKED_CLAUSE));
        },
        Some(false) => {
            append_chars(&mut sql, &chars_of(NOT_BOOKMARKED_CLAUSE));
        },
        None => {},
    }
    match &filters.tags {
        Some(tags) => {
            let ghost filtered = draft_of(sql, params);
            let mut k: usize = 0;
            while k < tags.len()
                invariant
                    k <= tags.len(),
                    draft_of(sql, params) == with_tag_filters(filtered, tags.deep_view(), k as int),
                decreases tags.len() - k,
            {
                assert(tags.deep_view()[k as int] == tags@[k as int]@);
                append_chars(&mut sql, &chars_of(TAG_CLAUSE));
                let ghost before = params.deep_view();
                params.push(SqlParam::Text(tags[k].clone()));
                assert(params.deep_view() =~= before.push(SqlParamView::Text(tags@[k as int]@)));
                k += 1;
            }
        },
        None => {},
    }
    append_chars(&mut sql, &chars_of(LIST_ORDER));
    let ghost before = params.deep_view();
    params.push(SqlParam::Integer(pagination.limit));
    params.push(SqlParam::Integer(pagination.offset));
    assert(params.deep_view() =~= before.push(SqlParamView::Integer(pagination.limit)).push(
        SqlParamView::Integer(pagination.offset),
    ));
    SqlQuery { sql: string_of(&sql), params }
}

/// Builds the query that searches conversations for a prepared full-text
/// query (see [`search_sql`]).
pub fn search_conversations_query(fts_query: String, filters: &ConversationFilters) -> (query:
    SqlQuery)
    ensures
        query.deep_view() == search_sql(fts_query@, filters.deep_view()),
{
    let mut sql = chars_of(SEARCH_SELECT);
    let mut params: Vec<SqlParam> = Vec::new();
    params.push(SqlParam::Text(fts_query));
    assert(params.deep_view() =~= seq![SqlParamView::Text(fts_query@)]);
    add_common_filters(&mut sql, &mut params, filters);
    append_chars(&mut sql, &chars_of(SEARCH_ORDER));
    SqlQuery { sql: string_of(&sql), params }
}

} // verus!
