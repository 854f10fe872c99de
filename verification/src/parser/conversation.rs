//! Aggregation of the records of one transcript file into conversations.

use crate::json::json_document;
use crate::parser::chronology::{sort_by_time, sort_messages, timestamp_key};
use crate::parser::jsonl::{decode_record, parse_jsonl_line, RawMessage, RawMessageView};
use crate::stable_sort::{
    distinct_by, key_fn, lemma_sort_keeps_distinct, sort_stable, stable_sort, total, SortKey,
};
use crate::text::{chars_equal, chars_of, string_of, trim_spec};
use std::collections::hash_map::DefaultHasher;
use std::hash::{Hash, Hasher};
use vstd::prelude::*;
use vstd::std_specs::hash::DefaultHasherAdditionalSpecFns;
use vstd::wrapping::i64_specs::signed_crop;

verus! {

/// All records of one session of one file, in chronological order, with
/// their aggregates.
#[derive(Debug, Clone, PartialEq, Eq)]
pub struct ParsedConversation {
    /// Identifier derived from the file path and the session.
    pub id: String,
    /// Directory that holds the file.
    pub project_path: String,
    /// Name of that directory.
    pub project_name: String,
    /// Timestamp of the first record; empty if it has none.
    pub start_time: String,
    /// Timestamp of the last record; empty if it has none.
    pub last_time: String,
    pub messages: Vec<RawMessage>,
    pub total_input_tokens: i64,
    pub total_output_tokens: i64,
    pub session_id: String,
    /// Path of the file that the records were read from.
    pub file_path: String,
}

/// Mathematical model of a [`ParsedConversation`].
pub struct ParsedConversationView {
    pub id: Seq<char>,
    pub project_path: Seq<char>,
    pub project_name: Seq<char>,
    pub start_time: Seq<char>,
    pub last_time: Seq<char>,
    pub messages: Seq<RawMessageView>,
    pub total_input_tokens: i64,
    pub total_output_tokens: i64,
    pub session_id: Seq<char>,
    pub file_path: Seq<char>,
}

impl DeepView for ParsedConversation {
    type V = ParsedConversationView;

    open spec fn deep_view(&self) -> ParsedConversationView {
        ParsedConversationView {
            id: self.id@,
            project_path: self.project_path@,
            project_name: self.project_name@,
            start_time: self.start_time@,
            last_time: self.last_time@,
            messages: self.messages.deep_view(),
            total_input_tokens: self.total_input_tokens,
            total_output_tokens: self.total_output_tokens,
            session_id: self.session_id@,
            file_path: self.file_path@,
        }
    }
}

impl SortKey for ParsedConversation {
    open spec fn key_of(v: ParsedConversationView) -> Seq<char> {
        v.start_time
    }

    fn sort_key(&self) -> (key: Vec<char>) {
        chars_of(self.start_time.as_str())
    }
}

/// Sum of the input token counts of the records; a record without counts
/// adds nothing.
pub open spec fn input_total(records: Seq<RawMessageView>) -> int
    decreases records.len(),
{
    if records.len() == 0 {
        0
    } else {
        input_total(records.drop_last()) + match records.last().token_count {
            Some(counts) => counts.input as int,
            None => 0,
        }
    }
}

/// Sum of the output token counts of the records; a record without counts
/// adds nothing.
pub open spec fn output_total(records: Seq<RawMessageView>) -> int
    decreases records.len(),
{
    if records.len() == 0 {
        0
    } else {
        output_total(records.drop_last()) + match records.last().token_count {
            Some(counts) => counts.output as int,
            None => 0,
        }
    }
}

/// Adding a value in the range of `i64` to a cropped sum, with wrap-around,
/// gives the cropped sum of both.
pub proof fn lemma_crop_add(sum: int, x: i64)
    ensures
        vstd::wrapping::i64_specs::wrapping_add(signed_crop(sum), x) == signed_crop(sum + x),
{
    let range = 0x1_0000_0000_0000_0000int;
    vstd::arithmetic::div_mod::lemma_fundamental_div_mod(sum, range);
    vstd::arithmetic::div_mod::lemma_fundamental_div_mod(sum + x, range);
    let r = sum % range;
    let q = sum / range;
    if r + x >= range {
        vstd::arithmetic::div_mod::lemma_fundamental_div_mod_converse(
            sum + x,
            range,
            q + 1,
            r + x - range,
        );
    } else if r + x < 0 {
        vstd::arithmetic::div_mod::lemma_fundamental_div_mod_converse(
            sum + x,
            range,
            q - 1,
            r + x + range,
        );
    } else {
        vstd::arithmetic::div_mod::lemma_fundamental_div_mod_converse(
            sum + x,
            range,
            q,
            r + x,
        );
    }
}

/// Sums the token counts of the records.
///
/// Negative counts are added as they are. Each total is the exact sum
/// reduced to the range of `i64` by wrap-around, so it is the exact sum
/// whenever that is in range.
pub fn calculate_total_tokens(messages: &[RawMessage]) -> (totals: (i64, i64))
    ensures
        totals.0 == signed_crop(input_total(messages.deep_view())),
        totals.1 == signed_crop(output_total(messages.deep_view())),
{
    let mut total_input: i64 = 0;
    let mut total_output: i64 = 0;
    let mut k: usize = 0;
    let ghost records = messages.deep_view();
    assert(records.take(0) =~= Seq::empty());
    while k < messages.len()
        invariant
            k <= messages.len(),
            records == messages.deep_view(),
            total_input == signed_crop(input_total(records.take(k as int))),
            total_output == signed_crop(output_total(records.take(k as int))),
        decreases messages.len() - k,
    {
        proof {
            assert(records.take(k + 1).drop_last() =~= records.take(k as int));
            assert(records.take(k + 1).last() == messages@[k as int].deep_view());
        }
        match messages[k].token_count {
            Some(counts) => {
                proof {
                    lemma_crop_add(input_total(records.take(k as int)), counts.input);
                    lemma_crop_add(output_total(records.take(k as int)), counts.output);
                }
                total_input = total_input.wrapping_add(counts.input);
                total_output = total_output.wrapping_add(counts.output);
            },
            None => {},
        }
        k += 1;
    }
    proof {
        assert(records.take(messages.len() as int) =~= records);
    }
    (total_input, total_output)
}

/// What hashing a string feeds to a hasher: the byte strings written, in
/// order.
pub uninterp spec fn str_hash_input(text: Seq<char>) -> Seq<Seq<u8>>;

/// Feeds `text` to `state` with `<str as Hash>::hash`.
///
/// Trusted: which bytes a string writes depends on the string alone;
/// [`str_hash_input`] names them, and they come after what the hasher was fed
/// before.
#[verifier::external_body]
fn hash_text(text: &str, state: &mut DefaultHasher)
    ensures
        final(state)@ == old(state)@ + str_hash_input(text@),
{
    text.hash(state)
}

/// The path without its final component, as `Path::parent` gives it in the
/// path syntax of the platform; `None` where the path ends in a root or a
/// prefix, or is empty.
pub uninterp spec fn parent_path(path: Seq<char>) -> Option<Seq<char>>;

/// The final component of a path, as `Path::file_name` gives it in the path
/// syntax of the platform; `None` where the path has none.
pub uninterp spec fn final_component(path: Seq<char>) -> Option<Seq<char>>;

/// Calls `Path::parent` on the path that `path` spells and gives the parent
/// back as text.
///
/// Trusted: the parent is found by parsing the path alone, without looking at
/// the file system; [`parent_path`] names it.
#[verifier::external_body]
fn path_parent(path: &str) -> (parent: Option<String>)
    ensures
        parent.deep_view() == parent_path(path@),
{
    std::path::Path::new(path).parent().map(|parent| parent.to_string_lossy().into_owned())
}

/// Calls `Path::file_name` on the path that `path` spells and gives the name
/// back as text.
///
/// Trusted: the name is found by parsing the path alone, without looking at
/// the file system; [`final_component`] names it.
#[verifier::external_body]
fn path_file_name(path: &str) -> (name: Option<String>)
    ensures
        name.deep_view() == final_component(path@),
{
    std::path::Path::new(path).file_name().map(|name| name.to_string_lossy().into_owned())
}

/// The sixteen hexadecimal digits, in lower case.
pub const HEX_DIGITS: [char; 16] = [
    '0',
    '1',
    '2',
    '3',
    '4',
    '5',
    '6',
    '7',
    '8',
    '9',
    'a',
    'b',
    'c',
    'd',
    'e',
    'f',
];

/// Number of hexadecimal digits in an identifier.
pub const ID_LENGTH: usize = 12;

/// The `k`-th hexadecimal digit of a 64-bit value, counted from the most
/// significant.
pub open spec fn hex_digit(hash: u64, k: int) -> char {
    HEX_DIGITS@[((hash >> ((60 - 4 * k) as u64)) & 0xf) as int]
}

/// The identifier for a hash value: the first [`ID_LENGTH`] digits of its
/// sixteen-digit hexadecimal form.
pub open spec fn id_text(hash: u64) -> Seq<char> {
    Seq::new(ID_LENGTH as nat, |k: int| hex_digit(hash, k))
}

/// The hash of a file path followed by a session identifier.
pub open spec fn conversation_hash(file_path: Seq<char>, session_id: Seq<char>) -> u64 {
    DefaultHasher::spec_finish(str_hash_input(file_path) + str_hash_input(session_id))
}

/// The identifier of the conversation of a session of a file.
pub open spec fn conversation_id(file_path: Seq<char>, session_id: Seq<char>) -> Seq<char> {
    id_text(conversation_hash(file_path, session_id))
}

/// Formats the first [`ID_LENGTH`] hexadecimal digits of a hash value.
pub fn id_from_hash(hash: u64) -> (id: String)
    ensures
        id@ == id_text(hash),
{
    let mut digits: Vec<char> = Vec::new();
    let mut k: usize = 0;
    while k < ID_LENGTH
        invariant
            k <= ID_LENGTH,
            digits.len() == k,
            forall|j: int| 0 <= j < k ==> #[trigger] digits@[j] == hex_digit(hash, j),
        decreases ID_LENGTH - k,
    {
        let shift: u64 = 60 - 4 * (k as u64);
        let nibble: u64 = (hash >> shift) & 0xf;
        assert(nibble < 16) by (bit_vector)
            requires
                nibble == (hash >> shift) & 0xf,
        ;
        digits.push(HEX_DIGITS[nibble as usize]);
        k += 1;
    }
    assert(digits@ =~= id_text(hash));
    string_of(&digits)
}

/// Derives the identifier of a conversation from the path of its file and
/// its session identifier. The same pair always gives the same identifier,
/// so that ingesting a file again replaces its conversations.
pub fn generate_conversation_id(file_path: &str, session_id: &str) -> (id: String)
    ensures
        id@ == conversation_id(file_path@, session_id@),
        id@.len() == ID_LENGTH,
{
    let mut hasher = DefaultHasher::new();
    hash_text(file_path, &mut hasher);
    hash_text(session_id, &mut hasher);
    let hash = hasher.finish();
    assert(hasher@ =~= str_hash_input(file_path@) + str_hash_input(session_id@));
    id_from_hash(hash)
}

/// Directory path and display name of a project, given the parent directory
/// of a transcript file and the name of that directory: the parent's path
/// (empty if there is none) and its own name (`unknown` if it has none).
pub open spec fn project_info_spec(parent: Option<Seq<char>>, dir_name: Option<Seq<char>>) -> (
    Seq<char>,
    Seq<char>,
) {
    (
        match parent {
            Some(path) => path,
            None => Seq::empty(),
        },
        match dir_name {
            Some(name) => name,
            None => "unknown"@,
        },
    )
}

/// Directory path and display name of a project from the parts of the
/// file's path (see [`project_info_spec`]).
pub fn project_info_from(parent: Option<String>, dir_name: Option<String>) -> (info: (
    String,
    String,
))
    ensures
        (info.0@, info.1@) == project_info_spec(parent.deep_view(), dir_name.deep_view()),
{
    let project_path = match parent {
        Some(path) => path,
        None => String::new(),
    };
    let project_name = match dir_name {
        Some(name) => name,
        None => "unknown".to_owned(),
    };
    (project_path, project_name)
}

/// Directory path and display name of the project that a transcript file
/// belongs to: the path of the directory that holds the file (empty if the
/// path has no parent), and that directory's own name (`unknown` if it has
/// none).
pub open spec fn project_of(file_path: Seq<char>) -> (Seq<char>, Seq<char>) {
    let directory = match parent_path(file_path) {
        Some(path) => path,
        None => Seq::empty(),
    };
    project_info_spec(Some(directory), final_component(directory))
}

/// Directory path and display name of the project that a transcript file
/// belongs to: the path of the directory that holds the file, and that
/// directory's own name. Which part of a path is its parent is decided by
/// the platform's path syntax.
pub fn extract_project_info(file_path: &str) -> (info: (String, String))
    ensures
        (info.0@, info.1@) == project_of(file_path@),
{
    let directory = match path_parent(file_path) {
        Some(path) => path,
        None => String::new(),
    };
    let dir_name = path_file_name(directory.as_str());
    project_info_from(Some(directory), dir_name)
}

/// The session that a record falls into: its session identifier, or
/// `default` where it has none.
pub open spec fn session_key(m: RawMessageView) -> Seq<char> {
    match m.session_id {
        Some(id) => id,
        None => "default"@,
    }
}

/// The sessions of a list of records, each once, in the order in which they
/// first occur.
pub open spec fn session_keys(records: Seq<RawMessageView>) -> Seq<Seq<char>>
    decreases records.len(),
{
    if records.len() == 0 {
        Seq::empty()
    } else {
        let front = session_keys(records.drop_last());
        let key = session_key(records.last());
        if front.contains(key) {
            front
        } else {
            front.push(key)
        }
    }
}

/// The records of one session, in the order in which they occur.
pub open spec fn session_records(records: Seq<RawMessageView>, key: Seq<char>) -> Seq<
    RawMessageView,
>
    decreases records.len(),
{
    if records.len() == 0 {
        Seq::empty()
    } else {
        let front = session_records(records.drop_last(), key);
        if session_key(records.last()) == key {
            front.push(records.last())
        } else {
            front
        }
    }
}

/// No session is listed twice, every listed session has a record, and a
/// session that is not listed has none.
pub proof fn lemma_session_keys(records: Seq<RawMessageView>)
    ensures
        forall|i: int, j: int|
            0 <= i < j < session_keys(records).len() ==> session_keys(records)[i] != session_keys(
                records,
            )[j],
        forall|i: int|
            0 <= i < session_keys(records).len() ==> session_records(
                records,
                #[trigger] session_keys(records)[i],
            ).len() > 0,
        forall|key: Seq<char>|
            !session_keys(records).contains(key) ==> #[trigger] session_records(records, key).len()
                == 0,
        forall|i: int|
            0 <= i < records.len() ==> session_keys(records).contains(
                session_key(#[trigger] records[i]),
            ),
    decreases records.len(),
{
    if records.len() > 0 {
        let front = records.drop_last();
        let key = session_key(records.last());
        lemma_session_keys(front);
        let keys = session_keys(records);
        let before = session_keys(front);
        assert forall|i: int| 0 <= i < keys.len() implies session_records(
            records,
            #[trigger] keys[i],
        ).len() > 0 by {
            if i < before.len() {
                assert(keys[i] == before[i]);
            }
        }
        assert forall|k: Seq<char>| !keys.contains(k) implies #[trigger] session_records(
            records,
            k,
        ).len() == 0 by {
            if before.contains(k) {
                let i = choose|i: int| 0 <= i < before.len() && before[i] == k;
                assert(keys[i] == k);
                assert(false);
            }
            if k == key {
                assert(keys[keys.len() - 1] == key);
                assert(false);
            }
            assert(session_records(front, k).len() == 0);
        }
        assert forall|i: int| 0 <= i < records.len() implies keys.contains(
            session_key(#[trigger] records[i]),
        ) by {
            if i < front.len() {
                assert(front[i] == records[i]);
                let p = choose|p: int| 0 <= p < before.len() && before[p] == session_key(front[i]);
                assert(keys[p] == session_key(records[i]));
            } else {
                if before.contains(key) {
                } else {
                    assert(keys[keys.len() - 1] == key);
                }
            }
        }
    }
}

/// The records of one session while a file is being read.
struct Session {
    key: String,
    records: Vec<RawMessage>,
}

/// Whether `sessions` holds the records `records`, sorted into sessions.
spec fn sessions_hold(sessions: Seq<Session>, records: Seq<RawMessageView>) -> bool {
    &&& sessions.len() == session_keys(records).len()
    &&& forall|g: int|
        0 <= g < sessions.len() ==> (#[trigger] sessions[g]).key@ == session_keys(records)[g]
            && sessions[g].records.deep_view() == session_records(
            records,
            session_keys(records)[g],
        )
}

/// The session of a record, as characters.
fn session_key_chars(record: &RawMessage) -> (key: Vec<char>)
    ensures
        key@ == session_key(record.deep_view()),
{
    match &record.session_id {
        Some(id) => chars_of(id.as_str()),
        None => chars_of("default"),
    }
}

/// Puts a record behind the others of its session, opening the session if
/// it is the first.
fn add_record(
    sessions: &mut Vec<Session>,
    record: RawMessage,
    Ghost(records): Ghost<Seq<RawMessageView>>,
)
    requires
        sessions_hold(old(sessions)@, records),
    ensures
        sessions_hold(final(sessions)@, records.push(record.deep_view())),
{
    let key = session_key_chars(&record);
    let ghost added = records.push(record.deep_view());
    proof {
        lemma_session_keys(records);
        assert(added.drop_last() =~= records);
    }
    let mut g: usize = 0;
    while g < sessions.len()
        invariant
            g <= sessions.len(),
            sessions@ == old(sessions)@,
            sessions_hold(sessions@, records),
            key@ == session_key(record.deep_view()),
            added == records.push(record.deep_view()),
            forall|i: int, j: int|
                0 <= i < j < session_keys(records).len() ==> session_keys(records)[i]
                    != session_keys(records)[j],
            forall|p: int| 0 <= p < g ==> session_keys(records)[p] != key@,
        decreases sessions.len() - g,
    {
        let name = chars_of(sessions[g].key.as_str());
        if chars_equal(&name, &key) {
            let ghost before = sessions@;
            sessions[g].records.push(record);
            proof {
                assert(added.drop_last() =~= records);
                assert(session_keys(records).contains(key@)) by {
                    assert(session_keys(records)[g as int] == key@);
                }
                assert(session_keys(added) == session_keys(records));
                assert forall|h: int| 0 <= h < sessions.len() implies (#[trigger] sessions@[h]).key@
                    == session_keys(added)[h] && sessions@[h].records.deep_view()
                    == session_records(added, session_keys(added)[h]) by {
                    if h == g {
                        assert(sessions@[h].records.deep_view()
                            =~= before[h].records.deep_view().push(record.deep_view()));
                    } else {
                        assert(sessions@[h] == before[h]);
                        assert(session_keys(records)[h] != key@);
                    }
                }
            }
            return ;
        }
        g += 1;
    }
    proof {
        if session_keys(records).contains(key@) {
            let p = choose|p: int|
                0 <= p < session_keys(records).len() && session_keys(records)[p] == key@;
            assert(false);
        }
        assert(session_keys(added) == session_keys(records).push(key@));
    }
    let ghost before = sessions@;
    let mut first: Vec<RawMessage> = Vec::new();
    first.push(record);
    sessions.push(Session { key: string_of(&key), records: first });
    proof {
        assert forall|h: int| 0 <= h < sessions.len() implies (#[trigger] sessions@[h]).key@
            == session_keys(added)[h] && sessions@[h].records.deep_view() == session_records(
            added,
            session_keys(added)[h],
        ) by {
            if h < before.len() {
                assert(sessions@[h] == before[h]);
                assert(session_keys(records)[h] != key@);
            } else {
                assert(session_records(records, key@).len() == 0);
                assert(sessions@[h].records.deep_view() =~= seq![record.deep_view()]);
                assert(session_records(added, key@) =~= seq![record.deep_view()]);
            }
        }
    }
}

/// The conversation of one session of a file: its records in chronological
/// order, the timestamps of the first and last of them, and its token
/// totals.
pub open spec fn conversation_of(
    file_path: Seq<char>,
    project_path: Seq<char>,
    project_name: Seq<char>,
    key: Seq<char>,
    records: Seq<RawMessageView>,
) -> ParsedConversationView {
    let sorted = sort_by_time(records);
    ParsedConversationView {
        id: conversation_id(file_path, key),
        project_path,
        project_name,
        start_time: if sorted.len() > 0 {
            timestamp_key(sorted.first())
        } else {
            Seq::empty()
        },
        last_time: if sorted.len() > 0 {
            timestamp_key(sorted.last())
        } else {
            Seq::empty()
        },
        messages: sorted,
        total_input_tokens: signed_crop(input_total(sorted)),
        total_output_tokens: signed_crop(output_total(sorted)),
        session_id: key,
        file_path,
    }
}

/// The conversations of the first `k` sessions of a file, in the order in
/// which the sessions first occur.
pub open spec fn session_conversations(
    file_path: Seq<char>,
    project_path: Seq<char>,
    project_name: Seq<char>,
    records: Seq<RawMessageView>,
    k: int,
) -> Seq<ParsedConversationView>
    decreases k,
{
    if k <= 0 {
        Seq::empty()
    } else {
        session_conversations(file_path, project_path, project_name, records, k - 1).push(
            conversation_of(
                file_path,
                project_path,
                project_name,
                session_keys(records)[k - 1],
                session_records(records, session_keys(records)[k - 1]),
            ),
        )
    }
}

/// Conversations with the latest start first; those that start at the same
/// time keep their order.
pub open spec fn newest_first(conversations: Seq<ParsedConversationView>) -> Seq<
    ParsedConversationView,
> {
    stable_sort(conversations, key_fn::<ParsedConversation>(), false)
}

/// The conversations that the records of a file make up: one for each
/// session, newest first.
pub open spec fn file_conversations(
    file_path: Seq<char>,
    project_path: Seq<char>,
    project_name: Seq<char>,
    records: Seq<RawMessageView>,
) -> Seq<ParsedConversationView> {
    newest_first(
        session_conversations(
            file_path,
            project_path,
            project_name,
            records,
            session_keys(records).len() as int,
        ),
    )
}

/// A conversation holds exactly the records of its session, each as often
/// as it occurs, in ascending order of their timestamps; its start and last
/// time are those of the first and the last of them.
pub proof fn lemma_conversation_keeps_records(
    file_path: Seq<char>,
    project_path: Seq<char>,
    project_name: Seq<char>,
    key: Seq<char>,
    records: Seq<RawMessageView>,
)
    ensures
        ({
            let conversation = conversation_of(file_path, project_path, project_name, key, records);
            &&& conversation.messages.len() == records.len()
            &&& conversation.messages.to_multiset() == records.to_multiset()
            &&& forall|i: int, j: int|
                0 <= i <= j < records.len() ==> crate::text::lex_le(
                    timestamp_key(#[trigger] conversation.messages[i]),
                    timestamp_key(#[trigger] conversation.messages[j]),
                )
            &&& records.len() > 0 ==> conversation.start_time == timestamp_key(
                conversation.messages[0],
            ) && conversation.last_time == timestamp_key(
                conversation.messages[records.len() - 1],
            )
            &&& records.len() == 0 ==> conversation.start_time.len() == 0
                && conversation.last_time.len() == 0
        }),
{
    crate::parser::chronology::lemma_sort_by_time(records);
}

/// Whether two conversations agree in everything but the project: the same
/// identifier, session, file, records, timestamps and token totals.
pub open spec fn same_apart_from_project(
    a: ParsedConversationView,
    b: ParsedConversationView,
) -> bool {
    &&& a.id == b.id
    &&& a.session_id == b.session_id
    &&& a.file_path == b.file_path
    &&& a.messages == b.messages
    &&& a.start_time == b.start_time
    &&& a.last_time == b.last_time
    &&& a.total_input_tokens == b.total_input_tokens
    &&& a.total_output_tokens == b.total_output_tokens
}

/// Reading an unchanged file again gives the same conversations, in the
/// same order, with the same identifiers and aggregates: all of these depend
/// on the path of the file and on its records alone. With the same project
/// the two readings are equal.
pub proof fn lemma_reparse_is_identical(
    file_path: Seq<char>,
    records: Seq<RawMessageView>,
    first_project: (Seq<char>, Seq<char>),
    second_project: (Seq<char>, Seq<char>),
)
    ensures
        file_conversations(file_path, first_project.0, first_project.1, records).len()
            == file_conversations(file_path, second_project.0, second_project.1, records).len(),
        file_conversations(file_path, first_project.0, first_project.1, records).len()
            == session_keys(records).len(),
        forall|i: int|
            0 <= i < session_keys(records).len() ==> same_apart_from_project(
                #[trigger] file_conversations(
                    file_path,
                    first_project.0,
                    first_project.1,
                    records,
                )[i],
                file_conversations(file_path, second_project.0, second_project.1, records)[i],
            ),
        first_project == second_project ==> file_conversations(
            file_path,
            first_project.0,
            first_project.1,
            records,
        ) == file_conversations(file_path, second_project.0, second_project.1, records),
{
    let n = session_keys(records).len() as int;
    let a = session_conversations(file_path, first_project.0, first_project.1, records, n);
    let b = session_conversations(file_path, second_project.0, second_project.1, records, n);
    lemma_session_conversations(file_path, first_project.0, first_project.1, records, n);
    lemma_session_conversations(file_path, second_project.0, second_project.1, records, n);
    let related = |x: ParsedConversationView, y: ParsedConversationView|
        same_apart_from_project(x, y);
    assert forall|i: int| 0 <= i < a.len() implies related(#[trigger] a[i], b[i]) by {}
    assert forall|p: ParsedConversationView, q: ParsedConversationView| #[trigger]
        related(p, q) implies key_fn::<ParsedConversation>()(p) == key_fn::<ParsedConversation>()(
        q,
    ) by {}
    crate::stable_sort::lemma_sort_keeps_relation(
        a,
        key_fn::<ParsedConversation>(),
        b,
        key_fn::<ParsedConversation>(),
        false,
        related,
    );
    let first = file_conversations(file_path, first_project.0, first_project.1, records);
    let second = file_conversations(file_path, second_project.0, second_project.1, records);
    assert forall|i: int| 0 <= i < n implies same_apart_from_project(
        #[trigger] first[i],
        second[i],
    ) by {
        assert(related(first[i], second[i]));
    }
}

/// The conversations of the first `k` sessions, one by one.
pub proof fn lemma_session_conversations(
    file_path: Seq<char>,
    project_path: Seq<char>,
    project_name: Seq<char>,
    records: Seq<RawMessageView>,
    k: int,
)
    requires
        0 <= k <= session_keys(records).len(),
    ensures
        session_conversations(file_path, project_path, project_name, records, k).len() == k,
        forall|i: int|
            0 <= i < k ==> #[trigger] session_conversations(
                file_path,
                project_path,
                project_name,
                records,
                k,
            )[i] == conversation_of(
                file_path,
                project_path,
                project_name,
                session_keys(records)[i],
                session_records(records, session_keys(records)[i]),
            ),
    decreases k,
{
    if k > 0 {
        lemma_session_conversations(file_path, project_path, project_name, records, k - 1);
    }
}

/// Number of records of `records` in the first `k` sessions of `keys`.
pub open spec fn records_in(records: Seq<RawMessageView>, keys: Seq<Seq<char>>, k: int) -> int
    decreases k,
{
    if k <= 0 {
        0
    } else {
        records_in(records, keys, k - 1) + session_records(records, keys[k - 1]).len()
    }
}

/// The session of a conversation, as a function.
pub open spec fn session_of() -> spec_fn(ParsedConversationView) -> Seq<char> {
    |conversation: ParsedConversationView| conversation.session_id
}

/// The number of records of a conversation, as a function.
pub open spec fn size_of() -> spec_fn(ParsedConversationView) -> int {
    |conversation: ParsedConversationView| conversation.messages.len() as int
}

/// Number of records that the conversations hold together.
pub open spec fn message_total(conversations: Seq<ParsedConversationView>) -> int {
    total(conversations, size_of())
}

/// The count depends only on the sessions that are counted.
proof fn lemma_records_in_same_keys(
    records: Seq<RawMessageView>,
    a: Seq<Seq<char>>,
    b: Seq<Seq<char>>,
    k: int,
)
    requires
        0 <= k <= a.len(),
        k <= b.len(),
        forall|i: int| 0 <= i < k ==> a[i] == b[i],
    ensures
        records_in(records, a, k) == records_in(records, b, k),
    decreases k,
{
    if k > 0 {
        lemma_records_in_same_keys(records, a, b, k - 1);
    }
}

/// One more record adds one to the count if its session is among those
/// counted, and nothing otherwise.
proof fn lemma_records_in_push(
    records: Seq<RawMessageView>,
    record: RawMessageView,
    keys: Seq<Seq<char>>,
    k: int,
)
    requires
        0 <= k <= keys.len(),
        forall|i: int, j: int| 0 <= i < j < keys.len() ==> keys[i] != keys[j],
    ensures
        (exists|i: int| 0 <= i < k && keys[i] == session_key(record)) ==> records_in(
            records.push(record),
            keys,
            k,
        ) == records_in(records, keys, k) + 1,
        (forall|i: int| 0 <= i < k ==> keys[i] != session_key(record)) ==> records_in(
            records.push(record),
            keys,
            k,
        ) == records_in(records, keys, k),
    decreases k,
{
    if k > 0 {
        lemma_records_in_push(records, record, keys, k - 1);
        let more = records.push(record);
        assert(more.drop_last() =~= records);
        assert(more.last() == record);
        if keys[k - 1] == session_key(record) {
            assert(session_records(more, keys[k - 1]).len() == session_records(
                records,
                keys[k - 1],
            ).len() + 1);
            assert forall|i: int| 0 <= i < k - 1 implies keys[i] != session_key(record) by {
                assert(keys[i] != keys[k - 1]);
            }
        } else {
            assert(session_records(more, keys[k - 1]) == session_records(records, keys[k - 1]));
            if exists|i: int| 0 <= i < k && keys[i] == session_key(record) {
                let i = choose|i: int| 0 <= i < k && keys[i] == session_key(record);
                assert(0 <= i < k - 1 && keys[i] == session_key(record));
            }
        }
    }
}

/// Every record falls into exactly one session: the sessions of a file
/// hold as many records together as the file.
pub proof fn lemma_sessions_hold_all_records(records: Seq<RawMessageView>)
    ensures
        records_in(records, session_keys(records), session_keys(records).len() as int)
            == records.len(),
    decreases records.len(),
{
    if records.len() > 0 {
        let front = records.drop_last();
        let record = records.last();
        let key = session_key(record);
        let before = session_keys(front);
        let keys = session_keys(records);
        lemma_sessions_hold_all_records(front);
        lemma_session_keys(front);
        lemma_session_keys(records);
        assert(records =~= front.push(record));
        if before.contains(key) {
            let i = choose|i: int| 0 <= i < before.len() && before[i] == key;
            assert(keys[i] == key);
            lemma_records_in_push(front, record, keys, keys.len() as int);
        } else {
            let n = before.len() as int;
            assert(keys[n] == key);
            assert forall|i: int| 0 <= i < n implies keys[i] != key by {
                assert(keys[i] != keys[n]);
            }
            lemma_records_in_push(front, record, keys, n);
            lemma_records_in_same_keys(front, keys, before, n);
            assert(session_records(front, key).len() == 0);
            assert(session_records(records, key).len() == 1);
        }
    }
}

/// The conversations of the first `k` sessions hold the records of these
/// sessions, no more and no fewer.
proof fn lemma_session_conversations_total(
    file_path: Seq<char>,
    project_path: Seq<char>,
    project_name: Seq<char>,
    records: Seq<RawMessageView>,
    k: int,
)
    requires
        0 <= k <= session_keys(records).len(),
    ensures
        message_total(session_conversations(file_path, project_path, project_name, records, k))
            == records_in(records, session_keys(records), k),
    decreases k,
{
    if k > 0 {
        lemma_session_conversations_total(file_path, project_path, project_name, records, k - 1);
        let before = session_conversations(file_path, project_path, project_name, records, k - 1);
        let all = session_conversations(file_path, project_path, project_name, records, k);
        let key = session_keys(records)[k - 1];
        assert(all.drop_last() =~= before);
        crate::parser::chronology::lemma_sort_by_time(session_records(records, key));
        assert(size_of()(all.last()) == session_records(records, key).len());
    }
}

/// The conversations of a file partition its records. There is one
/// conversation for each session of the file and no two conversations have
/// the same session; each conversation holds exactly the records of its
/// session; every record is in the conversation of its session; and the
/// conversations together hold as many records as the file.
pub proof fn lemma_conversations_partition_records(
    file_path: Seq<char>,
    project_path: Seq<char>,
    project_name: Seq<char>,
    records: Seq<RawMessageView>,
)
    ensures
        ({
            let conversations = file_conversations(file_path, project_path, project_name, records);
            &&& conversations.len() == session_keys(records).len()
            &&& distinct_by(conversations, session_of())
            &&& forall|i: int|
                0 <= i < conversations.len() ==> (#[trigger] conversations[i]).messages
                    == sort_by_time(session_records(records, conversations[i].session_id))
                    && conversations[i].messages.to_multiset() == session_records(
                    records,
                    conversations[i].session_id,
                ).to_multiset()
            &&& forall|r: int|
                0 <= r < records.len() ==> exists|i: int|
                    0 <= i < conversations.len() && (#[trigger] conversations[i]).session_id
                        == session_key(#[trigger] records[r])
            &&& message_total(conversations) == records.len()
        }),
{
    broadcast use vstd::seq_lib::group_to_multiset_ensures;

    let keys = session_keys(records);
    let n = keys.len() as int;
    let unsorted = session_conversations(file_path, project_path, project_name, records, n);
    let conversations = file_conversations(file_path, project_path, project_name, records);
    lemma_session_keys(records);
    lemma_session_conversations(file_path, project_path, project_name, records, n);
    lemma_session_conversations_total(file_path, project_path, project_name, records, n);
    lemma_sessions_hold_all_records(records);
    assert forall|i: int, j: int| 0 <= i < j < unsorted.len() implies session_of()(
        #[trigger] unsorted[i],
    ) != session_of()(#[trigger] unsorted[j]) by {
        assert(unsorted[i].session_id == keys[i]);
        assert(unsorted[j].session_id == keys[j]);
    }
    lemma_sort_keeps_distinct(
        unsorted,
        key_fn::<ParsedConversation>(),
        false,
        session_of(),
        size_of(),
    );
    crate::stable_sort::lemma_sort_keeps_values(unsorted, key_fn::<ParsedConversation>(), false);
    assert forall|i: int| 0 <= i < conversations.len() implies (#[trigger] conversations[i]).messages
        == sort_by_time(session_records(records, conversations[i].session_id))
        && conversations[i].messages.to_multiset() == session_records(
        records,
        conversations[i].session_id,
    ).to_multiset() by {
        let p = choose|p: int| 0 <= p < unsorted.len() && unsorted[p] == conversations[i];
        assert(unsorted[p].session_id == keys[p]);
        crate::parser::chronology::lemma_sort_by_time(session_records(records, keys[p]));
    }
    assert forall|r: int| 0 <= r < records.len() implies exists|i: int|
        0 <= i < conversations.len() && (#[trigger] conversations[i]).session_id == session_key(
            #[trigger] records[r],
        ) by {
        let key = session_key(records[r]);
        assert(keys.contains(key));
        let p = choose|p: int| 0 <= p < keys.len() && keys[p] == key;
        assert(unsorted[p].session_id == key);
        assert(unsorted.contains(unsorted[p]));
        assert(unsorted.to_multiset().count(unsorted[p]) > 0);
        assert(conversations.to_multiset().count(unsorted[p]) > 0);
        assert(conversations.contains(unsorted[p]));
        let i = choose|i: int| 0 <= i < conversations.len() && conversations[i] == unsorted[p];
        assert(conversations[i].session_id == key);
    }
}

/// The timestamp of a record, or the empty string.
fn timestamp_text(record: &RawMessage) -> (text: String)
    ensures
        text@ == timestamp_key(record.deep_view()),
{
    match &record.timestamp {
        Some(t) => t.clone(),
        None => String::new(),
    }
}

/// Builds the conversation of one session.
fn build_conversation(
    file_path: &str,
    project_path: &str,
    project_name: &str,
    session: Session,
) -> (conversation: ParsedConversation)
    ensures
        conversation.deep_view() == conversation_of(
            file_path@,
            project_path@,
            project_name@,
            session.key@,
            session.records.deep_view(),
        ),
{
    let Session { key, records } = session;
    let mut messages = records;
    sort_messages(&mut messages);
    let count = messages.len();
    let (start_time, last_time) = if count > 0 {
        (timestamp_text(&messages[0]), timestamp_text(&messages[count - 1]))
    } else {
        (String::new(), String::new())
    };
    let (total_input_tokens, total_output_tokens) = calculate_total_tokens(messages.as_slice());
    let id = generate_conversation_id(file_path, key.as_str());
    ParsedConversation {
        id,
        project_path: project_path.to_owned(),
        project_name: project_name.to_owned(),
        start_time,
        last_time,
        messages,
        total_input_tokens,
        total_output_tokens,
        session_id: key,
        file_path: file_path.to_owned(),
    }
}

/// Turns the sessions of a file into its conversations, newest first.
fn build_conversations(
    file_path: &str,
    project_path: &str,
    project_name: &str,
    sessions: Vec<Session>,
    Ghost(records): Ghost<Seq<RawMessageView>>,
) -> (conversations: Vec<ParsedConversation>)
    requires
        sessions_hold(sessions@, records),
    ensures
        conversations.deep_view() == file_conversations(
            file_path@,
            project_path@,
            project_name@,
            records,
        ),
{
    let mut conversations: Vec<ParsedConversation> = Vec::new();
    let ghost all = sessions@;
    assert(conversations.deep_view() =~= Seq::empty());
    for session in it: sessions
        invariant
            it.seq() == all,
            sessions_hold(all, records),
            conversations.deep_view() == session_conversations(
                file_path@,
                project_path@,
                project_name@,
                records,
                it.index() as int,
            ),
    {
        let ghost before = conversations.deep_view();
        let conversation = build_conversation(file_path, project_path, project_name, session);
        conversations.push(conversation);
        assert(conversations.deep_view() =~= before.push(conversation.deep_view()));
        assert(session == all[it.index() as int]);
    }
    sort_stable(&mut conversations, false);
    conversations
}

/// Groups decoded records into the conversations of their file.
///
/// Records are grouped by session, those without a session identifier
/// under `default`; each group is sorted by timestamp and summed up, and the
/// conversations come newest first.
pub fn conversations_from_records(
    file_path: &str,
    project_path: &str,
    project_name: &str,
    records: Vec<RawMessage>,
) -> (conversations: Vec<ParsedConversation>)
    ensures
        conversations.deep_view() == file_conversations(
            file_path@,
            project_path@,
            project_name@,
            records.deep_view(),
        ),
{
    let mut sessions: Vec<Session> = Vec::new();
    let ghost all = records.deep_view();
    let ghost exec_all = records@;
    assert(all.take(0) =~= Seq::empty());
    for record in it: records
        invariant
            it.seq() == exec_all,
            all.len() == exec_all.len(),
            forall|i: int| 0 <= i < all.len() ==> #[trigger] all[i] == exec_all[i].deep_view(),
            sessions_hold(sessions@, all.take(it.index() as int)),
    {
        let ghost k = it.index() as int;
        assert(record == exec_all[k]);
        add_record(&mut sessions, record, Ghost(all.take(k)));
        assert(all.take(k).push(record.deep_view()) =~= all.take(k + 1));
    }
    assert(all.take(all.len() as int) =~= all);
    build_conversations(file_path, project_path, project_name, sessions, Ghost(all))
}

/// The record that a line holds, if it holds one: a blank line and a line
/// that does not decode hold none.
pub open spec fn line_record(line: Seq<char>) -> Option<RawMessageView> {
    let text = trim_spec(line);
    if text.len() == 0 {
        None
    } else {
        match json_document(text) {
            Some(tree) => match decode_record(tree) {
                Ok(record) => Some(record),
                Err(_) => None,
            },
            None => None,
        }
    }
}

/// The records of the first `k` lines, in order.
pub open spec fn file_records(lines: Seq<Seq<char>>, k: int) -> Seq<RawMessageView>
    decreases k,
{
    if k <= 0 {
        Seq::empty()
    } else {
        match line_record(lines[k - 1]) {
            Some(record) => file_records(lines, k - 1).push(record),
            None => file_records(lines, k - 1),
        }
    }
}

/// Number of lines among the first `k` that are not blank and hold no
/// record.
pub open spec fn fault_count(lines: Seq<Seq<char>>, k: int) -> int
    decreases k,
{
    if k <= 0 {
        0
    } else if trim_spec(lines[k - 1]).len() > 0 && line_record(lines[k - 1]) is None {
        fault_count(lines, k - 1) + 1
    } else {
        fault_count(lines, k - 1)
    }
}

/// What reading the lines of a file gave.
#[derive(Debug, Clone, PartialEq, Eq)]
pub struct FileParse {
    /// The conversations of the file, newest first.
    pub conversations: Vec<ParsedConversation>,
    /// Number of lines that were skipped because they did not decode.
    pub parse_errors: usize,
}

/// Decodes the lines of a file, skipping what does not decode.
fn read_records(lines: &Vec<String>) -> (read: (Vec<RawMessage>, usize))
    ensures
        read.0.deep_view() == file_records(lines.deep_view(), lines.len() as int),
        read.1 == fault_count(lines.deep_view(), lines.len() as int),
{
    let mut records: Vec<RawMessage> = Vec::new();
    let mut faults: usize = 0;
    let mut k: usize = 0;
    let ghost texts = lines.deep_view();
    assert(records.deep_view() =~= Seq::empty());
    while k < lines.len()
        invariant
            k <= lines.len(),
            texts == lines.deep_view(),
            records.deep_view() == file_records(texts, k as int),
            faults == fault_count(texts, k as int),
            faults <= k,
        decreases lines.len() - k,
    {
        assert(texts[k as int] == lines@[k as int]@);
        let outcome = parse_jsonl_line(lines[k].as_str());
        match outcome {
            Ok(record) => {
                let ghost before = records.deep_view();
                records.push(record);
                assert(records.deep_view() =~= before.push(record.deep_view()));
            },
            Err(_) => {
                let blank = crate::text::trim_chars(&chars_of(lines[k].as_str())).len() == 0;
                if !blank {
                    faults += 1;
                }
            },
        }
        k += 1;
    }
    (records, faults)
}

/// Reads the conversations of a file from its lines.
///
/// Each line is decoded by itself: blank lines are skipped, lines that do
/// not decode are skipped and counted, and every other line gives a record.
/// The records are then grouped as [`conversations_from_records`] does.
pub fn parse_lines(
    file_path: &str,
    project_path: &str,
    project_name: &str,
    lines: &Vec<String>,
) -> (parsed: FileParse)
    ensures
        parsed.conversations.deep_view() == file_conversations(
            file_path@,
            project_path@,
            project_name@,
            file_records(lines.deep_view(), lines.len() as int),
        ),
        parsed.parse_errors == fault_count(lines.deep_view(), lines.len() as int),
{
    let (records, parse_errors) = read_records(lines);
    let conversations = conversations_from_records(file_path, project_path, project_name, records);
    FileParse { conversations, parse_errors }
}

/// Reads the conversations of the file at `file_path` from its lines; the
/// project of each is the directory that holds the file (see
/// [`extract_project_info`]).
pub fn parse_conversation_file(file_path: &str, lines: &Vec<String>) -> (conversations: Vec<
    ParsedConversation,
>)
    ensures
        conversations.deep_view() == file_conversations(
            file_path@,
            project_of(file_path@).0,
            project_of(file_path@).1,
            file_records(lines.deep_view(), lines.len() as int),
        ),
{
    let (project_path, project_name) = extract_project_info(file_path);
    let parsed = parse_lines(file_path, project_path.as_str(), project_name.as_str(), lines);
    parsed.conversations
}

} // verus!
