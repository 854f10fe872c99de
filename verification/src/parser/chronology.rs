//! Chronological ordering of the records of one session.

use crate::parser::jsonl::{RawMessage, RawMessageView};
use crate::stable_sort::{
    is_ordered, key_fn, lemma_sort_is_ordered, lemma_sort_keeps_values, sort_stable, stable_sort,
    SortKey,
};
use crate::text::{chars_of, lex_le};
use vstd::prelude::*;

verus! {

/// The text by which a record is ordered: its timestamp, or the empty string
/// where it has none.
pub open spec fn timestamp_key(m: RawMessageView) -> Seq<char> {
    match m.timestamp {
        Some(t) => t,
        None => Seq::empty(),
    }
}

impl SortKey for RawMessage {
    open spec fn key_of(v: RawMessageView) -> Seq<char> {
        timestamp_key(v)
    }

    fn sort_key(&self) -> (key: Vec<char>) {
        match &self.timestamp {
            Some(t) => chars_of(t.as_str()),
            None => Vec::new(),
        }
    }
}

/// The records in ascending order of their timestamp keys, compared as
/// strings; records with the same key keep the order in which they came.
pub open spec fn sort_by_time(messages: Seq<RawMessageView>) -> Seq<RawMessageView> {
    stable_sort(messages, key_fn::<RawMessage>(), true)
}

/// Sorting by time keeps every record and puts the keys in ascending order.
pub proof fn lemma_sort_by_time(messages: Seq<RawMessageView>)
    ensures
        sort_by_time(messages).len() == messages.len(),
        sort_by_time(messages).to_multiset() == messages.to_multiset(),
        forall|i: int, j: int|
            0 <= i <= j < messages.len() ==> lex_le(
                timestamp_key(#[trigger] sort_by_time(messages)[i]),
                timestamp_key(#[trigger] sort_by_time(messages)[j]),
            ),
{
    lemma_sort_keeps_values(messages, key_fn::<RawMessage>(), true);
    lemma_sort_is_ordered(messages, key_fn::<RawMessage>(), true);
    let sorted = sort_by_time(messages);
    assert(is_ordered(sorted, key_fn::<RawMessage>(), true));
    assert forall|i: int, j: int| 0 <= i <= j < messages.len() implies lex_le(
        timestamp_key(#[trigger] sorted[i]),
        timestamp_key(#[trigger] sorted[j]),
    ) by {
        assert(key_fn::<RawMessage>()(sorted[i]) == timestamp_key(sorted[i]));
        assert(key_fn::<RawMessage>()(sorted[j]) == timestamp_key(sorted[j]));
    }
}

/// In every sorted group, a record without a timestamp stands in front of
/// every record that has a non-empty one.
pub proof fn lemma_missing_timestamps_first(messages: Seq<RawMessageView>, i: int, j: int)
    requires
        0 <= i < sort_by_time(messages).len(),
        0 <= j < sort_by_time(messages).len(),
        sort_by_time(messages)[i].timestamp is None,
        sort_by_time(messages)[j].timestamp matches Some(t) && t.len() > 0,
    ensures
        i < j,
{
    lemma_sort_by_time(messages);
    let sorted = sort_by_time(messages);
    if j <= i {
        assert(lex_le(timestamp_key(sorted[j]), timestamp_key(sorted[i])));
    }
}

/// Sorts the records of one session by timestamp, in place and stably.
///
/// Timestamps are compared as strings, which orders ISO 8601 timestamps by
/// time; a record without a timestamp is ordered as the empty string.
pub fn sort_messages(messages: &mut Vec<RawMessage>)
    ensures
        final(messages).deep_view() == sort_by_time(old(messages).deep_view()),
{
    sort_stable(messages, true);
}

} // verus!
