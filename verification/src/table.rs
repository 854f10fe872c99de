//! Tables of rows keyed by text, each key at most once, in the order in
//! which the keys were first stored.

use crate::text::{chars_equal, chars_of};
use vstd::prelude::*;

verus! {

/// Position of the first row at or after `from` whose key is `key`.
pub open spec fn position_from<W>(rows: Seq<(Seq<char>, W)>, key: Seq<char>, from: int) -> Option<
    int,
>
    decreases rows.len() - from,
{
    if from < 0 || from >= rows.len() {
        None
    } else if rows[from].0 == key {
        Some(from)
    } else {
        position_from(rows, key, from + 1)
    }
}

/// Position of the row whose key is `key`.
pub open spec fn position_of<W>(rows: Seq<(Seq<char>, W)>, key: Seq<char>) -> Option<int> {
    position_from(rows, key, 0)
}

/// Whether a row is stored under `key`.
pub open spec fn has_key<W>(rows: Seq<(Seq<char>, W)>, key: Seq<char>) -> bool {
    position_of(rows, key) is Some
}

/// The value stored under `key`.
pub open spec fn value_of<W>(rows: Seq<(Seq<char>, W)>, key: Seq<char>) -> Option<W> {
    match position_of(rows, key) {
        Some(at) => Some(rows[at].1),
        None => None,
    }
}

/// Whether no key occurs in two rows.
pub open spec fn distinct_keys<W>(rows: Seq<(Seq<char>, W)>) -> bool {
    forall|i: int, j: int|
        0 <= i < j < rows.len() ==> (#[trigger] rows[i]).0 != (#[trigger] rows[j]).0
}

/// The rows after `value` is stored under `key`: in place of the row that
/// had the key, or behind all rows if there was none.
pub open spec fn upsert_rows<W>(rows: Seq<(Seq<char>, W)>, key: Seq<char>, value: W) -> Seq<
    (Seq<char>, W),
> {
    match position_of(rows, key) {
        Some(at) => rows.update(at, (key, value)),
        None => rows.push((key, value)),
    }
}

/// The rows without the one stored under `key`.
pub open spec fn remove_rows<W>(rows: Seq<(Seq<char>, W)>, key: Seq<char>) -> Seq<(Seq<char>, W)> {
    match position_of(rows, key) {
        Some(at) => rows.remove(at),
        None => rows,
    }
}

/// A position found is that of a row with the key, and no row before it has
/// the key; where none is found, no row has the key.
pub proof fn lemma_position_from<W>(rows: Seq<(Seq<char>, W)>, key: Seq<char>, from: int)
    requires
        0 <= from,
    ensures
        match position_from(rows, key, from) {
            Some(at) => from <= at < rows.len() && rows[at].0 == key && forall|i: int|
                from <= i < at ==> (#[trigger] rows[i]).0 != key,
            None => forall|i: int| from <= i < rows.len() ==> (#[trigger] rows[i]).0 != key,
        },
    decreases rows.len() - from,
{
    if from < rows.len() && rows[from].0 != key {
        lemma_position_from(rows, key, from + 1);
    }
}

/// If the row at `at` has the key and no row before it has, `at` is the
/// position of the key.
pub proof fn lemma_position_is<W>(rows: Seq<(Seq<char>, W)>, key: Seq<char>, at: int)
    requires
        0 <= at < rows.len(),
        rows[at].0 == key,
        forall|i: int| 0 <= i < at ==> (#[trigger] rows[i]).0 != key,
    ensures
        position_of(rows, key) == Some(at),
{
    lemma_position_from(rows, key, 0);
}

/// If no row has the key, it has no position.
pub proof fn lemma_position_none<W>(rows: Seq<(Seq<char>, W)>, key: Seq<char>)
    requires
        forall|i: int| 0 <= i < rows.len() ==> (#[trigger] rows[i]).0 != key,
    ensures
        position_of(rows, key) is None,
{
    lemma_position_from(rows, key, 0);
}

/// Storing a value: the key then holds it, every other key holds what it
/// held, and keys stay distinct.
pub proof fn lemma_upsert<W>(rows: Seq<(Seq<char>, W)>, key: Seq<char>, value: W, other: Seq<char>)
    ensures
        value_of(upsert_rows(rows, key, value), key) == Some(value),
        other != key ==> value_of(upsert_rows(rows, key, value), other) == value_of(rows, other),
        distinct_keys(rows) ==> distinct_keys(upsert_rows(rows, key, value)),
{
    let after = upsert_rows(rows, key, value);
    lemma_position_from(rows, key, 0);
    lemma_position_from(rows, other, 0);
    match position_of(rows, key) {
        Some(at) => {
            assert forall|i: int| 0 <= i < at implies (#[trigger] after[i]).0 != key by {
                assert(after[i] == rows[i]);
            }
            lemma_position_is(after, key, at);
        },
        None => {
            assert forall|i: int| 0 <= i < rows.len() implies (#[trigger] after[i]).0 != key by {
                assert(after[i] == rows[i]);
            }
            lemma_position_is(after, key, rows.len() as int);
        },
    }
    if other != key {
        match position_of(rows, other) {
            Some(at) => {
                assert(after[at] == rows[at]);
                assert forall|i: int| 0 <= i < at implies (#[trigger] after[i]).0 != other by {
                    if after[i] != rows[i] {
                    }
                }
                lemma_position_is(after, other, at);
            },
            None => {
                assert forall|i: int| 0 <= i < after.len() implies (#[trigger] after[i]).0
                    != other by {
                    if i < rows.len() && after[i] == rows[i] {
                    }
                }
                lemma_position_none(after, other);
            },
        }
    }
    if distinct_keys(rows) {
        assert forall|i: int, j: int| 0 <= i < j < after.len() implies (#[trigger] after[i]).0 != (
        #[trigger] after[j]).0 by {
            match position_of(rows, key) {
                Some(at) => {
                    if i == at {
                        assert(after[j] == rows[j]);
                        assert(rows[at].0 != rows[j].0);
                    } else if j == at {
                        assert(after[i] == rows[i]);
                        assert(rows[i].0 != rows[at].0);
                    } else {
                        assert(after[i] == rows[i] && after[j] == rows[j]);
                    }
                },
                None => {
                    if j < rows.len() {
                        assert(after[i] == rows[i] && after[j] == rows[j]);
                    } else {
                        assert(after[i] == rows[i]);
                    }
                },
            }
        }
    }
}

/// Removing a key: where keys are distinct the key then holds nothing, every
/// other key holds what it held, and keys stay distinct.
pub proof fn lemma_remove<W>(rows: Seq<(Seq<char>, W)>, key: Seq<char>, other: Seq<char>)
    requires
        distinct_keys(rows),
    ensures
        !has_key(remove_rows(rows, key), key),
        other != key ==> value_of(remove_rows(rows, key), other) == value_of(rows, other),
        distinct_keys(remove_rows(rows, key)),
{
    let after = remove_rows(rows, key);
    lemma_position_from(rows, key, 0);
    lemma_position_from(rows, other, 0);
    match position_of(rows, key) {
        Some(at) => {
            assert forall|i: int| 0 <= i < after.len() implies (#[trigger] after[i]).0 != key by {
                if i < at {
                    assert(after[i] == rows[i]);
                } else {
                    assert(after[i] == rows[i + 1]);
                    assert(rows[at].0 != rows[i + 1].0);
                }
            }
            lemma_position_none(after, key);
            if other != key {
                match position_of(rows, other) {
                    Some(p) => {
                        let q = if p < at {
                            p
                        } else {
                            p - 1
                        };
                        assert(after[q] == rows[p]);
                        assert forall|i: int| 0 <= i < q implies (#[trigger] after[i]).0
                            != other by {
                            if i < at {
                                assert(after[i] == rows[i]);
                            } else {
                                assert(after[i] == rows[i + 1]);
                            }
                        }
                        lemma_position_is(after, other, q);
                    },
                    None => {
                        assert forall|i: int| 0 <= i < after.len() implies (#[trigger] after[i]).0
                            != other by {
                            if i < at {
                                assert(after[i] == rows[i]);
                            } else {
                                assert(after[i] == rows[i + 1]);
                            }
                        }
                        lemma_position_none(after, other);
                    },
                }
            }
            assert forall|i: int, j: int| 0 <= i < j < after.len() implies (#[trigger] after[i]).0
                != (#[trigger] after[j]).0 by {
                let a = if i < at {
                    i
                } else {
                    i + 1
                };
                let b = if j < at {
                    j
                } else {
                    j + 1
                };
                assert(after[i] == rows[a] && after[j] == rows[b]);
            }
        },
        None => {},
    }
}

/// One row of a table.
struct Row<V> {
    key: Vec<char>,
    value: V,
}

/// A table of values of type `V`, each stored under a text key.
pub struct Table<V> {
    rows: Vec<Row<V>>,
}

impl<V> Table<V> {
    #[verifier::type_invariant]
    spec fn well_formed(&self) -> bool {
        forall|i: int, j: int|
            0 <= i < j < self.rows@.len() ==> (#[trigger] self.rows@[i]).key@ != (
            #[trigger] self.rows@[j]).key@
    }
}

/// The model of a list of rows.
spec fn rows_view<V: DeepView>(rows: Seq<Row<V>>) -> Seq<(Seq<char>, V::V)> {
    Seq::new(rows.len(), |i: int| (rows[i].key@, rows[i].value.deep_view()))
}

impl<V: DeepView> Table<V> {
    /// The rows of the table, each a key and the model of its value, in the
    /// order in which the keys were first stored.
    pub closed spec fn view(&self) -> Seq<(Seq<char>, V::V)> {
        rows_view(self.rows@)
    }

    /// Recalls that the keys of a table are distinct. Does nothing when run.
    pub fn keys_are_distinct(&self)
        ensures
            distinct_keys(self@),
    {
        proof {
            use_type_invariant(self);
        }
        assert forall|i: int, j: int| 0 <= i < j < self@.len() implies (#[trigger] self@[i]).0 != (
        #[trigger] self@[j]).0 by {
            assert(self.rows@[i].key@ != self.rows@[j].key@);
        }
    }

    /// An empty table.
    pub fn new() -> (table: Self)
        ensures
            table@ == Seq::<(Seq<char>, V::V)>::empty(),
    {
        let table = Table { rows: Vec::new() };
        assert(table@ =~= Seq::empty());
        table
    }

    /// Number of rows.
    pub fn len(&self) -> (n: usize)
        ensures
            n == self@.len(),
    {
        self.rows.len()
    }

    /// Position of the row stored under `key`.
    pub fn find(&self, key: &Vec<char>) -> (at: Option<usize>)
        ensures
            at matches Some(i) ==> position_of(self@, key@) == Some(i as int) && i < self@.len(),
            at is None ==> position_of(self@, key@) is None,
    {
        let mut i: usize = 0;
        while i < self.rows.len()
            invariant
                i <= self.rows.len(),
                forall|j: int| 0 <= j < i ==> (#[trigger] self@[j]).0 != key@,
            decreases self.rows.len() - i,
        {
            if chars_equal(&self.rows[i].key, key) {
                proof {
                    assert(self@[i as int].0 == key@);
                    lemma_position_is(self@, key@, i as int);
                }
                return Some(i);
            }
            assert(self@[i as int].0 == self.rows@[i as int].key@);
            i += 1;
        }
        proof {
            lemma_position_none(self@, key@);
        }
        None
    }

    /// Whether a row is stored under `key`.
    pub fn contains_key(&self, key: &str) -> (found: bool)
        ensures
            found == has_key(self@, key@),
    {
        let wanted = chars_of(key);
        self.find(&wanted).is_some()
    }

    /// The value stored under `key`.
    pub fn get(&self, key: &str) -> (value: Option<&V>)
        ensures
            value.deep_view() == value_of(self@, key@),
    {
        let wanted = chars_of(key);
        match self.find(&wanted) {
            Some(at) => Some(&self.rows[at].value),
            None => None,
        }
    }

    /// The key of the row at position `at`.
    pub fn key_at(&self, at: usize) -> (key: &Vec<char>)
        requires
            at < self@.len(),
        ensures
            key@ == self@[at as int].0,
    {
        &self.rows[at].key
    }

    /// The value of the row at position `at`.
    pub fn value_at(&self, at: usize) -> (value: &V)
        requires
            at < self@.len(),
        ensures
            value.deep_view() == self@[at as int].1,
    {
        &self.rows[at].value
    }

    /// Stores `value` under `key`, in place of what was stored there.
    pub fn upsert(&mut self, key: &str, value: V)
        ensures
            final(self)@ == upsert_rows(old(self)@, key@, value.deep_view()),
    {
        let wanted = chars_of(key);
        proof {
            use_type_invariant(&*self);
        }
        let ghost before = self@;
        let found = self.find(&wanted);
        let mut rows: Vec<Row<V>> = Vec::new();
        core::mem::swap(&mut self.rows, &mut rows);
        match found {
            Some(at) => {
                proof {
                    lemma_position_from(before, key@, 0);
                }
                let ghost taken = rows@;
                rows[at].value = value;
                assert(rows@[at as int].key == taken[at as int].key);
                assert(forall|i: int| 0 <= i < rows@.len() && i != at ==> rows@[i] == taken[i]);
                assert(rows_view(rows@) =~= before.update(at as int, (key@, value.deep_view())));
            },
            None => {
                proof {
                    lemma_position_from(before, key@, 0);
                    assert forall|i: int| 0 <= i < rows@.len() implies (#[trigger] rows@[i]).key@
                        != wanted@ by {
                        assert(before[i].0 == rows@[i].key@);
                    }
                }
                rows.push(Row { key: wanted, value });
                assert(rows_view(rows@) =~= before.push((key@, value.deep_view())));
            },
        }
        self.rows = rows;
    }

    /// Removes the row stored under `key`; tells whether there was one.
    pub fn remove(&mut self, key: &str) -> (removed: bool)
        ensures
            final(self)@ == remove_rows(old(self)@, key@),
            removed == has_key(old(self)@, key@),
    {
        let wanted = chars_of(key);
        proof {
            use_type_invariant(&*self);
        }
        let ghost before = self@;
        match self.find(&wanted) {
            Some(at) => {
                let mut rows: Vec<Row<V>> = Vec::new();
                core::mem::swap(&mut self.rows, &mut rows);
                rows.remove(at);
                assert(rows_view(rows@) =~= before.remove(at as int));
                self.rows = rows;
                true
            },
            None => false,
        }
    }

    /// Removes every row.
    pub fn clear(&mut self)
        ensures
            final(self)@ == Seq::<(Seq<char>, V::V)>::empty(),
    {
        self.rows = Vec::new();
        assert(self@ =~= Seq::empty());
    }
}

} // verus!
