//! Stable sorting of values by a text key, compared as strings.

use crate::text::{chars_le, lemma_lex_le_total, lemma_lex_le_transitive, lex_le};
use vstd::prelude::*;

verus! {

/// A value that is ordered by a text derived from its model.
pub trait SortKey: DeepView {
    /// The text by which a value with model `v` is ordered.
    spec fn key_of(v: Self::V) -> Seq<char>;

    /// The ordering text of `self`.
    fn sort_key(&self) -> (key: Vec<char>)
        ensures
            key@ == Self::key_of(self.deep_view()),
    ;
}

/// The key function of a type, as a value.
pub open spec fn key_fn<T: SortKey>() -> spec_fn(T::V) -> Seq<char> {
    |v: T::V| T::key_of(v)
}

/// Whether a value with key `a` may stand in front of one with key `b`.
pub open spec fn in_order(a: Seq<char>, b: Seq<char>, ascending: bool) -> bool {
    if ascending {
        lex_le(a, b)
    } else {
        lex_le(b, a)
    }
}

/// `sorted` with `x` put behind the last value that may stand in front of it.
pub open spec fn insert_ordered<V>(
    sorted: Seq<V>,
    x: V,
    key: spec_fn(V) -> Seq<char>,
    ascending: bool,
) -> Seq<V>
    decreases sorted.len(),
{
    if sorted.len() == 0 || in_order(key(sorted.last()), key(x), ascending) {
        sorted.push(x)
    } else {
        insert_ordered(sorted.drop_last(), x, key, ascending).push(sorted.last())
    }
}

/// The values of `s` in the order of their keys, ascending or descending;
/// values with the same key keep the order in which they came.
pub open spec fn stable_sort<V>(s: Seq<V>, key: spec_fn(V) -> Seq<char>, ascending: bool) -> Seq<
    V,
>
    decreases s.len(),
{
    if s.len() == 0 {
        Seq::empty()
    } else {
        insert_ordered(stable_sort(s.drop_last(), key, ascending), s.last(), key, ascending)
    }
}

/// Whether each value of `s` may stand in front of all that follow it.
pub open spec fn is_ordered<V>(s: Seq<V>, key: spec_fn(V) -> Seq<char>, ascending: bool) -> bool {
    forall|i: int, j: int|
        0 <= i <= j < s.len() ==> in_order(key(#[trigger] s[i]), key(#[trigger] s[j]), ascending)
}

/// Where `x` lands in `s`: in front of the values from `at` on, none of
/// which may stand in front of it, and behind the value before them, which
/// may.
pub proof fn lemma_insert_position<V>(
    s: Seq<V>,
    x: V,
    key: spec_fn(V) -> Seq<char>,
    ascending: bool,
    at: int,
)
    requires
        0 <= at <= s.len(),
        at > 0 ==> in_order(key(s[at - 1]), key(x), ascending),
        forall|p: int| at <= p < s.len() ==> !in_order(key(#[trigger] s[p]), key(x), ascending),
    ensures
        insert_ordered(s, x, key, ascending) == s.take(at).push(x) + s.skip(at),
    decreases s.len() - at,
{
    if at == s.len() {
        assert(s.take(at) =~= s);
        assert(s.take(at).push(x) + s.skip(at) =~= s.push(x));
    } else {
        let front = s.drop_last();
        assert(!in_order(key(s[s.len() - 1]), key(x), ascending));
        assert forall|p: int| at <= p < front.len() implies !in_order(
            key(#[trigger] front[p]),
            key(x),
            ascending,
        ) by {
            assert(front[p] == s[p]);
        }
        if at > 0 {
            assert(front[at - 1] == s[at - 1]);
        }
        lemma_insert_position(front, x, key, ascending, at);
        assert(front.take(at) =~= s.take(at));
        assert((front.take(at).push(x) + front.skip(at)).push(s.last()) =~= s.take(at).push(x)
            + s.skip(at));
    }
}

/// Inserting keeps every value and adds the new one.
pub proof fn lemma_insert_keeps_values<V>(
    s: Seq<V>,
    x: V,
    key: spec_fn(V) -> Seq<char>,
    ascending: bool,
)
    ensures
        insert_ordered(s, x, key, ascending).len() == s.len() + 1,
        insert_ordered(s, x, key, ascending).to_multiset() == s.to_multiset().insert(x),
    decreases s.len(),
{
    broadcast use vstd::seq_lib::group_to_multiset_ensures;

    if s.len() == 0 || in_order(key(s.last()), key(x), ascending) {
    } else {
        let front = s.drop_last();
        lemma_insert_keeps_values(front, x, key, ascending);
        assert(s =~= front.push(s.last()));
        assert(front.to_multiset().insert(x).insert(s.last()) =~= front.to_multiset().insert(
            s.last(),
        ).insert(x));
    }
}

/// Sorting keeps every value, as often as it occurs.
pub proof fn lemma_sort_keeps_values<V>(s: Seq<V>, key: spec_fn(V) -> Seq<char>, ascending: bool)
    ensures
        stable_sort(s, key, ascending).len() == s.len(),
        stable_sort(s, key, ascending).to_multiset() == s.to_multiset(),
    decreases s.len(),
{
    broadcast use vstd::seq_lib::group_to_multiset_ensures;

    if s.len() > 0 {
        let front = s.drop_last();
        lemma_sort_keeps_values(front, key, ascending);
        lemma_insert_keeps_values(stable_sort(front, key, ascending), s.last(), key, ascending);
        assert(s =~= front.push(s.last()));
    }
}

/// The order on keys is total and transitive, in either direction.
pub proof fn lemma_in_order_laws(a: Seq<char>, b: Seq<char>, c: Seq<char>, ascending: bool)
    ensures
        in_order(a, b, ascending) || in_order(b, a, ascending),
        in_order(a, a, ascending),
        in_order(a, b, ascending) && in_order(b, c, ascending) ==> in_order(a, c, ascending),
{
    lemma_lex_le_total(a, b);
    lemma_lex_le_total(a, a);
    if in_order(a, b, ascending) && in_order(b, c, ascending) {
        if ascending {
            lemma_lex_le_transitive(a, b, c);
        } else {
            lemma_lex_le_transitive(c, b, a);
        }
    }
}

/// Inserting into an ordered sequence leaves it ordered, and every value of
/// the result is the new one or one of the old.
pub proof fn lemma_insert_keeps_order<V>(
    s: Seq<V>,
    x: V,
    key: spec_fn(V) -> Seq<char>,
    ascending: bool,
)
    requires
        is_ordered(s, key, ascending),
    ensures
        is_ordered(insert_ordered(s, x, key, ascending), key, ascending),
        forall|i: int|
            0 <= i < insert_ordered(s, x, key, ascending).len() ==> #[trigger] insert_ordered(
                s,
                x,
                key,
                ascending,
            )[i] == x || s.contains(insert_ordered(s, x, key, ascending)[i]),
    decreases s.len(),
{
    let out = insert_ordered(s, x, key, ascending);
    if s.len() == 0 || in_order(key(s.last()), key(x), ascending) {
        assert forall|i: int, j: int| 0 <= i <= j < out.len() implies in_order(
            key(#[trigger] out[i]),
            key(#[trigger] out[j]),
            ascending,
        ) by {
            if j < s.len() {
                assert(out[i] == s[i] && out[j] == s[j]);
            } else if i < s.len() {
                assert(out[i] == s[i]);
                lemma_in_order_laws(key(s[i]), key(s.last()), key(x), ascending);
            } else {
                lemma_in_order_laws(key(x), key(x), key(x), ascending);
            }
        }
        assert forall|i: int| 0 <= i < out.len() implies #[trigger] out[i] == x || s.contains(
            out[i],
        ) by {
            if i < s.len() {
                assert(out[i] == s[i]);
            }
        }
    } else {
        let front = s.drop_last();
        let last = s.last();
        assert forall|i: int, j: int| 0 <= i <= j < front.len() implies in_order(
            key(#[trigger] front[i]),
            key(#[trigger] front[j]),
            ascending,
        ) by {
            assert(front[i] == s[i] && front[j] == s[j]);
        }
        lemma_insert_keeps_order(front, x, key, ascending);
        let mid = insert_ordered(front, x, key, ascending);
        lemma_in_order_laws(key(last), key(x), key(x), ascending);
        assert forall|i: int, j: int| 0 <= i <= j < out.len() implies in_order(
            key(#[trigger] out[i]),
            key(#[trigger] out[j]),
            ascending,
        ) by {
            if j < mid.len() {
                assert(out[i] == mid[i] && out[j] == mid[j]);
            } else if i < mid.len() {
                assert(out[i] == mid[i]);
                if mid[i] == x {
                } else {
                    assert(front.contains(mid[i]));
                    let p = choose|p: int| 0 <= p < front.len() && front[p] == mid[i];
                    assert(s[p] == front[p]);
                    assert(in_order(key(s[p]), key(s[s.len() - 1]), ascending));
                }
            } else {
                lemma_in_order_laws(key(last), key(last), key(last), ascending);
            }
        }
        assert forall|i: int| 0 <= i < out.len() implies #[trigger] out[i] == x || s.contains(
            out[i],
        ) by {
            if i < mid.len() {
                assert(out[i] == mid[i]);
                if mid[i] != x {
                    let p = choose|p: int| 0 <= p < front.len() && front[p] == mid[i];
                    assert(s[p] == front[p]);
                }
            } else {
                assert(out[i] == s[s.len() - 1]);
            }
        }
    }
}

/// A sorted sequence is ordered by its keys.
pub proof fn lemma_sort_is_ordered<V>(s: Seq<V>, key: spec_fn(V) -> Seq<char>, ascending: bool)
    ensures
        is_ordered(stable_sort(s, key, ascending), key, ascending),
    decreases s.len(),
{
    if s.len() > 0 {
        lemma_sort_is_ordered(s.drop_last(), key, ascending);
        lemma_insert_keeps_order(
            stable_sort(s.drop_last(), key, ascending),
            s.last(),
            key,
            ascending,
        );
    }
}

/// Whether no two values of `s` have the same tag.
pub open spec fn distinct_by<V>(s: Seq<V>, tag: spec_fn(V) -> Seq<char>) -> bool {
    forall|i: int, j: int| 0 <= i < j < s.len() ==> tag(#[trigger] s[i]) != tag(#[trigger] s[j])
}

/// The sum of the weights of the values of `s`.
pub open spec fn total<V>(s: Seq<V>, weight: spec_fn(V) -> int) -> int
    decreases s.len(),
{
    if s.len() == 0 {
        0
    } else {
        total(s.drop_last(), weight) + weight(s.last())
    }
}

/// Inserting a value whose tag is new keeps the tags distinct; every value
/// of the result is the new one or one of the old; and the sum of the
/// weights grows by the weight of the new value.
pub proof fn lemma_insert_keeps_distinct<V>(
    s: Seq<V>,
    x: V,
    key: spec_fn(V) -> Seq<char>,
    ascending: bool,
    tag: spec_fn(V) -> Seq<char>,
    weight: spec_fn(V) -> int,
)
    ensures
        distinct_by(s, tag) && (forall|i: int| 0 <= i < s.len() ==> tag(#[trigger] s[i]) != tag(x))
            ==> distinct_by(insert_ordered(s, x, key, ascending), tag),
        forall|i: int|
            0 <= i < insert_ordered(s, x, key, ascending).len() ==> #[trigger] insert_ordered(
                s,
                x,
                key,
                ascending,
            )[i] == x || s.contains(insert_ordered(s, x, key, ascending)[i]),
        total(insert_ordered(s, x, key, ascending), weight) == total(s, weight) + weight(x),
    decreases s.len(),
{
    let out = insert_ordered(s, x, key, ascending);
    if s.len() == 0 || in_order(key(s.last()), key(x), ascending) {
        assert(out.drop_last() =~= s);
        assert forall|i: int| 0 <= i < out.len() implies #[trigger] out[i] == x || s.contains(
            out[i],
        ) by {
            if i < s.len() {
                assert(out[i] == s[i]);
            }
        }
        if distinct_by(s, tag) && (forall|i: int|
            0 <= i < s.len() ==> tag(#[trigger] s[i]) != tag(x)) {
            assert forall|i: int, j: int| 0 <= i < j < out.len() implies tag(#[trigger] out[i])
                != tag(#[trigger] out[j]) by {
                assert(out[i] == s[i]);
                if j < s.len() {
                    assert(out[j] == s[j]);
                }
            }
        }
    } else {
        let front = s.drop_last();
        let last = s.last();
        let rec = insert_ordered(front, x, key, ascending);
        lemma_insert_keeps_distinct(front, x, key, ascending, tag, weight);
        assert(out == rec.push(last));
        assert(out.drop_last() =~= rec);
        assert forall|i: int| 0 <= i < out.len() implies #[trigger] out[i] == x || s.contains(
            out[i],
        ) by {
            if i < rec.len() {
                assert(out[i] == rec[i]);
                if rec[i] != x {
                    let p = choose|p: int| 0 <= p < front.len() && front[p] == rec[i];
                    assert(s[p] == rec[i]);
                }
            } else {
                assert(s[s.len() - 1] == last);
            }
        }
        if distinct_by(s, tag) && (forall|i: int|
            0 <= i < s.len() ==> tag(#[trigger] s[i]) != tag(x)) {
            assert forall|i: int, j: int| 0 <= i < j < front.len() implies tag(
                #[trigger] front[i],
            ) != tag(#[trigger] front[j]) by {
                assert(front[i] == s[i] && front[j] == s[j]);
            }
            assert forall|i: int| 0 <= i < front.len() implies tag(#[trigger] front[i]) != tag(
                x,
            ) by {
                assert(front[i] == s[i]);
            }
            assert(distinct_by(rec, tag));
            assert forall|i: int, j: int| 0 <= i < j < out.len() implies tag(#[trigger] out[i])
                != tag(#[trigger] out[j]) by {
                assert(out[i] == rec[i]);
                if j < rec.len() {
                    assert(out[j] == rec[j]);
                } else {
                    assert(out[j] == last);
                    assert(tag(s[s.len() - 1]) != tag(x));
                    if rec[i] != x {
                        let p = choose|p: int| 0 <= p < front.len() && front[p] == rec[i];
                        assert(s[p] == rec[i]);
                        assert(tag(s[p]) != tag(s[s.len() - 1]));
                    }
                }
            }
        }
    }
}

/// Sorting keeps the tags distinct if they were; every value of the result
/// is one of the values sorted; and the sum of the weights stays the same.
pub proof fn lemma_sort_keeps_distinct<V>(
    s: Seq<V>,
    key: spec_fn(V) -> Seq<char>,
    ascending: bool,
    tag: spec_fn(V) -> Seq<char>,
    weight: spec_fn(V) -> int,
)
    ensures
        distinct_by(s, tag) ==> distinct_by(stable_sort(s, key, ascending), tag),
        forall|i: int|
            0 <= i < stable_sort(s, key, ascending).len() ==> s.contains(
                #[trigger] stable_sort(s, key, ascending)[i],
            ),
        total(stable_sort(s, key, ascending), weight) == total(s, weight),
    decreases s.len(),
{
    if s.len() > 0 {
        let front = s.drop_last();
        let x = s.last();
        let sorted = stable_sort(front, key, ascending);
        let out = stable_sort(s, key, ascending);
        lemma_sort_keeps_distinct(front, key, ascending, tag, weight);
        lemma_insert_keeps_distinct(sorted, x, key, ascending, tag, weight);
        assert forall|i: int| 0 <= i < out.len() implies s.contains(#[trigger] out[i]) by {
            if out[i] == x {
                assert(s[s.len() - 1] == x);
            } else {
                let p = choose|p: int| 0 <= p < sorted.len() && sorted[p] == out[i];
                let q = choose|q: int| 0 <= q < front.len() && front[q] == sorted[p];
                assert(s[q] == out[i]);
            }
        }
        if distinct_by(s, tag) {
            assert forall|i: int, j: int| 0 <= i < j < front.len() implies tag(
                #[trigger] front[i],
            ) != tag(#[trigger] front[j]) by {
                assert(front[i] == s[i] && front[j] == s[j]);
            }
            assert forall|i: int| 0 <= i < sorted.len() implies tag(#[trigger] sorted[i]) != tag(
                x,
            ) by {
                let q = choose|q: int| 0 <= q < front.len() && front[q] == sorted[i];
                assert(s[q] == sorted[i]);
                assert(tag(s[q]) != tag(s[s.len() - 1]));
            }
        }
    }
}

/// Inserting related values into sequences that are related position by
/// position leaves them related position by position, if related values
/// have the same key.
pub proof fn lemma_insert_keeps_relation<A, B>(
    a: Seq<A>,
    x: A,
    key_a: spec_fn(A) -> Seq<char>,
    b: Seq<B>,
    y: B,
    key_b: spec_fn(B) -> Seq<char>,
    ascending: bool,
    related: spec_fn(A, B) -> bool,
)
    requires
        a.len() == b.len(),
        forall|i: int| 0 <= i < a.len() ==> related(#[trigger] a[i], b[i]),
        related(x, y),
        forall|p: A, q: B| #[trigger] related(p, q) ==> key_a(p) == key_b(q),
    ensures
        insert_ordered(a, x, key_a, ascending).len() == insert_ordered(b, y, key_b, ascending).len(),
        forall|i: int|
            0 <= i < insert_ordered(a, x, key_a, ascending).len() ==> related(
                #[trigger] insert_ordered(a, x, key_a, ascending)[i],
                insert_ordered(b, y, key_b, ascending)[i],
            ),
    decreases a.len(),
{
    if a.len() > 0 {
        assert(related(a[a.len() - 1], b[b.len() - 1]));
        assert(related(a.last(), b.last()));
    }
    if a.len() == 0 || in_order(key_a(a.last()), key_a(x), ascending) {
        let out_a = insert_ordered(a, x, key_a, ascending);
        let out_b = insert_ordered(b, y, key_b, ascending);
        assert forall|i: int| 0 <= i < out_a.len() implies related(#[trigger] out_a[i], out_b[i]) by {
            if i < a.len() {
                assert(related(a[i], b[i]));
            }
        }
    } else {
        let front_a = a.drop_last();
        let front_b = b.drop_last();
        assert forall|i: int| 0 <= i < front_a.len() implies related(
            #[trigger] front_a[i],
            front_b[i],
        ) by {
            assert(related(a[i], b[i]));
        }
        lemma_insert_keeps_relation(front_a, x, key_a, front_b, y, key_b, ascending, related);
        let mid_a = insert_ordered(front_a, x, key_a, ascending);
        let mid_b = insert_ordered(front_b, y, key_b, ascending);
        let out_a = insert_ordered(a, x, key_a, ascending);
        let out_b = insert_ordered(b, y, key_b, ascending);
        assert forall|i: int| 0 <= i < out_a.len() implies related(#[trigger] out_a[i], out_b[i]) by {
            if i < mid_a.len() {
                assert(related(mid_a[i], mid_b[i]));
            }
        }
    }
}

/// Sorting two sequences that are related position by position leaves them
/// related position by position, if related values have the same key. In
/// particular the order that sorting gives depends on the keys alone.
pub proof fn lemma_sort_keeps_relation<A, B>(
    a: Seq<A>,
    key_a: spec_fn(A) -> Seq<char>,
    b: Seq<B>,
    key_b: spec_fn(B) -> Seq<char>,
    ascending: bool,
    related: spec_fn(A, B) -> bool,
)
    requires
        a.len() == b.len(),
        forall|i: int| 0 <= i < a.len() ==> related(#[trigger] a[i], b[i]),
        forall|p: A, q: B| #[trigger] related(p, q) ==> key_a(p) == key_b(q),
    ensures
        stable_sort(a, key_a, ascending).len() == stable_sort(b, key_b, ascending).len(),
        stable_sort(a, key_a, ascending).len() == a.len(),
        forall|i: int|
            0 <= i < a.len() ==> related(
                #[trigger] stable_sort(a, key_a, ascending)[i],
                stable_sort(b, key_b, ascending)[i],
            ),
    decreases a.len(),
{
    lemma_sort_keeps_values(a, key_a, ascending);
    if a.len() > 0 {
        let front_a = a.drop_last();
        let front_b = b.drop_last();
        assert forall|i: int| 0 <= i < front_a.len() implies related(
            #[trigger] front_a[i],
            front_b[i],
        ) by {
            assert(related(a[i], b[i]));
        }
        lemma_sort_keeps_relation(front_a, key_a, front_b, key_b, ascending, related);
        lemma_sort_keeps_values(front_a, key_a, ascending);
        assert(related(a[a.len() - 1], b[b.len() - 1]));
        lemma_insert_keeps_relation(
            stable_sort(front_a, key_a, ascending),
            a.last(),
            key_a,
            stable_sort(front_b, key_b, ascending),
            b.last(),
            key_b,
            ascending,
            related,
        );
    }
}

/// Whether the value with key `a` may stand in front of the one with key
/// `b`.
fn keys_in_order(a: &Vec<char>, b: &Vec<char>, ascending: bool) -> (ok: bool)
    ensures
        ok == in_order(a@, b@, ascending),
{
    if ascending {
        chars_le(a, b)
    } else {
        chars_le(b, a)
    }
}

/// Sorts `items` by key, in place and stably.
pub fn sort_stable<T: SortKey>(items: &mut Vec<T>, ascending: bool)
    ensures
        final(items).deep_view() == stable_sort(old(items).deep_view(), key_fn::<T>(), ascending),
{
    let ghost start = items.deep_view();
    let ghost key = key_fn::<T>();
    let n = items.len();
    let mut i: usize = 0;
    assert(start.take(0) =~= Seq::empty());
    assert(items.deep_view().skip(0) =~= start.skip(0));
    while i < n
        invariant
            i <= n,
            n == items.len(),
            start.len() == n,
            key == key_fn::<T>(),
            items.deep_view().take(i as int) == stable_sort(start.take(i as int), key, ascending),
            items.deep_view().skip(i as int) == start.skip(i as int),
        decreases n - i,
    {
        let ghost before = items.deep_view();
        let ghost sorted = before.take(i as int);
        let ghost moved = before[i as int];
        let moved_key = items[i].sort_key();
        let mut at: usize = i;
        while at > 0 && !keys_in_order(&items[at - 1].sort_key(), &moved_key, ascending)
            invariant
                at <= i < n,
                n == items.len(),
                before == items.deep_view(),
                sorted == before.take(i as int),
                key == key_fn::<T>(),
                moved_key@ == key(before[i as int]),
                forall|p: int|
                    at <= p < i ==> !in_order(key(#[trigger] sorted[p]), moved_key@, ascending),
            decreases at,
        {
            at -= 1;
        }
        if at < i {
            let item = items.remove(i);
            items.insert(at, item);
        }
        proof {
            let after = items.deep_view();
            assert(moved == start[i as int]) by {
                assert(before.skip(i as int)[0] == start.skip(i as int)[0]);
            }
            assert(after =~= sorted.take(at as int).push(moved) + sorted.skip(at as int)
                + before.skip(i + 1));
            if at > 0 {
                assert(sorted[at - 1] == before[at - 1]);
            }
            lemma_insert_position(sorted, moved, key, ascending, at as int);
            assert(after.take(i + 1) =~= insert_ordered(sorted, moved, key, ascending));
            assert(start.take(i + 1).drop_last() =~= start.take(i as int));
            assert(start.take(i + 1).last() == moved);
            assert(after.skip(i + 1) =~= start.skip(i + 1)) by {
                assert forall|p: int| 0 <= p < n - i - 1 implies #[trigger] after.skip(i + 1)[p]
                    == start.skip(i + 1)[p] by {
                    assert(before.skip(i as int)[p + 1] == start.skip(i as int)[p + 1]);
                }
            }
        }
        i += 1;
    }
    proof {
        assert(items.deep_view().take(n as int) =~= items.deep_view());
        assert(start.take(n as int) =~= start);
    }
}

} // verus!
