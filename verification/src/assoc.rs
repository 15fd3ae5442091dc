//! Association lists: sequences of pairs kept in the order of their keys,
//! so that no key occurs twice and two lists that hold the same pairs are
//! the same list.

use vstd::prelude::*;
use crate::text::{
    comes_before, lemma_text_lt_transitive, lemma_text_order_total, same_text, text_lt,
};

verus! {

/// Each key comes before the keys behind it.
pub open spec fn sorted_keys<V>(pairs: Seq<(Seq<char>, V)>) -> bool {
    forall|i: int, j: int|
        #![trigger pairs[i], pairs[j]]
        0 <= i < j < pairs.len() ==> text_lt(pairs[i].0, pairs[j].0)
}

/// Whether `key` occurs at position `i`.
pub open spec fn key_at<V>(pairs: Seq<(Seq<char>, V)>, key: Seq<char>, i: int) -> bool {
    0 <= i < pairs.len() && pairs[i].0 == key
}

/// Whether `key` occurs.
pub open spec fn has_key<V>(pairs: Seq<(Seq<char>, V)>, key: Seq<char>) -> bool {
    exists|i: int| key_at(pairs, key, i)
}

/// A position of `key`; in a sorted list, its position.
pub open spec fn index_of_key<V>(pairs: Seq<(Seq<char>, V)>, key: Seq<char>) -> int {
    choose|i: int| key_at(pairs, key, i)
}

/// What stands beside `key`.
pub open spec fn value_of<V>(pairs: Seq<(Seq<char>, V)>, key: Seq<char>) -> V {
    pairs[index_of_key(pairs, key)].1
}

/// Whether `i` is the place of `key` in the order of the keys: the keys
/// before `i` come before `key`, the others do not.
pub open spec fn is_rank<V>(pairs: Seq<(Seq<char>, V)>, key: Seq<char>, i: int) -> bool {
    &&& 0 <= i <= pairs.len()
    &&& forall|j: int| 0 <= j < i ==> text_lt((#[trigger] pairs[j]).0, key)
    &&& forall|j: int| i <= j < pairs.len() ==> !text_lt((#[trigger] pairs[j]).0, key)
}

/// The place of `key` in the order of the keys.
pub open spec fn rank<V>(pairs: Seq<(Seq<char>, V)>, key: Seq<char>) -> int {
    choose|i: int| is_rank(pairs, key, i)
}

/// In a sorted list no key occurs twice.
pub proof fn lemma_sorted_distinct<V>(pairs: Seq<(Seq<char>, V)>, i: int, j: int)
    requires
        sorted_keys(pairs),
        0 <= i < pairs.len(),
        0 <= j < pairs.len(),
        i != j,
    ensures
        pairs[i].0 != pairs[j].0,
{
    if i < j {
        assert(text_lt(pairs[i].0, pairs[j].0));
    } else {
        assert(text_lt(pairs[j].0, pairs[i].0));
    }
}

/// Whether `i` is where `key` stands or would stand in the sorted list, and
/// `found` says which.
pub open spec fn is_place<V>(pairs: Seq<(Seq<char>, V)>, key: Seq<char>, i: int, found: bool) -> bool {
    &&& is_rank(pairs, key, i)
    &&& rank(pairs, key) == i
    &&& found == has_key(pairs, key)
    &&& found == key_at(pairs, key, i)
}

/// In a sorted list, a key that is seen at a position is found there.
pub proof fn lemma_key_found<V>(pairs: Seq<(Seq<char>, V)>, key: Seq<char>, i: int)
    requires
        sorted_keys(pairs),
        key_at(pairs, key, i),
    ensures
        has_key(pairs, key),
        index_of_key(pairs, key) == i,
        value_of(pairs, key) == pairs[i].1,
{
    let j = index_of_key(pairs, key);
    assert(key_at(pairs, key, j));
    if i < j {
        assert(text_lt(pairs[i].0, pairs[j].0));
    } else if j < i {
        assert(text_lt(pairs[j].0, pairs[i].0));
    }
}

/// A key has one place in the order of the keys.
pub proof fn lemma_rank_found<V>(pairs: Seq<(Seq<char>, V)>, key: Seq<char>, i: int)
    requires
        is_rank(pairs, key, i),
    ensures
        rank(pairs, key) == i,
{
    let r = rank(pairs, key);
    assert(is_rank(pairs, key, r));
    if r < i {
        assert(text_lt(pairs[r].0, key));
    } else if i < r {
        assert(text_lt(pairs[i].0, key));
    }
}

/// In a sorted list, the keys before `i` coming before `key` and the key
/// at `i` not, `i` is the place of `key`; and `key` occurs at `i` or
/// nowhere.
pub proof fn lemma_scanned<V>(pairs: Seq<(Seq<char>, V)>, key: Seq<char>, i: int)
    requires
        sorted_keys(pairs),
        0 <= i <= pairs.len(),
        forall|j: int| 0 <= j < i ==> text_lt((#[trigger] pairs[j]).0, key),
        i < pairs.len() ==> !text_lt(pairs[i].0, key),
    ensures
        is_place(pairs, key, i, key_at(pairs, key, i)),
{
    assert forall|j: int| i <= j < pairs.len() implies !text_lt((#[trigger] pairs[j]).0, key) by {
        if i < j && text_lt(pairs[j].0, key) {
            assert(text_lt(pairs[i].0, pairs[j].0));
            lemma_text_lt_transitive(pairs[i].0, pairs[j].0, key);
        }
    }
    lemma_rank_found(pairs, key, i);
    if has_key(pairs, key) {
        let k = index_of_key(pairs, key);
        assert(key_at(pairs, key, k));
        if k < i {
            assert(text_lt(pairs[k].0, key));
        } else if i < k {
            assert(text_lt(pairs[i].0, pairs[k].0));
        }
    }
}

/// In a sorted list every key has its place.
pub proof fn lemma_rank_exists<V>(pairs: Seq<(Seq<char>, V)>, key: Seq<char>, from: int) -> (i: int)
    requires
        sorted_keys(pairs),
        0 <= from <= pairs.len(),
        forall|j: int| 0 <= j < from ==> text_lt((#[trigger] pairs[j]).0, key),
    ensures
        is_place(pairs, key, i, key_at(pairs, key, i)),
    decreases pairs.len() - from,
{
    if from < pairs.len() && text_lt(pairs[from].0, key) {
        lemma_rank_exists(pairs, key, from + 1)
    } else {
        lemma_scanned(pairs, key, from);
        from
    }
}

/// The list with `value` beside `key`: in the place of what stood beside it,
/// or, where the key is new, at the place of the key in the order.
pub open spec fn put<V>(pairs: Seq<(Seq<char>, V)>, key: Seq<char>, value: V) -> Seq<(Seq<char>, V)> {
    if has_key(pairs, key) {
        pairs.update(index_of_key(pairs, key), (key, value))
    } else {
        pairs.insert(rank(pairs, key), (key, value))
    }
}

/// The list without `key` and what stood beside it.
pub open spec fn without<V>(pairs: Seq<(Seq<char>, V)>, key: Seq<char>) -> Seq<(Seq<char>, V)> {
    if has_key(pairs, key) {
        pairs.remove(index_of_key(pairs, key))
    } else {
        pairs
    }
}

/// Replacing what stands beside a key keeps the list sorted.
pub proof fn lemma_update_sorted<V>(pairs: Seq<(Seq<char>, V)>, i: int, value: V)
    requires
        sorted_keys(pairs),
        0 <= i < pairs.len(),
    ensures
        sorted_keys(pairs.update(i, (pairs[i].0, value))),
{
    let after = pairs.update(i, (pairs[i].0, value));
    assert forall|a: int, b: int|
        #![trigger after[a], after[b]]
        0 <= a < b < after.len() implies text_lt(after[a].0, after[b].0) by {
        assert(text_lt(pairs[a].0, pairs[b].0));
    }
}

/// Putting a new key at its place keeps the list sorted.
pub proof fn lemma_insert_sorted<V>(pairs: Seq<(Seq<char>, V)>, key: Seq<char>, value: V, i: int)
    requires
        sorted_keys(pairs),
        is_rank(pairs, key, i),
        !has_key(pairs, key),
    ensures
        sorted_keys(pairs.insert(i, (key, value))),
        key_at(pairs.insert(i, (key, value)), key, i),
        pairs.insert(i, (key, value)).remove(i) == pairs,
{
    let after = pairs.insert(i, (key, value));
    assert forall|a: int, b: int|
        #![trigger after[a], after[b]]
        0 <= a < b < after.len() implies text_lt(after[a].0, after[b].0) by {
        let x = if a < i { a } else { a - 1 };
        let y = if b < i { b } else { b - 1 };
        if b == i {
            assert(after[a] == pairs[a]);
            assert(text_lt(pairs[a].0, key));
        } else if a == i {
            assert(after[b] == pairs[y]);
            assert(!text_lt(pairs[y].0, key));
            assert(!key_at(pairs, key, y));
            lemma_text_order_total(pairs[y].0, key);
        } else {
            assert(after[a] == pairs[x]);
            assert(after[b] == pairs[y]);
            assert(text_lt(pairs[x].0, pairs[y].0));
        }
    }
    assert(after.remove(i) =~= pairs);
}

/// Taking a pair out keeps the list sorted, and its key is gone.
pub proof fn lemma_remove_sorted<V>(pairs: Seq<(Seq<char>, V)>, i: int)
    requires
        sorted_keys(pairs),
        0 <= i < pairs.len(),
    ensures
        sorted_keys(pairs.remove(i)),
        !has_key(pairs.remove(i), pairs[i].0),
{
    let after = pairs.remove(i);
    assert forall|a: int, b: int|
        #![trigger after[a], after[b]]
        0 <= a < b < after.len() implies text_lt(after[a].0, after[b].0) by {
        let x = if a < i { a } else { a + 1 };
        let y = if b < i { b } else { b + 1 };
        assert(text_lt(pairs[x].0, pairs[y].0));
    }
    assert forall|a: int| !key_at(after, pairs[i].0, a) by {
        if 0 <= a < after.len() {
            let x = if a < i { a } else { a + 1 };
            if x < i {
                assert(text_lt(pairs[x].0, pairs[i].0));
            } else {
                assert(text_lt(pairs[i].0, pairs[x].0));
            }
        }
    }
}

/// `put` keeps the list sorted, and the key is then found with the value.
pub proof fn lemma_put<V>(pairs: Seq<(Seq<char>, V)>, key: Seq<char>, value: V)
    requires
        sorted_keys(pairs),
    ensures
        sorted_keys(put(pairs, key, value)),
        has_key(put(pairs, key, value), key),
        value_of(put(pairs, key, value), key) == value,
{
    if has_key(pairs, key) {
        let i = index_of_key(pairs, key);
        assert(key_at(pairs, key, i));
        lemma_update_sorted(pairs, i, value);
        assert(key_at(put(pairs, key, value), key, i));
        lemma_key_found(put(pairs, key, value), key, i);
    } else {
        let i = lemma_rank_exists(pairs, key, 0);
        lemma_insert_sorted(pairs, key, value, i);
        lemma_key_found(put(pairs, key, value), key, i);
    }
}

/// `without` keeps the list sorted, and the key is gone.
pub proof fn lemma_without<V>(pairs: Seq<(Seq<char>, V)>, key: Seq<char>)
    requires
        sorted_keys(pairs),
    ensures
        sorted_keys(without(pairs, key)),
        !has_key(without(pairs, key), key),
{
    if has_key(pairs, key) {
        let i = index_of_key(pairs, key);
        assert(key_at(pairs, key, i));
        lemma_remove_sorted(pairs, i);
    }
}

/// Putting a new key and taking it out again gives the list back.
pub proof fn lemma_put_then_without<V>(pairs: Seq<(Seq<char>, V)>, key: Seq<char>, value: V)
    requires
        sorted_keys(pairs),
        !has_key(pairs, key),
    ensures
        without(put(pairs, key, value), key) == pairs,
{
    let i = lemma_rank_exists(pairs, key, 0);
    lemma_insert_sorted(pairs, key, value, i);
    lemma_key_found(put(pairs, key, value), key, i);
}

/// A key that comes behind every key of the list is put at the end.
pub proof fn lemma_put_last<V>(pairs: Seq<(Seq<char>, V)>, key: Seq<char>, value: V)
    requires
        forall|j: int| 0 <= j < pairs.len() ==> text_lt((#[trigger] pairs[j]).0, key),
    ensures
        put(pairs, key, value) == pairs.push((key, value)),
{
    assert(is_rank(pairs, key, pairs.len() as int));
    lemma_rank_found(pairs, key, pairs.len() as int);
    assert forall|j: int| !key_at(pairs, key, j) by {
        if 0 <= j < pairs.len() {
            assert(text_lt(pairs[j].0, key));
        }
    }
    assert(pairs.insert(pairs.len() as int, (key, value)) =~= pairs.push((key, value)));
}

/// Where `key` stands among the keys of `pairs`, which are in order: the
/// first position whose key does not come before `key`, and whether the key
/// there is `key`.
pub fn scan<V>(pairs: &Vec<(String, V)>, key: &str) -> (place: (usize, bool))
    ensures
        place.0 <= pairs.len(),
        forall|j: int| 0 <= j < place.0 ==> text_lt((#[trigger] pairs[j]).0@, key@),
        place.0 < pairs.len() ==> !text_lt(pairs[place.0 as int].0@, key@),
        place.1 == (place.0 < pairs.len() && pairs[place.0 as int].0@ == key@),
{
    let mut i: usize = 0;
    while i < pairs.len() && comes_before(pairs[i].0.as_str(), key)
        invariant
            i <= pairs.len(),
            forall|j: int| 0 <= j < i ==> text_lt((#[trigger] pairs[j]).0@, key@),
        decreases pairs.len() - i,
    {
        i += 1;
    }
    let found = i < pairs.len() && same_text(pairs[i].0.as_str(), key);
    (i, found)
}

} // verus!
