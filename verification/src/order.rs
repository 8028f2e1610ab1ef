//! Sorting by a list of numbers, with items of the same key left in the order in which they came.

use vstd::prelude::*;
use vstd::seq_lib::{to_multiset_build, to_multiset_contains, to_multiset_insert};
use vstd::set_lib::{lemma_int_range, lemma_subset_equality, set_int_range};

verus! {

/// What items are sorted by: the first number, where that is the same the second, and so on.
pub type Key = (u32, u32, usize, u8);

/// Whether `a` is the smaller key.
pub open spec fn key_below(a: Key, b: Key) -> bool {
    a.0 < b.0 || (a.0 == b.0 && (a.1 < b.1 || (a.1 == b.1 && (a.2 < b.2 || (a.2 == b.2 && a.3
        < b.3)))))
}

/// Whether the item at `i` is sorted before the item at `j`.
pub open spec fn sorted_before(keys: Seq<Key>, i: int, j: int) -> bool {
    key_below(keys[i], keys[j]) || (keys[i] == keys[j] && i < j)
}

/// `order` lists all positions of `keys`, each sorted before the next.
pub open spec fn is_stable_order(keys: Seq<Key>, order: Seq<int>) -> bool {
    &&& order.len() == keys.len()
    &&& forall|i: int| 0 <= i < order.len() ==> 0 <= #[trigger] order[i] < keys.len()
    &&& forall|i: int, j: int|
        0 <= i < j < order.len() ==> sorted_before(keys, #[trigger] order[i], #[trigger] order[j])
}

/// The positions of `keys` in sorted order.
pub open spec fn stable_order(keys: Seq<Key>) -> Seq<int> {
    choose|order: Seq<int>| is_stable_order(keys, order)
}

/// The items at the given positions.
pub open spec fn reordered<T>(items: Seq<T>, order: Seq<int>) -> Seq<T> {
    Seq::new(order.len(), |i: int| items[order[i]])
}

/// The items sorted by their keys, items of the same key in the order in which they came.
pub open spec fn stable_sorted<T>(items: Seq<T>, key: spec_fn(T) -> Key) -> Seq<T> {
    reordered(items, stable_order(items.map_values(key)))
}

/// The mathematical integers of a list of positions.
pub open spec fn positions(order: Seq<usize>) -> Seq<int> {
    order.map_values(|i: usize| i as int)
}

/// Whether the item at `i` is sorted before the item at `j`.
fn sorts_before(keys: &Vec<Key>, i: usize, j: usize) -> (before: bool)
    requires
        i < keys.len(),
        j < keys.len(),
    ensures
        before == sorted_before(keys@, i as int, j as int),
{
    let a: Key = keys[i];
    let b: Key = keys[j];
    if a.0 != b.0 {
        a.0 < b.0
    } else if a.1 != b.1 {
        a.1 < b.1
    } else if a.2 != b.2 {
        a.2 < b.2
    } else if a.3 != b.3 {
        a.3 < b.3
    } else {
        i < j
    }
}

/// `order` is strictly sorted.
spec fn is_sorted_run(keys: Seq<Key>, order: Seq<usize>) -> bool {
    forall|i: int, j: int|
        0 <= i < j < order.len() ==> sorted_before(
            keys,
            (#[trigger] order[i]) as int,
            (#[trigger] order[j]) as int,
        )
}

/// `order` lists positions from `from` to `to` only.
spec fn is_within(order: Seq<usize>, from: int, to: int) -> bool {
    forall|i: int| 0 <= i < order.len() ==> from <= #[trigger] order[i] < to
}

/// Merges two sorted runs over neighbouring ranges.
fn merge_runs(
    keys: &Vec<Key>,
    left: &Vec<usize>,
    right: &Vec<usize>,
    from: usize,
    mid: usize,
    to: usize,
) -> (merged: Vec<usize>)
    requires
        from <= mid <= to <= keys.len(),
        is_sorted_run(keys@, left@),
        is_sorted_run(keys@, right@),
        is_within(left@, from as int, mid as int),
        is_within(right@, mid as int, to as int),
    ensures
        is_sorted_run(keys@, merged@),
        is_within(merged@, from as int, to as int),
        merged@.len() == left@.len() + right@.len(),
{
    let mut merged: Vec<usize> = Vec::new();
    let mut l: usize = 0;
    let mut r: usize = 0;
    while l < left.len() || r < right.len()
        invariant
            from <= mid <= to <= keys.len(),
            is_sorted_run(keys@, left@),
            is_sorted_run(keys@, right@),
            is_within(left@, from as int, mid as int),
            is_within(right@, mid as int, to as int),
            l <= left.len(),
            r <= right.len(),
            merged@.len() == l + r,
            is_sorted_run(keys@, merged@),
            is_within(merged@, from as int, to as int),
            forall|i: int, k: int|
                0 <= i < merged@.len() && l <= k < left@.len() ==> sorted_before(
                    keys@,
                    (#[trigger] merged@[i]) as int,
                    (#[trigger] left@[k]) as int,
                ),
            forall|i: int, k: int|
                0 <= i < merged@.len() && r <= k < right@.len() ==> sorted_before(
                    keys@,
                    (#[trigger] merged@[i]) as int,
                    (#[trigger] right@[k]) as int,
                ),
        decreases (left.len() - l) + (right.len() - r),
    {
        let take_left: bool = if r == right.len() {
            true
        } else if l == left.len() {
            false
        } else {
            sorts_before(keys, left[l], right[r])
        };
        if take_left {
            merged.push(left[l]);
            l = l + 1;
        } else {
            merged.push(right[r]);
            r = r + 1;
        }
    }
    merged
}

/// Sorts the positions from `from` to `to`.
fn sort_range(keys: &Vec<Key>, from: usize, to: usize) -> (order: Vec<usize>)
    requires
        from <= to <= keys.len(),
    ensures
        is_sorted_run(keys@, order@),
        is_within(order@, from as int, to as int),
        order@.len() == to - from,
    decreases to - from,
{
    if to - from >= 2 {
        let mid: usize = from + (to - from) / 2;
        let left: Vec<usize> = sort_range(keys, from, mid);
        let right: Vec<usize> = sort_range(keys, mid, to);
        merge_runs(keys, &left, &right, from, mid, to)
    } else {
        let mut order: Vec<usize> = Vec::new();
        if from < to {
            order.push(from);
        }
        order
    }
}

/// Sorts all positions of `keys`.
pub fn order_of(keys: &Vec<Key>) -> (order: Vec<usize>)
    ensures
        positions(order@) == stable_order(keys@),
        is_stable_order(keys@, positions(order@)),
        order@.len() == keys@.len(),
        forall|i: int| 0 <= i < order@.len() ==> (#[trigger] order@[i]) < keys@.len(),
{
    let order: Vec<usize> = sort_range(keys, 0, keys.len());
    proof {
        assert(is_stable_order(keys@, positions(order@)));
        lemma_stable_order_is_unique(keys@, positions(order@), stable_order(keys@));
    }
    order
}

/// Sorts items by the keys given for them.
pub fn sort_by_keys<T: Copy>(items: &Vec<T>, keys: &Vec<Key>) -> (sorted: Vec<T>)
    requires
        items.len() == keys.len(),
    ensures
        sorted@ == reordered(items@, stable_order(keys@)),
{
    let order: Vec<usize> = order_of(keys);
    let mut sorted: Vec<T> = Vec::new();
    let mut i: usize = 0;
    while i < order.len()
        invariant
            i <= order.len(),
            forall|k: int| 0 <= k < order@.len() ==> (#[trigger] order@[k]) < items.len(),
            sorted@.len() == i,
            forall|k: int| 0 <= k < i ==> #[trigger] sorted@[k] == items@[order@[k] as int],
        decreases order.len() - i,
    {
        sorted.push(items[order[i]]);
        i = i + 1;
    }
    assert(sorted@ =~= reordered(items@, positions(order@)));
    sorted
}

/// A stable order lists every position.
proof fn lemma_stable_order_is_onto(keys: Seq<Key>, order: Seq<int>, position: int)
    requires
        is_stable_order(keys, order),
        0 <= position < keys.len(),
    ensures
        order.contains(position),
{
    let n = keys.len() as int;
    let all = set_int_range(0, n);
    lemma_int_range(0, n);
    assert forall|i: int, j: int| 0 <= i < j < order.len() implies order[i] != order[j] by {
        assert(sorted_before(keys, order[i], order[j]));
    }
    assert(order.no_duplicates());
    order.unique_seq_to_set();
    assert forall|x: int| order.to_set().contains(x) implies all.contains(x) by {
        let i = choose|i: int| 0 <= i < order.len() && order[i] == x;
        assert(0 <= order[i] < keys.len());
    }
    lemma_subset_equality(order.to_set(), all);
    assert(order.to_set().contains(position));
}

/// There is only one stable order.
proof fn lemma_stable_order_is_unique(keys: Seq<Key>, a: Seq<int>, b: Seq<int>)
    requires
        is_stable_order(keys, a),
        is_stable_order(keys, b),
    ensures
        a == b,
{
    assert forall|i: int| 0 <= i < a.len() implies a[i] == b[i] by {
        lemma_stable_orders_agree(keys, a, b, i);
    }
    assert(a =~= b);
}

/// Two stable orders agree up to any position.
proof fn lemma_stable_orders_agree(keys: Seq<Key>, a: Seq<int>, b: Seq<int>, i: int)
    requires
        is_stable_order(keys, a),
        is_stable_order(keys, b),
        0 <= i < a.len(),
    ensures
        a[i] == b[i],
    decreases i,
{
    assert forall|k: int| 0 <= k < i implies a[k] == b[k] by {
        lemma_stable_orders_agree(keys, a, b, k);
    }
    if a[i] != b[i] {
        lemma_stable_order_is_onto(keys, b, a[i]);
        lemma_stable_order_is_onto(keys, a, b[i]);
        let in_b = choose|k: int| 0 <= k < b.len() && b[k] == a[i];
        let in_a = choose|k: int| 0 <= k < a.len() && a[k] == b[i];
        if in_b < i {
            assert(sorted_before(keys, a[in_b], a[i]));
        }
        if in_a < i {
            assert(sorted_before(keys, b[in_a], b[i]));
        }
        assert(sorted_before(keys, b[i], b[in_b]));
        assert(sorted_before(keys, a[i], a[in_a]));
    }
}

/// Where the item at `last` goes into the first `upto` positions of a sorted order: behind all
/// whose key is not larger.
proof fn split_at(keys: Seq<Key>, order: Seq<int>, last: int, upto: int) -> (split: int)
    requires
        0 <= upto <= order.len(),
        forall|i: int, j: int|
            0 <= i < j < order.len() ==> sorted_before(
                keys,
                #[trigger] order[i],
                #[trigger] order[j],
            ),
    ensures
        0 <= split <= upto,
        forall|i: int| 0 <= i < split ==> !key_below(keys[last], keys[#[trigger] order[i]]),
        forall|i: int| split <= i < upto ==> key_below(keys[last], keys[#[trigger] order[i]]),
    decreases upto,
{
    if upto == 0 {
        0
    } else if key_below(keys[last], keys[order[upto - 1]]) {
        split_at(keys, order, last, upto - 1)
    } else {
        assert forall|i: int| 0 <= i < upto implies !key_below(
            keys[last],
            keys[#[trigger] order[i]],
        ) by {
            if i < upto - 1 {
                assert(sorted_before(keys, order[i], order[upto - 1]));
            }
        }
        upto
    }
}

/// Every sequence of keys has a stable order.
proof fn lemma_stable_order_exists(keys: Seq<Key>)
    ensures
        is_stable_order(keys, stable_order(keys)),
    decreases keys.len(),
{
    if keys.len() == 0 {
        assert(is_stable_order(keys, Seq::<int>::empty()));
    } else {
        let shorter = keys.drop_last();
        let last = keys.len() - 1;
        lemma_stable_order_exists(shorter);
        let before = stable_order(shorter);
        assert forall|i: int, j: int| 0 <= i < j < before.len() implies sorted_before(
            keys,
            #[trigger] before[i],
            #[trigger] before[j],
        ) by {
            assert(sorted_before(shorter, before[i], before[j]));
        }
        let split = split_at(keys, before, last, before.len() as int);
        let order = before.insert(split, last);
        assert forall|i: int| 0 <= i < order.len() implies 0 <= #[trigger] order[i]
            < keys.len() by {
            if i < split {
                assert(order[i] == before[i]);
            } else if i > split {
                assert(order[i] == before[i - 1]);
            }
        }
        assert forall|i: int, j: int| 0 <= i < j < order.len() implies sorted_before(
            keys,
            #[trigger] order[i],
            #[trigger] order[j],
        ) by {
            let a = if i < split {
                before[i]
            } else {
                before[i - 1]
            };
            let b = if j < split {
                before[j]
            } else {
                before[j - 1]
            };
            if i != split {
                assert(order[i] == a);
            }
            if j != split {
                assert(order[j] == b);
            }
            if i != split && j != split {
                assert(sorted_before(keys, a, b));
            }
        }
        assert(is_stable_order(keys, order));
    }
}

/// Every sequence of keys has a stable order, and only one.
pub proof fn law_there_is_one_stable_order(keys: Seq<Key>, order: Seq<int>)
    ensures
        is_stable_order(keys, order) <==> order == stable_order(keys),
{
    lemma_stable_order_exists(keys);
    if is_stable_order(keys, order) {
        lemma_stable_order_is_unique(keys, order, stable_order(keys));
    }
}

/// Taking the last item away takes its position out of the stable order and leaves the rest.
proof fn lemma_without_last(keys: Seq<Key>) -> (place: int)
    requires
        keys.len() > 0,
    ensures
        0 <= place < keys.len(),
        stable_order(keys).len() == keys.len(),
        stable_order(keys)[place] == keys.len() - 1,
        stable_order(keys.drop_last()) == stable_order(keys).remove(place),
        forall|i: int|
            place < i < keys.len() ==> key_below(
                keys.last(),
                keys[#[trigger] stable_order(keys)[i]],
            ),
        forall|i: int| 0 <= i < keys.len() ==> 0 <= #[trigger] stable_order(keys)[i] < keys.len(),
{
    let last = keys.len() - 1;
    let shorter = keys.drop_last();
    lemma_stable_order_exists(keys);
    lemma_stable_order_exists(shorter);
    let order = stable_order(keys);
    lemma_stable_order_is_onto(keys, order, last);
    let place = choose|i: int| 0 <= i < order.len() && order[i] == last;
    let rest = order.remove(place);
    assert forall|i: int| 0 <= i < rest.len() implies 0 <= #[trigger] rest[i] < shorter.len() by {
        let k = if i < place {
            i
        } else {
            i + 1
        };
        assert(rest[i] == order[k]);
        if k < place {
            assert(sorted_before(keys, order[k], order[place]));
        } else {
            assert(sorted_before(keys, order[place], order[k]));
        }
    }
    assert forall|i: int, j: int| 0 <= i < j < rest.len() implies sorted_before(
        shorter,
        #[trigger] rest[i],
        #[trigger] rest[j],
    ) by {
        let a = if i < place {
            i
        } else {
            i + 1
        };
        let b = if j < place {
            j
        } else {
            j + 1
        };
        assert(rest[i] == order[a]);
        assert(rest[j] == order[b]);
        assert(sorted_before(keys, order[a], order[b]));
    }
    lemma_stable_order_is_unique(shorter, rest, stable_order(shorter));
    assert forall|i: int| place < i < keys.len() implies key_below(
        keys.last(),
        keys[#[trigger] order[i]],
    ) by {
        assert(sorted_before(keys, order[place], order[i]));
    }
    place
}

/// Taking the last item away takes it out of the sorted items and leaves the rest. Whatever is
/// sorted behind it has a larger key.
proof fn lemma_sorted_without_last<T>(items: Seq<T>, key: spec_fn(T) -> Key) -> (place: int)
    requires
        items.len() > 0,
    ensures
        0 <= place < items.len(),
        stable_sorted(items, key).len() == items.len(),
        stable_sorted(items, key)[place] == items.last(),
        stable_sorted(items.drop_last(), key) == stable_sorted(items, key).remove(place),
        forall|i: int|
            place < i < items.len() ==> key_below(
                key(items.last()),
                key(#[trigger] stable_sorted(items, key)[i]),
            ),
{
    let keys = items.map_values(key);
    let shorter = items.drop_last();
    assert(shorter.map_values(key) =~= keys.drop_last());
    let place = lemma_without_last(keys);
    let order = stable_order(keys);
    let sorted = stable_sorted(items, key);
    let rest = order.remove(place);
    assert forall|i: int| 0 <= i < rest.len() implies 0 <= #[trigger] rest[i] < shorter.len() by {
        lemma_stable_order_exists(keys.drop_last());
        assert(rest == stable_order(keys.drop_last()));
    }
    assert forall|i: int| 0 <= i < rest.len() implies stable_sorted(shorter, key)[i]
        == sorted.remove(place)[i] by {
        assert(0 <= rest[i] < shorter.len());
        if i < place {
            assert(rest[i] == order[i]);
            assert(sorted.remove(place)[i] == sorted[i]);
        } else {
            assert(rest[i] == order[i + 1]);
            assert(sorted.remove(place)[i] == sorted[i + 1]);
        }
    }
    assert(stable_sorted(shorter, key) =~= sorted.remove(place));
    assert forall|i: int| place < i < items.len() implies key_below(
        key(items.last()),
        key(#[trigger] sorted[i]),
    ) by {
        assert(0 <= order[i] < keys.len());
        assert(keys[order[i]] == key(items[order[i]]));
    }
    place
}

/// Sorting neither adds nor drops nor duplicates items.
pub proof fn law_sorting_keeps_the_items<T>(items: Seq<T>, key: spec_fn(T) -> Key)
    ensures
        stable_sorted(items, key).to_multiset() == items.to_multiset(),
        stable_sorted(items, key).len() == items.len(),
    decreases items.len(),
{
    lemma_stable_order_exists(items.map_values(key));
    if items.len() == 0 {
        assert(stable_sorted(items, key) =~= items);
    } else {
        let sorted = stable_sorted(items, key);
        let shorter = items.drop_last();
        let place = lemma_sorted_without_last(items, key);
        law_sorting_keeps_the_items(shorter, key);
        let rest = sorted.remove(place);
        assert(sorted =~= rest.insert(place, items.last()));
        assert(items =~= shorter.push(items.last()));
        to_multiset_insert(rest, place, items.last());
        to_multiset_build(shorter, items.last());
    }
}

/// Sorted items come in the order of their keys.
pub proof fn law_sorted_by_key<T>(items: Seq<T>, key: spec_fn(T) -> Key, i: int, j: int)
    requires
        0 <= i < j < items.len(),
    ensures
        stable_sorted(items, key).len() == items.len(),
        !key_below(key(stable_sorted(items, key)[j]), key(stable_sorted(items, key)[i])),
{
    let keys = items.map_values(key);
    lemma_stable_order_exists(keys);
    let order = stable_order(keys);
    assert(sorted_before(keys, order[i], order[j]));
    assert(0 <= order[i] < keys.len());
    assert(0 <= order[j] < keys.len());
}

/// A filter that nothing passes leaves nothing.
proof fn lemma_filter_to_nothing<T>(items: Seq<T>, pred: spec_fn(T) -> bool)
    requires
        forall|i: int| 0 <= i < items.len() ==> !pred(#[trigger] items[i]),
    ensures
        items.filter(pred) == Seq::<T>::empty(),
    decreases items.len(),
{
    reveal(Seq::filter);
    if items.len() > 0 {
        let shorter = items.drop_last();
        assert forall|i: int| 0 <= i < shorter.len() implies !pred(#[trigger] shorter[i]) by {
            assert(shorter[i] == items[i]);
        }
        lemma_filter_to_nothing(shorter, pred);
        assert(!pred(items[items.len() - 1]));
    }
    assert(items.filter(pred) =~= Seq::<T>::empty());
}

/// Whether an item has the given key.
pub open spec fn has_key<T>(key: spec_fn(T) -> Key, wanted: Key) -> spec_fn(T) -> bool {
    |item: T| key(item) == wanted
}

/// The items that have the given key.
pub open spec fn with_key<T>(items: Seq<T>, key: spec_fn(T) -> Key, wanted: Key) -> Seq<T> {
    items.filter(has_key(key, wanted))
}

/// Items of the same key come out in the order in which they went in.
pub proof fn law_sorting_is_stable<T>(items: Seq<T>, key: spec_fn(T) -> Key, wanted: Key)
    ensures
        with_key(stable_sorted(items, key), key, wanted) == with_key(items, key, wanted),
    decreases items.len(),
{
    let pred = has_key(key, wanted);
    lemma_stable_order_exists(items.map_values(key));
    if items.len() == 0 {
        assert(stable_sorted(items, key) =~= items);
    } else {
        let sorted = stable_sorted(items, key);
        let shorter = items.drop_last();
        let last = items.last();
        let place = lemma_sorted_without_last(items, key);
        law_sorting_is_stable(shorter, key, wanted);
        let head = sorted.take(place);
        let tail = sorted.skip(place + 1);
        assert(sorted =~= head + seq![last] + tail);
        assert(sorted.remove(place) =~= head + tail);
        assert(items =~= shorter + seq![last]);
        Seq::filter_distributes_over_add(head + seq![last], tail, pred);
        Seq::filter_distributes_over_add(head, seq![last], pred);
        Seq::filter_distributes_over_add(head, tail, pred);
        Seq::filter_distributes_over_add(shorter, seq![last], pred);
        if pred(last) {
            assert forall|i: int| 0 <= i < tail.len() implies !pred(#[trigger] tail[i]) by {
                assert(tail[i] == sorted[place + 1 + i]);
            }
            lemma_filter_to_nothing(tail, pred);
            assert(sorted.filter(pred) =~= items.filter(pred));
        } else {
            assert forall|i: int| 0 <= i < seq![last].len() implies !pred(
                #[trigger] seq![last][i],
            ) by {}
            lemma_filter_to_nothing(seq![last], pred);
            assert(sorted.filter(pred) =~= items.filter(pred));
        }
    }
}

/// Two sequences sorted by key that hold the same items of every key are the same.
proof fn lemma_sorted_by_its_runs<T>(a: Seq<T>, b: Seq<T>, key: spec_fn(T) -> Key)
    requires
        forall|i: int, j: int|
            0 <= i < j < a.len() ==> !key_below(key(#[trigger] a[j]), key(#[trigger] a[i])),
        forall|i: int, j: int|
            0 <= i < j < b.len() ==> !key_below(key(#[trigger] b[j]), key(#[trigger] b[i])),
        forall|wanted: Key| #[trigger] with_key(a, key, wanted) == with_key(b, key, wanted),
    ensures
        a == b,
    decreases a.len(),
{
    reveal(Seq::filter);
    if a.len() == 0 {
        if b.len() > 0 {
            assert(with_key(a, key, key(b.last())).len() == 0);
            assert(with_key(b, key, key(b.last())).len() > 0);
        }
        assert(a =~= b);
    } else {
        let top = key(a.last());
        assert(with_key(a, key, top).last() == a.last());
        assert(with_key(a, key, top).len() > 0);
        if b.len() == 0 {
            assert(with_key(b, key, top).len() == 0);
        }
        lemma_top_key(b, key, top);
        assert(with_key(b, key, key(b.last())).len() > 0);
        lemma_top_key(a, key, key(b.last()));
        assert(key(b.last()) == top);
        assert(with_key(b, key, top).last() == b.last());
        let shorter_a = a.drop_last();
        let shorter_b = b.drop_last();
        assert forall|wanted: Key| #[trigger]
            with_key(shorter_a, key, wanted) == with_key(shorter_b, key, wanted) by {
            assert(with_key(a, key, wanted) == with_key(b, key, wanted));
            if wanted == top {
                assert(with_key(a, key, wanted).drop_last() =~= with_key(shorter_a, key, wanted));
                assert(with_key(b, key, wanted).drop_last() =~= with_key(shorter_b, key, wanted));
            }
        }
        lemma_sorted_by_its_runs(shorter_a, shorter_b, key);
        assert(a =~= shorter_a.push(a.last()));
        assert(b =~= shorter_b.push(b.last()));
    }
}

/// The last of sorted items has the largest key.
proof fn lemma_top_key<T>(items: Seq<T>, key: spec_fn(T) -> Key, present: Key)
    requires
        forall|i: int, j: int|
            0 <= i < j < items.len() ==> !key_below(
                key(#[trigger] items[j]),
                key(#[trigger] items[i]),
            ),
        with_key(items, key, present).len() > 0,
    ensures
        items.len() > 0,
        !key_below(key(items.last()), present),
{
    reveal(Seq::filter);
    if items.len() > 0 && key_below(key(items.last()), present) {
        let pred = has_key(key, present);
        assert forall|i: int| 0 <= i < items.len() implies !pred(#[trigger] items[i]) by {
            if i < items.len() - 1 {
                assert(!key_below(key(items[items.len() - 1]), key(items[i])));
            }
        }
        lemma_filter_to_nothing(items, pred);
    }
}

/// Sorting forgets the order in which items of different keys came: two sequences that hold the
/// same items of every key in the same order come out the same.
pub proof fn law_sorting_forgets_arrival<T>(a: Seq<T>, b: Seq<T>, key: spec_fn(T) -> Key)
    requires
        forall|wanted: Key| #[trigger] with_key(a, key, wanted) == with_key(b, key, wanted),
    ensures
        stable_sorted(a, key) == stable_sorted(b, key),
{
    let sorted_a = stable_sorted(a, key);
    let sorted_b = stable_sorted(b, key);
    law_sorting_keeps_the_items(a, key);
    law_sorting_keeps_the_items(b, key);
    assert forall|i: int, j: int| 0 <= i < j < sorted_a.len() implies !key_below(
        key(#[trigger] sorted_a[j]),
        key(#[trigger] sorted_a[i]),
    ) by {
        law_sorted_by_key(a, key, i, j);
    }
    assert forall|i: int, j: int| 0 <= i < j < sorted_b.len() implies !key_below(
        key(#[trigger] sorted_b[j]),
        key(#[trigger] sorted_b[i]),
    ) by {
        law_sorted_by_key(b, key, i, j);
    }
    assert forall|wanted: Key| #[trigger]
        with_key(sorted_a, key, wanted) == with_key(sorted_b, key, wanted) by {
        law_sorting_is_stable(a, key, wanted);
        law_sorting_is_stable(b, key, wanted);
        assert(with_key(a, key, wanted) == with_key(b, key, wanted));
    }
    lemma_sorted_by_its_runs(sorted_a, sorted_b, key);
}

/// Where a filter lets copies of one item through and nothing else, as many are left as there
/// were.
proof fn lemma_filter_to_copies<T>(items: Seq<T>, pred: spec_fn(T) -> bool, item: T)
    requires
        forall|i: int|
            0 <= i < items.len() ==> (pred(#[trigger] items[i]) <==> items[i] == item),
    ensures
        items.filter(pred) == Seq::new(items.to_multiset().count(item), |i: int| item),
    decreases items.len(),
{
    reveal(Seq::filter);
    if items.len() == 0 {
        to_multiset_contains(items, item);
        assert(!items.contains(item));
    } else {
        let shorter = items.drop_last();
        assert forall|i: int| 0 <= i < shorter.len() implies (pred(#[trigger] shorter[i])
            <==> shorter[i] == item) by {
            assert(shorter[i] == items[i]);
        }
        lemma_filter_to_copies(shorter, pred, item);
        assert(items =~= shorter.push(items.last()));
        to_multiset_build(shorter, items.last());
        assert(pred(items[items.len() - 1]) <==> items[items.len() - 1] == item);
    }
    assert(items.filter(pred) =~= Seq::new(items.to_multiset().count(item), |i: int| item));
}

/// Where items of the same key are the same item, they sort to the same sequence in whatever
/// order they came.
pub proof fn law_sorting_forgets_arrival_of_identified_items<T>(
    a: Seq<T>,
    b: Seq<T>,
    key: spec_fn(T) -> Key,
)
    requires
        a.to_multiset() == b.to_multiset(),
        forall|i: int, j: int|
            0 <= i < a.len() && 0 <= j < a.len() && key(#[trigger] a[i]) == key(#[trigger] a[j])
                ==> a[i] == a[j],
    ensures
        stable_sorted(a, key) == stable_sorted(b, key),
{
    assert forall|x: T| a.contains(x) == b.contains(x) by {
        to_multiset_contains(a, x);
        to_multiset_contains(b, x);
    }
    assert forall|wanted: Key| #[trigger]
        with_key(a, key, wanted) == with_key(b, key, wanted) by {
        let pred = has_key(key, wanted);
        if exists|i: int| 0 <= i < a.len() && pred(#[trigger] a[i]) {
            let i = choose|i: int| 0 <= i < a.len() && pred(#[trigger] a[i]);
            let item = a[i];
            assert forall|k: int| 0 <= k < b.len() implies (pred(#[trigger] b[k]) <==> b[k]
                == item) by {
                assert(b.contains(b[k]));
                assert(a.contains(b[k]));
                let m = choose|m: int| 0 <= m < a.len() && a[m] == b[k];
                assert(pred(a[m]) ==> a[m] == a[i]);
            }
            lemma_filter_to_copies(a, pred, item);
            lemma_filter_to_copies(b, pred, item);
        } else {
            assert forall|k: int| 0 <= k < b.len() implies !pred(#[trigger] b[k]) by {
                assert(b.contains(b[k]));
                assert(a.contains(b[k]));
                let m = choose|m: int| 0 <= m < a.len() && a[m] == b[k];
                assert(!pred(a[m]));
            }
            lemma_filter_to_nothing(a, pred);
            lemma_filter_to_nothing(b, pred);
        }
    }
    law_sorting_forgets_arrival(a, b, key);
}

/// Sorting lists every position once. The first number decides, then the second, the third and the
/// fourth, each from the smallest up, and where all are the same the earlier position.
pub proof fn law_positions_are_sorted(keys: Seq<Key>)
    ensures
        stable_order(keys).len() == keys.len(),
        forall|i: int| 0 <= i < keys.len() ==> 0 <= #[trigger] stable_order(keys)[i] < keys.len(),
        forall|i: int, j: int|
            0 <= i < j < keys.len() ==> ({
                let a = #[trigger] stable_order(keys)[i];
                let b = #[trigger] stable_order(keys)[j];
                a != b && (keys[a].0 < keys[b].0 || (keys[a].0 == keys[b].0 && (keys[a].1
                    < keys[b].1 || (keys[a].1 == keys[b].1 && (keys[a].2 < keys[b].2 || (keys[a].2
                    == keys[b].2 && (keys[a].3 < keys[b].3 || (keys[a].3 == keys[b].3 && a
                    < b))))))))
            }),
{
    lemma_stable_order_exists(keys);
    let order = stable_order(keys);
    assert forall|i: int, j: int| 0 <= i < j < keys.len() implies sorted_before(
        keys,
        #[trigger] order[i],
        #[trigger] order[j],
    ) by {}
}

/// Sorted items are the items at the sorted positions.
pub proof fn law_items_follow_their_positions<T>(
    items: Seq<T>,
    order: Seq<int>,
    key: spec_fn(T) -> Key,
    listed: Seq<usize>,
)
    ensures
        reordered(items, order).len() == order.len(),
        forall|i: int|
            0 <= i < order.len() ==> #[trigger] reordered(items, order)[i] == items[order[i]],
        stable_sorted(items, key) == reordered(items, stable_order(items.map_values(key))),
        positions(listed).len() == listed.len(),
        forall|i: int|
            0 <= i < listed.len() ==> #[trigger] positions(listed)[i] == listed[i] as int,
{
}

} // verus!
