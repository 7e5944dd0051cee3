//! Putting things in the order of a number that each of them has, without
//! changing the order of things with the same number.

use vstd::prelude::*;

verus! {

/// Whether no item of `items` has a greater key than one behind it.
pub open spec fn is_ordered<T>(items: Seq<T>, key: spec_fn(T) -> int) -> bool {
    forall|i: int, j: int|
        0 <= i < j < items.len() ==> key(#[trigger] items[i]) <= key(#[trigger] items[j])
}

/// Where an item with the key `at` goes into `sorted`: behind the last item
/// whose key is no greater.
pub open spec fn insert_position<T>(sorted: Seq<T>, key: spec_fn(T) -> int, at: int) -> int
    decreases sorted.len(),
{
    if sorted.len() == 0 {
        0
    } else if key(sorted.last()) <= at {
        sorted.len() as int
    } else {
        insert_position(sorted.drop_last(), key, at)
    }
}

/// `items` in the order of their keys, the least first; items with one key
/// stay in the order in which they stand in `items`.
pub open spec fn by_key<T>(items: Seq<T>, key: spec_fn(T) -> int) -> Seq<T>
    decreases items.len(),
{
    if items.len() == 0 {
        items
    } else {
        let sorted = by_key(items.drop_last(), key);
        sorted.insert(insert_position(sorted, key, key(items.last())), items.last())
    }
}

/// Where the item that stands at `i` in `items` stands in
/// `by_key(items, key)`.
pub open spec fn place<T>(items: Seq<T>, key: spec_fn(T) -> int, i: int) -> int
    decreases items.len(),
{
    if items.len() == 0 {
        0
    } else {
        let sorted = by_key(items.drop_last(), key);
        let at = insert_position(sorted, key, key(items.last()));
        if i == items.len() - 1 {
            at
        } else {
            let before = place(items.drop_last(), key, i);
            if before < at {
                before
            } else {
                before + 1
            }
        }
    }
}

/// In an ordered sequence the items before the insert position of a key
/// have keys no greater than it, and those from the position on have
/// greater keys.
pub proof fn lemma_insert_position<T>(sorted: Seq<T>, key: spec_fn(T) -> int, at: int)
    requires
        is_ordered(sorted, key),
    ensures
        0 <= insert_position(sorted, key, at) <= sorted.len(),
        forall|k: int| 0 <= k < insert_position(sorted, key, at) ==> key(#[trigger] sorted[k]) <= at,
        forall|k: int|
            insert_position(sorted, key, at) <= k < sorted.len() ==> key(#[trigger] sorted[k]) > at,
    decreases sorted.len(),
{
    if sorted.len() > 0 && key(sorted.last()) > at {
        let rest = sorted.drop_last();
        assert forall|i: int, j: int| 0 <= i < j < rest.len() implies key(#[trigger] rest[i])
            <= key(#[trigger] rest[j]) by {
            assert(rest[i] == sorted[i] && rest[j] == sorted[j]);
        }
        lemma_insert_position(rest, key, at);
        let position = insert_position(sorted, key, at);
        assert forall|k: int| 0 <= k < position implies key(#[trigger] sorted[k]) <= at by {
            assert(sorted[k] == rest[k]);
        }
        assert forall|k: int| position <= k < sorted.len() implies key(#[trigger] sorted[k])
            > at by {
            if k < rest.len() {
                assert(sorted[k] == rest[k]);
            }
        }
    } else if sorted.len() > 0 {
        assert forall|k: int| 0 <= k < sorted.len() implies key(#[trigger] sorted[k]) <= at by {
            if k < sorted.len() - 1 {
                assert(key(sorted[k]) <= key(sorted[sorted.len() - 1]));
            }
        }
    }
}

/// `by_key` puts items in the order of their keys and changes nothing else:
/// it holds the same items, no item has a greater key than one behind it,
/// and of two items the one with the lesser key comes first, and where the
/// keys are the same, the one that came first in `items`.
pub proof fn lemma_by_key<T>(items: Seq<T>, key: spec_fn(T) -> int)
    ensures
        by_key(items, key).len() == items.len(),
        is_ordered(by_key(items, key), key),
        forall|i: int|
            0 <= i < items.len() ==> 0 <= #[trigger] place(items, key, i) < items.len() && by_key(
                items,
                key,
            )[place(items, key, i)] == items[i],
        forall|p: int| 0 <= p < items.len() ==> items.contains(#[trigger] by_key(items, key)[p]),
        forall|i: int, j: int|
            0 <= i < items.len() && 0 <= j < items.len() && i != j ==> (#[trigger] place(
                items,
                key,
                i,
            ) < #[trigger] place(items, key, j) <==> key(items[i]) < key(items[j]) || (key(
                items[i],
            ) == key(items[j]) && i < j)),
    decreases items.len(),
{
    if items.len() > 0 {
        let rest = items.drop_last();
        let last = items.last();
        let sorted = by_key(rest, key);
        let at = insert_position(sorted, key, key(last));
        let all = by_key(items, key);
        lemma_by_key(rest, key);
        lemma_insert_position(sorted, key, key(last));
        assert(all == sorted.insert(at, last));
        assert forall|i: int, j: int| 0 <= i < j < all.len() implies key(#[trigger] all[i]) <= key(
            #[trigger] all[j],
        ) by {
            if i < at && j > at {
                assert(all[i] == sorted[i] && all[j] == sorted[j - 1]);
            } else if i < at && j < at {
                assert(all[i] == sorted[i] && all[j] == sorted[j]);
            } else if i > at {
                assert(all[i] == sorted[i - 1] && all[j] == sorted[j - 1]);
            } else if i == at {
                assert(all[j] == sorted[j - 1]);
            } else {
                assert(all[i] == sorted[i]);
            }
        }
        assert forall|i: int| 0 <= i < items.len() implies 0 <= #[trigger] place(items, key, i)
            < items.len() && all[place(items, key, i)] == items[i] by {
            if i < items.len() - 1 {
                assert(rest[i] == items[i]);
                assert(sorted[place(rest, key, i)] == rest[i]);
            }
        }
        assert forall|p: int| 0 <= p < items.len() implies items.contains(#[trigger] all[p]) by {
            if p == at {
                assert(items[items.len() - 1] == all[p]);
            } else {
                let q = if p < at {
                    p
                } else {
                    p - 1
                };
                assert(all[p] == sorted[q]);
                assert(rest.contains(sorted[q]));
                let i = choose|i: int| 0 <= i < rest.len() && rest[i] == sorted[q];
                assert(items[i] == all[p]);
            }
        }
        assert forall|i: int, j: int|
            0 <= i < items.len() && 0 <= j < items.len() && i != j implies (#[trigger] place(
            items,
            key,
            i,
        ) < #[trigger] place(items, key, j) <==> key(items[i]) < key(items[j]) || (key(items[i])
            == key(items[j]) && i < j)) by {
            let n = items.len() - 1;
            if i < n && j < n {
                assert(rest[i] == items[i] && rest[j] == items[j]);
                assert(place(rest, key, i) < place(rest, key, j) <==> key(rest[i]) < key(rest[j])
                    || (key(rest[i]) == key(rest[j]) && i < j));
            } else if i < n {
                assert(rest[i] == items[i]);
                assert(sorted[place(rest, key, i)] == rest[i]);
            } else {
                assert(rest[j] == items[j]);
                assert(sorted[place(rest, key, j)] == rest[j]);
            }
        }
    }
}

} // verus!
