//! The stable descending order of a sequence of keys.
//!
//! An order is a sequence of positions: `order[k]` is the position, in the
//! sequence of keys, of the item that comes out at place `k`. Larger keys come
//! first; among equal keys the earlier position comes first.

use vstd::prelude::*;

verus! {

/// Position `i` comes out before position `j`: its key is larger, or the keys
/// are equal and `i` is the earlier one.
pub open spec fn precedes(keys: Seq<nat>, i: int, j: int) -> bool {
    keys[i] > keys[j] || (keys[i] == keys[j] && i < j)
}

/// `order` lists positions of `keys`, one for each key, every one before all
/// that follow it in the sense of `precedes`.
pub open spec fn is_stable_desc_order(keys: Seq<nat>, order: Seq<int>) -> bool {
    &&& order.len() == keys.len()
    &&& forall|k: int| 0 <= k < order.len() ==> 0 <= #[trigger] order[k] < keys.len()
    &&& forall|a: int, b: int|
        0 <= a < b < order.len() ==> precedes(keys, #[trigger] order[a], #[trigger] order[b])
}

/// `order` with position `e` put in behind the last entry that precedes it.
pub open spec fn place(keys: Seq<nat>, order: Seq<int>, e: int) -> Seq<int>
    decreases order.len(),
{
    if order.len() == 0 {
        seq![e]
    } else if precedes(keys, order.last(), e) {
        order.push(e)
    } else {
        place(keys, order.drop_last(), e).push(order.last())
    }
}

/// The stable descending order of `keys`, built one key at a time.
pub open spec fn order_desc(keys: Seq<nat>) -> Seq<int>
    decreases keys.len(),
{
    if keys.len() == 0 {
        Seq::empty()
    } else {
        place(keys, order_desc(keys.drop_last()), keys.len() - 1)
    }
}

/// `items` taken in the given order.
pub open spec fn arranged<T>(items: Seq<T>, order: Seq<int>) -> Seq<T> {
    Seq::new(order.len(), |k: int| items[order[k]])
}

/// `items` in the stable descending order of `keys`, where `keys[i]` is the
/// key of `items[i]`.
pub open spec fn sorted_desc<T>(items: Seq<T>, keys: Seq<nat>) -> Seq<T> {
    arranged(items, order_desc(keys))
}

/// The keys of a vector of machine integers, as natural numbers.
pub open spec fn key_seq(keys: Seq<u64>) -> Seq<nat> {
    Seq::new(keys.len(), |i: int| keys[i] as nat)
}

/// The positions held by a vector of machine integers.
pub open spec fn position_seq(order: Seq<usize>) -> Seq<int> {
    Seq::new(order.len(), |k: int| order[k] as int)
}

/// `order` is strictly increasing in the sense of `precedes`, and every entry
/// lies in `lo..hi`.
pub open spec fn is_run(keys: Seq<nat>, order: Seq<int>, lo: int, hi: int) -> bool {
    &&& forall|k: int| 0 <= k < order.len() ==> lo <= #[trigger] order[k] < hi
    &&& forall|a: int, b: int|
        0 <= a < b < order.len() ==> precedes(keys, #[trigger] order[a], #[trigger] order[b])
}

proof fn lemma_place(keys: Seq<nat>, order: Seq<int>, e: int, hi: int)
    requires
        0 <= hi <= e < keys.len(),
        is_run(keys, order, 0, hi),
    ensures
        is_run(keys, place(keys, order, e), 0, e + 1),
        place(keys, order, e).len() == order.len() + 1,
        forall|x: int| #[trigger]
            place(keys, order, e).contains(x) <==> (x == e || order.contains(x)),
    decreases order.len(),
{
    let out = place(keys, order, e);
    if order.len() == 0 {
        assert(out[0] == e);
    } else if precedes(keys, order.last(), e) {
        assert forall|a: int, b: int| 0 <= a < b < out.len() implies precedes(
            keys,
            #[trigger] out[a],
            #[trigger] out[b],
        ) by {
            if b == out.len() - 1 && a < order.len() - 1 {
                assert(precedes(keys, order[a], order.last()));
            }
        }
        assert forall|x: int| #[trigger] out.contains(x) <==> (x == e || order.contains(x)) by {
            if out.contains(x) {
                let k = choose|k: int| 0 <= k < out.len() && out[k] == x;
                if k < order.len() {
                    assert(order[k] == x);
                }
            }
            if order.contains(x) {
                let k = choose|k: int| 0 <= k < order.len() && order[k] == x;
                assert(out[k] == x);
            }
            if x == e {
                assert(out[order.len() as int] == e);
            }
        }
    } else {
        let rest = order.drop_last();
        let inner = place(keys, rest, e);
        lemma_place(keys, rest, e, hi);
        assert forall|k: int| 0 <= k < out.len() implies 0 <= #[trigger] out[k] < e + 1 by {
            if k < inner.len() {
                assert(out[k] == inner[k]);
            } else {
                assert(out[k] == order.last());
            }
        }
        assert forall|a: int, b: int| 0 <= a < b < out.len() implies precedes(
            keys,
            #[trigger] out[a],
            #[trigger] out[b],
        ) by {
            if b < inner.len() {
                assert(out[a] == inner[a] && out[b] == inner[b]);
            } else {
                assert(out[b] == order.last());
                assert(out[a] == inner[a]);
                assert(inner.contains(inner[a]));
                if inner[a] == e {
                    assert(order.last() < hi);
                } else {
                    assert(rest.contains(inner[a]));
                    let k = choose|k: int| 0 <= k < rest.len() && rest[k] == inner[a];
                    assert(order[k] == inner[a]);
                    assert(precedes(keys, order[k], order[order.len() - 1]));
                }
            }
        }
        assert forall|x: int| #[trigger] out.contains(x) <==> (x == e || order.contains(x)) by {
            assert(inner.contains(x) <==> (x == e || rest.contains(x)));
            if out.contains(x) {
                let k = choose|k: int| 0 <= k < out.len() && out[k] == x;
                if k < inner.len() {
                    assert(inner[k] == x);
                    assert(inner.contains(x));
                    if x != e {
                        let m = choose|m: int| 0 <= m < rest.len() && rest[m] == x;
                        assert(order[m] == x);
                    }
                } else {
                    assert(order[order.len() - 1] == x);
                }
            }
            if x == e || order.contains(x) {
                if x == e || rest.contains(x) {
                    assert(inner.contains(x));
                    let k = choose|k: int| 0 <= k < inner.len() && inner[k] == x;
                    assert(out[k] == x);
                } else {
                    let m = choose|m: int| 0 <= m < order.len() && order[m] == x;
                    if m < rest.len() {
                        assert(rest[m] == x);
                    }
                    assert(out[out.len() - 1] == x);
                }
            }
        }
    }
}

/// The order that `order_desc` builds is a stable descending order.
pub proof fn lemma_order_desc_is_stable(keys: Seq<nat>)
    ensures
        is_stable_desc_order(keys, order_desc(keys)),
    decreases keys.len(),
{
    if keys.len() > 0 {
        let front = keys.drop_last();
        let n = keys.len() as int;
        lemma_order_desc_is_stable(front);
        let inner = order_desc(front);
        assert forall|a: int, b: int| 0 <= a < b < inner.len() implies precedes(
            keys,
            #[trigger] inner[a],
            #[trigger] inner[b],
        ) by {
            assert(precedes(front, inner[a], inner[b]));
        }
        lemma_place(keys, inner, n - 1, n - 1);
    }
}

/// A stable descending order holds every position of `keys`.
pub proof fn lemma_stable_order_is_onto(keys: Seq<nat>, order: Seq<int>, i: int)
    requires
        is_stable_desc_order(keys, order),
        0 <= i < keys.len(),
    ensures
        order.contains(i),
{
    let n = keys.len() as int;
    assert(order.no_duplicates()) by {
        assert forall|a: int, b: int| 0 <= a < order.len() && 0 <= b < order.len() && a != b
            implies order[a] != order[b] by {
            if a < b {
                assert(precedes(keys, order[a], order[b]));
            } else {
                assert(precedes(keys, order[b], order[a]));
            }
        }
    }
    order.unique_seq_to_set();
    vstd::set_lib::lemma_int_range(0, n);
    let all = vstd::set_lib::set_int_range(0, n);
    assert(order.to_set().subset_of(all)) by {
        assert forall|x: int| order.to_set().contains(x) implies all.contains(x) by {
            let k = choose|k: int| 0 <= k < order.len() && order[k] == x;
            assert(0 <= order[k] < n);
        }
    }
    vstd::set_lib::lemma_subset_equality(order.to_set(), all);
    assert(all.contains(i));
    assert(order.to_set().contains(i));
}

proof fn lemma_stable_orders_agree(keys: Seq<nat>, first: Seq<int>, second: Seq<int>, k: int)
    requires
        is_stable_desc_order(keys, first),
        is_stable_desc_order(keys, second),
        0 <= k < keys.len(),
    ensures
        forall|j: int| 0 <= j <= k ==> first[j] == second[j],
    decreases k,
{
    if k > 0 {
        lemma_stable_orders_agree(keys, first, second, k - 1);
    }
    let x = first[k];
    let y = second[k];
    if x != y {
        if precedes(keys, x, y) {
            lemma_stable_order_is_onto(keys, second, x);
            let m = choose|m: int| 0 <= m < second.len() && second[m] == x;
            if m < k {
                assert(first[m] == second[m]);
                assert(precedes(keys, first[m], first[k]));
            } else {
                assert(precedes(keys, second[k], second[m]));
            }
        } else {
            assert(precedes(keys, y, x));
            lemma_stable_order_is_onto(keys, first, y);
            let m = choose|m: int| 0 <= m < first.len() && first[m] == y;
            if m < k {
                assert(first[m] == second[m]);
                assert(precedes(keys, second[m], second[k]));
            } else {
                assert(precedes(keys, first[k], first[m]));
            }
        }
    }
}

/// There is one stable descending order of `keys`: the one that `order_desc`
/// builds.
pub proof fn lemma_stable_order_is_unique(keys: Seq<nat>, order: Seq<int>)
    requires
        is_stable_desc_order(keys, order),
    ensures
        order == order_desc(keys),
{
    lemma_order_desc_is_stable(keys);
    if keys.len() > 0 {
        lemma_stable_orders_agree(keys, order, order_desc(keys), keys.len() - 1);
    }
    assert(order =~= order_desc(keys));
}

} // verus!
