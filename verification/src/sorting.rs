//! Sorting by key: a merge sort on positions, and the rearrangement of a
//! vector by the order that it finds.

use vstd::prelude::*;
use crate::order::{
    arranged, is_run, is_stable_desc_order, key_seq, lemma_stable_order_is_unique, order_desc,
    position_seq, precedes, sorted_desc,
};

verus! {

/// Merges two runs over adjacent ranges of positions into one.
fn merge_runs(
    keys: &Vec<u64>,
    left: &Vec<usize>,
    right: &Vec<usize>,
    Ghost(lo): Ghost<int>,
    Ghost(mid): Ghost<int>,
    Ghost(hi): Ghost<int>,
) -> (out: Vec<usize>)
    requires
        0 <= lo <= mid <= hi <= keys.len(),
        left.len() == mid - lo,
        right.len() == hi - mid,
        is_run(key_seq(keys@), position_seq(left@), lo, mid),
        is_run(key_seq(keys@), position_seq(right@), mid, hi),
    ensures
        out.len() == hi - lo,
        is_run(key_seq(keys@), position_seq(out@), lo, hi),
{
    let ghost ks = key_seq(keys@);
    let mut out: Vec<usize> = Vec::new();
    let mut i: usize = 0;
    let mut j: usize = 0;
    while i < left.len() || j < right.len()
        invariant
            0 <= lo <= mid <= hi <= keys.len(),
            left.len() == mid - lo,
            right.len() == hi - mid,
            ks == key_seq(keys@),
            is_run(ks, position_seq(left@), lo, mid),
            is_run(ks, position_seq(right@), mid, hi),
            i <= left.len(),
            j <= right.len(),
            out.len() == i + j,
            is_run(ks, position_seq(out@), lo, hi),
            forall|a: int, b: int|
                0 <= a < out.len() && i <= b < left.len() ==> precedes(
                    ks,
                    #[trigger] position_seq(out@)[a],
                    #[trigger] position_seq(left@)[b],
                ),
            forall|a: int, b: int|
                0 <= a < out.len() && j <= b < right.len() ==> precedes(
                    ks,
                    #[trigger] position_seq(out@)[a],
                    #[trigger] position_seq(right@)[b],
                ),
        decreases left.len() - i + right.len() - j,
    {
        let ghost before = out@;
        let take_left = if i >= left.len() {
            false
        } else if j >= right.len() {
            true
        } else {
            assert(lo <= position_seq(left@)[i as int] < mid);
            assert(mid <= position_seq(right@)[j as int] < hi);
            keys[left[i]] >= keys[right[j]]
        };
        let picked: usize = if take_left {
            left[i]
        } else {
            right[j]
        };
        proof {
            let l = position_seq(left@);
            let r = position_seq(right@);
            if take_left {
                assert(l[i as int] == picked);
                assert forall|b: int| i < b < left.len() implies precedes(
                    ks,
                    picked as int,
                    #[trigger] l[b],
                ) by {
                    assert(precedes(ks, l[i as int], l[b]));
                }
                assert forall|b: int| j <= b < right.len() implies precedes(
                    ks,
                    picked as int,
                    #[trigger] r[b],
                ) by {
                    assert(mid <= r[j as int] < hi);
                    assert(mid <= r[b] < hi);
                    if b > j {
                        assert(precedes(ks, r[j as int], r[b]));
                    }
                }
            } else {
                assert(r[j as int] == picked);
                assert forall|b: int| j < b < right.len() implies precedes(
                    ks,
                    picked as int,
                    #[trigger] r[b],
                ) by {
                    assert(precedes(ks, r[j as int], r[b]));
                }
                assert forall|b: int| i <= b < left.len() implies precedes(
                    ks,
                    picked as int,
                    #[trigger] l[b],
                ) by {
                    assert(lo <= l[i as int] < mid);
                    assert(lo <= l[b] < mid);
                    if b > i {
                        assert(precedes(ks, l[i as int], l[b]));
                    }
                }
            }
        }
        out.push(picked);
        if take_left {
            i = i + 1;
        } else {
            j = j + 1;
        }
        proof {
            let o = position_seq(out@);
            let p = position_seq(before);
            assert forall|k: int| 0 <= k < o.len() implies lo <= #[trigger] o[k] < hi by {
                if k < p.len() {
                    assert(o[k] == p[k]);
                } else if take_left {
                    assert(lo <= position_seq(left@)[i - 1] < mid);
                } else {
                    assert(mid <= position_seq(right@)[j - 1] < hi);
                }
            }
            assert forall|a: int, b: int| 0 <= a < b < o.len() implies precedes(
                ks,
                #[trigger] o[a],
                #[trigger] o[b],
            ) by {
                assert(o[a] == p[a]);
                if b < p.len() {
                    assert(o[b] == p[b]);
                } else if take_left {
                    assert(precedes(ks, p[a], position_seq(left@)[i - 1]));
                } else {
                    assert(precedes(ks, p[a], position_seq(right@)[j - 1]));
                }
            }
            assert forall|a: int, b: int|
                0 <= a < out.len() && i <= b < left.len() implies precedes(
                ks,
                #[trigger] o[a],
                #[trigger] position_seq(left@)[b],
            ) by {
                if a < p.len() {
                    assert(o[a] == p[a]);
                }
            }
            assert forall|a: int, b: int|
                0 <= a < out.len() && j <= b < right.len() implies precedes(
                ks,
                #[trigger] o[a],
                #[trigger] position_seq(right@)[b],
            ) by {
                if a < p.len() {
                    assert(o[a] == p[a]);
                }
            }
        }
    }
    out
}

/// The positions `lo..hi` as a run.
fn order_range(keys: &Vec<u64>, lo: usize, hi: usize) -> (out: Vec<usize>)
    requires
        lo <= hi <= keys.len(),
    ensures
        out.len() == hi - lo,
        is_run(key_seq(keys@), position_seq(out@), lo as int, hi as int),
    decreases hi - lo,
{
    if hi - lo <= 1 {
        let mut out: Vec<usize> = Vec::new();
        if hi - lo == 1 {
            out.push(lo);
        }
        out
    } else {
        let mid: usize = lo + (hi - lo) / 2;
        let left = order_range(keys, lo, mid);
        let right = order_range(keys, mid, hi);
        merge_runs(keys, &left, &right, Ghost(lo as int), Ghost(mid as int), Ghost(hi as int))
    }
}

/// Finds the stable descending order of `keys`: the positions of the keys
/// from the largest key to the smallest, equal keys in the order in which
/// they stand.
pub fn stable_order_desc(keys: &Vec<u64>) -> (order: Vec<usize>)
    ensures
        position_seq(order@) == order_desc(key_seq(keys@)),
        order.len() == keys.len(),
{
    let order = order_range(keys, 0, keys.len());
    proof {
        assert(is_stable_desc_order(key_seq(keys@), position_seq(order@)));
        lemma_stable_order_is_unique(key_seq(keys@), position_seq(order@));
    }
    order
}

/// Every entry of `order` is a position of a sequence of length `len`, and no
/// position occurs twice.
pub open spec fn is_selection(order: Seq<usize>, len: nat) -> bool {
    &&& forall|k: int| 0 <= k < order.len() ==> #[trigger] order[k] < len
    &&& forall|a: int, b: int|
        0 <= a < b < order.len() ==> #[trigger] order[a] != #[trigger] order[b]
}

/// Moves the items out of `items` in the given order: the result holds
/// `items[order[0]]`, `items[order[1]]` and so on.
pub fn rearrange<T>(items: Vec<T>, order: &Vec<usize>) -> (out: Vec<T>)
    requires
        is_selection(order@, items@.len()),
    ensures
        out@ == arranged(items@, position_seq(order@)),
{
    let ghost src = items@;
    let n = items.len();
    let mut items = items;
    let mut slots: Vec<Option<T>> = Vec::new();
    while items.len() > 0
        invariant
            items.len() + slots.len() == n,
            n == src.len(),
            items@ == src.take(items.len() as int),
            forall|s: int| 0 <= s < slots.len() ==> #[trigger] slots@[s] == Some(src[n - 1 - s]),
        decreases items.len(),
    {
        let item = items.pop().unwrap();
        slots.push(Some(item));
    }
    let mut out: Vec<T> = Vec::new();
    let mut k: usize = 0;
    while k < order.len()
        invariant
            k <= order.len(),
            slots.len() == n,
            n == src.len(),
            is_selection(order@, src.len()),
            out.len() == k,
            forall|m: int| 0 <= m < k ==> #[trigger] out@[m] == src[order@[m] as int],
            forall|s: int|
                0 <= s < n ==> #[trigger] slots@[s] == if exists|m: int|
                    0 <= m < k && order@[m] == n - 1 - s {
                    None
                } else {
                    Some(src[n - 1 - s])
                },
        decreases order.len() - k,
    {
        assert(order@[k as int] < n);
        let at: usize = n - 1 - order[k];
        let ghost held = slots@;
        assert(held[at as int] == Some(src[order@[k as int] as int])) by {
            if exists|m: int| 0 <= m < k && order@[m] == n - 1 - at {
                let m = choose|m: int| 0 <= m < k && order@[m] == n - 1 - at;
                assert(order@[m] != order@[k as int]);
            }
        }
        let item = slots[at].take().unwrap();
        out.push(item);
        proof {
            assert forall|s: int| 0 <= s < n implies #[trigger] slots@[s] == if exists|m: int|
                0 <= m < k + 1 && order@[m] == n - 1 - s {
                None::<T>
            } else {
                Some(src[n - 1 - s])
            } by {
                if s == at {
                    assert(order@[k as int] == n - 1 - s);
                } else {
                    assert(slots@[s] == held[s]);
                    if exists|m: int| 0 <= m < k && order@[m] == n - 1 - s {
                        let m = choose|m: int| 0 <= m < k && order@[m] == n - 1 - s;
                        assert(0 <= m < k + 1 && order@[m] == n - 1 - s);
                    }
                    if exists|m: int| 0 <= m < k + 1 && order@[m] == n - 1 - s {
                        let m = choose|m: int| 0 <= m < k + 1 && order@[m] == n - 1 - s;
                        assert(m != k);
                        assert(0 <= m < k && order@[m] == n - 1 - s);
                    }
                }
            }
        }
        k = k + 1;
    }
    assert(out@ =~= arranged(src, position_seq(order@)));
    out
}

/// Sorts `items` by `keys`, where `keys[i]` is the key of `items[i]`: largest
/// key first, items with equal keys in the order in which they stood.
pub fn sort_desc_by_key<T>(items: Vec<T>, keys: &Vec<u64>) -> (out: Vec<T>)
    requires
        keys.len() == items.len(),
    ensures
        out@ == sorted_desc(items@, key_seq(keys@)),
{
    let order = stable_order_desc(keys);
    proof {
        let ks = key_seq(keys@);
        let o = position_seq(order@);
        crate::order::lemma_order_desc_is_stable(ks);
        assert forall|a: int, b: int| 0 <= a < b < order.len() implies #[trigger] order@[a]
            != #[trigger] order@[b] by {
            assert(precedes(ks, o[a], o[b]));
        }
        assert forall|k: int| 0 <= k < order.len() implies #[trigger] order@[k] < items@.len() by {
            assert(0 <= o[k] < ks.len());
        }
    }
    rearrange(items, &order)
}

} // verus!
