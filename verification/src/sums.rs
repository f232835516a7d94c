//! Sums of sequences of natural numbers.

use vstd::prelude::*;
use crate::order::{arranged, order_desc, place, precedes};

verus! {

/// The sum of the numbers of `s`.
pub open spec fn sum(s: Seq<nat>) -> nat
    decreases s.len(),
{
    if s.len() == 0 {
        0
    } else {
        sum(s.drop_last()) + s.last()
    }
}

/// The sum of the first `k` numbers is no more than the sum of all, and
/// together with any later number it is still no more.
pub proof fn lemma_sum_take(s: Seq<nat>, k: int)
    requires
        0 <= k <= s.len(),
    ensures
        sum(s.take(k)) <= sum(s),
        k < s.len() ==> sum(s.take(k)) + s[k] == sum(s.take(k + 1)),
        k < s.len() ==> sum(s.take(k)) + s[k] <= sum(s),
    decreases s.len() - k,
{
    if k < s.len() {
        assert(s.take(k + 1).drop_last() =~= s.take(k));
        lemma_sum_take(s, k + 1);
    } else {
        assert(s.take(k) =~= s);
    }
}

/// A number put into a sequence adds itself to the sum.
pub proof fn lemma_sum_insert(s: Seq<nat>, at: int, x: nat)
    requires
        0 <= at <= s.len(),
    ensures
        sum(s.insert(at, x)) == sum(s) + x,
    decreases s.len(),
{
    let t = s.insert(at, x);
    if at == s.len() {
        assert(t.drop_last() =~= s);
    } else {
        assert(t.drop_last() =~= s.drop_last().insert(at, x));
        lemma_sum_insert(s.drop_last(), at, x);
    }
}

/// The sum of the term-by-term sums of two sequences is the sum of their sums.
pub proof fn lemma_sum_zip(a: Seq<nat>, b: Seq<nat>, both: Seq<nat>)
    requires
        a.len() == b.len(),
        both.len() == a.len(),
        forall|i: int| 0 <= i < a.len() ==> #[trigger] both[i] == a[i] + b[i],
    ensures
        sum(both) == sum(a) + sum(b),
    decreases a.len(),
{
    if a.len() > 0 {
        lemma_sum_zip(a.drop_last(), b.drop_last(), both.drop_last());
    }
}

/// A sequence that is term by term no more than another sums to no more.
pub proof fn lemma_sum_le(a: Seq<nat>, b: Seq<nat>)
    requires
        a.len() == b.len(),
        forall|i: int| 0 <= i < a.len() ==> #[trigger] a[i] <= b[i],
    ensures
        sum(a) <= sum(b),
    decreases a.len(),
{
    if a.len() > 0 {
        lemma_sum_le(a.drop_last(), b.drop_last());
    }
}

/// A sequence of zeros sums to zero.
pub proof fn lemma_sum_zero(s: Seq<nat>)
    requires
        forall|i: int| 0 <= i < s.len() ==> #[trigger] s[i] == 0,
    ensures
        sum(s) == 0,
    decreases s.len(),
{
    if s.len() > 0 {
        lemma_sum_zero(s.drop_last());
    }
}

/// A sequence that is zero but at one place sums to the number at that place.
pub proof fn lemma_sum_single(s: Seq<nat>, at: int)
    requires
        0 <= at < s.len(),
        forall|i: int| 0 <= i < s.len() && i != at ==> #[trigger] s[i] == 0,
    ensures
        sum(s) == s[at],
    decreases s.len(),
{
    if at == s.len() - 1 {
        lemma_sum_zero(s.drop_last());
    } else {
        lemma_sum_single(s.drop_last(), at);
    }
}

/// For a grid of numbers `f(c, i)` with `rows` values of `c` and `columns`
/// values of `i`: the sum over each column, one sum for each `i`.
pub open spec fn column_sums(f: spec_fn(int, int) -> nat, rows: nat, columns: nat) -> Seq<nat> {
    Seq::new(columns, |i: int| sum(Seq::new(rows, |c: int| f(c, i))))
}

/// The sum over each row of the grid, one sum for each `c`.
pub open spec fn row_sums(f: spec_fn(int, int) -> nat, rows: nat, columns: nat) -> Seq<nat> {
    Seq::new(rows, |c: int| sum(Seq::new(columns, |i: int| f(c, i))))
}

/// A grid of numbers summed by columns and summed by rows gives one total.
pub proof fn lemma_sum_exchange(f: spec_fn(int, int) -> nat, rows: nat, columns: nat)
    ensures
        sum(column_sums(f, rows, columns)) == sum(row_sums(f, rows, columns)),
    decreases rows,
{
    let by_column = column_sums(f, rows, columns);
    let by_row = row_sums(f, rows, columns);
    if rows == 0 {
        assert forall|i: int| 0 <= i < by_column.len() implies #[trigger] by_column[i] == 0 by {
            assert(Seq::new(rows, |c: int| f(c, i)).len() == 0);
        }
        lemma_sum_zero(by_column);
    } else {
        let above = (rows - 1) as nat;
        let last = Seq::new(columns, |i: int| f(above as int, i));
        let before = column_sums(f, above, columns);
        lemma_sum_exchange(f, above, columns);
        assert forall|i: int| 0 <= i < columns implies #[trigger] by_column[i] == before[i]
            + last[i] by {
            let whole = Seq::new(rows, |c: int| f(c, i));
            assert(whole.drop_last() =~= Seq::new(above, |c: int| f(c, i)));
        }
        lemma_sum_zip(before, last, by_column);
        assert(by_row.drop_last() =~= row_sums(f, above, columns));
    }
}

proof fn lemma_place_is_insert(keys: Seq<nat>, order: Seq<int>, e: int) -> (at: int)
    ensures
        0 <= at <= order.len(),
        place(keys, order, e) == order.insert(at, e),
    decreases order.len(),
{
    if order.len() == 0 {
        assert(place(keys, order, e) =~= order.insert(0, e));
        0
    } else if precedes(keys, order.last(), e) {
        assert(place(keys, order, e) =~= order.insert(order.len() as int, e));
        order.len() as int
    } else {
        let at = lemma_place_is_insert(keys, order.drop_last(), e);
        assert(place(keys, order, e) =~= order.insert(at, e));
        at
    }
}

/// Sorting does not change the sum: the numbers of `s`, taken in the stable
/// descending order of any keys, sum to what `s` sums to.
pub proof fn lemma_sum_sorted(s: Seq<nat>, keys: Seq<nat>)
    requires
        s.len() == keys.len(),
    ensures
        sum(arranged(s, order_desc(keys))) == sum(s),
    decreases keys.len(),
{
    if keys.len() == 0 {
        assert(arranged(s, order_desc(keys)) =~= s);
    } else {
        let front = keys.drop_last();
        let inner = order_desc(front);
        let last = keys.len() - 1;
        crate::order::lemma_order_desc_is_stable(front);
        lemma_sum_sorted(s.drop_last(), front);
        let at = lemma_place_is_insert(keys, inner, last);
        assert(arranged(s, order_desc(keys)) =~= arranged(s.drop_last(), inner).insert(
            at,
            s.last(),
        ));
        lemma_sum_insert(arranged(s.drop_last(), inner), at, s.last());
    }
}

} // verus!
