//! The counts of ticks by cost centre while a node is analysed: first its
//! children, one after the other, then the node itself.

use vstd::prelude::*;
use crate::laws::law_no_reference_no_ticks;
use crate::model::ProfileModel;
use crate::semantics::{
    centre_ticks, child_centre_ticks, count_at, counts_have_room, own_centre_ticks, refers_to,
    tallied,
};
use crate::sums::{lemma_sum_take, lemma_sum_zero, sum};

verus! {

/// The counts after the first `upto` children of a node have been tallied.
pub open spec fn tallied_children(counts: Map<u64, u64>, p: ProfileModel, upto: int) -> Map<
    u64,
    u64,
> {
    Map::new(
        |id: u64|
            counts.contains_key(id) || exists|j: int|
                0 <= j < upto && refers_to(#[trigger] p.children[j], id),
        |id: u64| (count_at(counts, id) + sum(child_centre_ticks(p, id).take(upto))) as u64,
    )
}

/// After the first `upto` children, the count of a cost centre is what it was
/// and the ticks that those children hold for it; there is room for the
/// ticks of the next child.
pub proof fn lemma_tallied_children_count(
    counts: Map<u64, u64>,
    p: ProfileModel,
    upto: int,
    id: u64,
)
    requires
        counts_have_room(counts, p),
        0 <= upto <= p.children.len(),
    ensures
        count_at(tallied_children(counts, p, upto), id) == count_at(counts, id) + sum(
            child_centre_ticks(p, id).take(upto),
        ),
        upto < p.children.len() ==> count_at(counts, id) + sum(
            child_centre_ticks(p, id).take(upto),
        ) + centre_ticks(p.children[upto], id) <= u64::MAX,
{
    let per_child = child_centre_ticks(p, id);
    lemma_sum_take(per_child, upto);
    assert(count_at(counts, id) + centre_ticks(p, id) <= u64::MAX);
    if !tallied_children(counts, p, upto).contains_key(id) {
        assert forall|j: int| 0 <= j < upto implies #[trigger] per_child.take(upto)[j] == 0 by {
            law_no_reference_no_ticks(p.children[j], id);
        }
        lemma_sum_zero(per_child.take(upto));
    }
}

/// Before any child is tallied the counts are as they were.
pub proof fn lemma_tally_start(counts: Map<u64, u64>, p: ProfileModel)
    requires
        counts_have_room(counts, p),
    ensures
        tallied_children(counts, p, 0) == counts,
{
    assert forall|id: u64| counts.contains_key(id) implies #[trigger] tallied_children(
        counts,
        p,
        0,
    )[id] == counts[id] by {
        lemma_tallied_children_count(counts, p, 0, id);
    }
    assert(tallied_children(counts, p, 0) =~= counts);
}

/// The counts have room for the next child, and tallying it gives the counts
/// after one child more.
pub proof fn lemma_tally_child(counts: Map<u64, u64>, p: ProfileModel, upto: int)
    requires
        counts_have_room(counts, p),
        0 <= upto < p.children.len(),
    ensures
        counts_have_room(tallied_children(counts, p, upto), p.children[upto]),
        tallied(tallied_children(counts, p, upto), p.children[upto]) == tallied_children(
            counts,
            p,
            upto + 1,
        ),
{
    let now = tallied_children(counts, p, upto);
    let child = p.children[upto];
    let next = tallied_children(counts, p, upto + 1);
    assert forall|id: u64| count_at(now, id) + #[trigger] centre_ticks(child, id)
        <= u64::MAX by {
        lemma_tallied_children_count(counts, p, upto, id);
    }
    assert forall|id: u64| next.contains_key(id) implies #[trigger] tallied(now, child)[id]
        == next[id] by {
        lemma_tallied_children_count(counts, p, upto, id);
        lemma_sum_take(child_centre_ticks(p, id), upto);
    }
    assert(tallied(now, child) =~= next);
}

/// After all the children, there is room for the node's own ticks, and adding
/// them to the count of its cost centre gives the counts of the whole tree.
pub proof fn lemma_tally_node(counts: Map<u64, u64>, p: ProfileModel)
    requires
        counts_have_room(counts, p),
    ensures
        count_at(tallied_children(counts, p, p.children.len() as int), p.cost_centre) + p.ticks
            <= u64::MAX,
        tallied_children(counts, p, p.children.len() as int).insert(
            p.cost_centre,
            (count_at(tallied_children(counts, p, p.children.len() as int), p.cost_centre)
                + p.ticks) as u64,
        ) == tallied(counts, p),
{
    let n = p.children.len() as int;
    let now = tallied_children(counts, p, n);
    let own = p.cost_centre;
    let after = now.insert(own, (count_at(now, own) + p.ticks) as u64);
    assert forall|id: u64|
        count_at(now, id) + own_centre_ticks(p, id) == count_at(counts, id)
            + #[trigger] centre_ticks(p, id) by {
        lemma_tallied_children_count(counts, p, n, id);
        assert(child_centre_ticks(p, id).take(n) =~= child_centre_ticks(p, id));
    }
    assert(count_at(counts, own) + centre_ticks(p, own) <= u64::MAX);
    assert forall|id: u64| after.contains_key(id) implies #[trigger] after[id] == tallied(
        counts,
        p,
    )[id] by {
        assert(count_at(now, id) + own_centre_ticks(p, id) == count_at(counts, id) + centre_ticks(
            p,
            id,
        ));
    }
    assert(after =~= tallied(counts, p));
}

} // verus!
