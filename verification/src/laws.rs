//! What holds of every analysis.

use vstd::prelude::*;
use crate::model::{AnalysedProfileModel, CostCentreModel, ProfileModel};
use crate::order::{
    arranged, is_stable_desc_order, lemma_order_desc_is_stable, order_desc, precedes,
};
use crate::semantics::{
    analysed, analysed_children, centre_ticks, child_centre_ticks, child_totals, cumulative_ticks,
    own_centre_ticks, refers_to, row_ticks, summary, table_index, tabulated, total_ticks,
    unresolved,
};
use crate::sums::{
    column_sums, lemma_sum_exchange, lemma_sum_le, lemma_sum_single, lemma_sum_sorted,
    lemma_sum_zero, lemma_sum_zip, row_sums, sum,
};

verus! {

/// At this node and at every node below it, the cumulative ticks are the
/// node's own ticks and the cumulative ticks of its children together.
pub open spec fn cumulative_at_every_depth(a: AnalysedProfileModel) -> bool
    decreases a,
{
    &&& a.ticks_cumulative == a.ticks + sum(cumulative_ticks(a.children))
    &&& forall|i: int|
        0 <= i < a.children.len() ==> cumulative_at_every_depth(#[trigger] a.children[i])
}

/// The children of an analysed node are the children of the raw node, each
/// analysed, in the stable descending order of their total ticks.
pub proof fn law_children_rearranged(p: ProfileModel, table: Map<u64, CostCentreModel>)
    ensures
        is_stable_desc_order(child_totals(p), order_desc(child_totals(p))),
        analysed(p, table).children.len() == p.children.len(),
        forall|k: int|
            0 <= k < p.children.len() ==> #[trigger] analysed(p, table).children[k] == analysed(
                p.children[order_desc(child_totals(p))[k]],
                table,
            ),
        cumulative_ticks(analysed(p, table).children) == arranged(
            child_totals(p),
            order_desc(child_totals(p)),
        ),
{
    let totals = child_totals(p);
    assert(cumulative_ticks(analysed_children(p, table)) =~= totals);
    lemma_order_desc_is_stable(totals);
    assert(cumulative_ticks(analysed(p, table).children) =~= arranged(
        totals,
        order_desc(totals),
    ));
}

/// In an analysed tree the cumulative ticks of every node are its own ticks
/// and the cumulative ticks of its children together.
pub proof fn law_cumulative_ticks(p: ProfileModel, table: Map<u64, CostCentreModel>)
    ensures
        cumulative_at_every_depth(analysed(p, table)),
    decreases p,
{
    let a = analysed(p, table);
    let totals = child_totals(p);
    let order = order_desc(totals);
    law_children_rearranged(p, table);
    lemma_sum_sorted(totals, totals);
    assert forall|i: int| 0 <= i < a.children.len() implies cumulative_at_every_depth(
        #[trigger] a.children[i],
    ) by {
        assert(0 <= order[i] < p.children.len());
        law_cumulative_ticks(p.children[order[i]], table);
    }
}

/// At this node and at every node below it, the children of `a` are the
/// children of `p` in another order: from the largest cumulative ticks to the
/// smallest, and with equal cumulative ticks in the order in which they stand
/// in `p`.
pub open spec fn stable_at_every_depth(p: ProfileModel, a: AnalysedProfileModel) -> bool
    decreases p,
{
    let totals = child_totals(p);
    let order = order_desc(totals);
    &&& a.children.len() == p.children.len()
    &&& is_stable_desc_order(totals, order)
    &&& forall|k: int|
        0 <= k < a.children.len() ==> {
            &&& 0 <= order[k] < p.children.len()
            &&& (#[trigger] a.children[k]).ticks_cumulative == totals[order[k]]
            &&& stable_at_every_depth(p.children[order[k]], a.children[k])
        }
}

/// In an analysed tree the children of every node run from the largest
/// cumulative ticks to the smallest, and children with equal cumulative ticks
/// keep the order that they have in the raw tree.
pub proof fn law_children_sorted(p: ProfileModel, table: Map<u64, CostCentreModel>)
    ensures
        stable_at_every_depth(p, analysed(p, table)),
        forall|i: int, j: int|
            0 <= i < j < p.children.len() ==> (#[trigger] analysed(
                p,
                table,
            ).children[i]).ticks_cumulative >= (#[trigger] analysed(
                p,
                table,
            ).children[j]).ticks_cumulative,
        forall|i: int, j: int|
            0 <= i < j < p.children.len() && (#[trigger] analysed(
                p,
                table,
            ).children[i]).ticks_cumulative == (#[trigger] analysed(
                p,
                table,
            ).children[j]).ticks_cumulative ==> order_desc(child_totals(p))[i] < order_desc(
                child_totals(p),
            )[j],
    decreases p,
{
    let a = analysed(p, table);
    let totals = child_totals(p);
    let order = order_desc(totals);
    law_children_rearranged(p, table);
    assert forall|k: int| 0 <= k < a.children.len() implies {
        &&& 0 <= order[k] < p.children.len()
        &&& (#[trigger] a.children[k]).ticks_cumulative == totals[order[k]]
        &&& stable_at_every_depth(p.children[order[k]], a.children[k])
    } by {
        assert(0 <= order[k] < p.children.len());
        law_children_sorted(p.children[order[k]], table);
    }
    assert forall|i: int, j: int|
        #![trigger a.children[i], a.children[j]]
        0 <= i < j < p.children.len() implies {
        &&& a.children[i].ticks_cumulative >= a.children[j].ticks_cumulative
        &&& a.children[i].ticks_cumulative == a.children[j].ticks_cumulative ==> order[i]
            < order[j]
    } by {
        assert(precedes(totals, order[i], order[j]));
        assert(0 <= order[i] < p.children.len());
        assert(0 <= order[j] < p.children.len());
    }
}

/// A node whose cost centre the table does not hold gets the stand-in name
/// for its label, its module and its source location.
pub proof fn law_unresolved(p: ProfileModel, table: Map<u64, CostCentreModel>)
    requires
        !table.contains_key(p.cost_centre),
    ensures
        analysed(p, table).label == unresolved(),
        analysed(p, table).module == unresolved(),
        analysed(p, table).src_loc == unresolved(),
{
}

/// A tree in which no node refers to a cost centre has no ticks for it.
pub proof fn law_no_reference_no_ticks(p: ProfileModel, id: u64)
    requires
        !refers_to(p, id),
    ensures
        centre_ticks(p, id) == 0,
    decreases p,
{
    let per_child = child_centre_ticks(p, id);
    assert forall|i: int| 0 <= i < per_child.len() implies #[trigger] per_child[i] == 0 by {
        law_no_reference_no_ticks(p.children[i], id);
    }
    lemma_sum_zero(per_child);
}

/// The ticks that a tree holds for one cost centre are no more than all its
/// ticks.
pub proof fn law_centre_ticks_within_total(p: ProfileModel, id: u64)
    ensures
        centre_ticks(p, id) <= total_ticks(p),
    decreases p,
{
    let per_child = child_centre_ticks(p, id);
    let totals = child_totals(p);
    assert forall|i: int| 0 <= i < per_child.len() implies #[trigger] per_child[i]
        <= totals[i] by {
        law_centre_ticks_within_total(p.children[i], id);
    }
    lemma_sum_le(per_child, totals);
}

/// No two entries of the list have the same id.
pub open spec fn ids_distinct(centres: Seq<CostCentreModel>) -> bool {
    forall|i: int, j: int|
        0 <= i < j < centres.len() ==> (#[trigger] centres[i]).id != (#[trigger] centres[j]).id
}

/// The list has an entry for every cost centre that a node of the tree
/// refers to.
pub open spec fn lists_every_centre(centres: Seq<CostCentreModel>, p: ProfileModel) -> bool {
    forall|id: u64| #[trigger]
        refers_to(p, id) ==> exists|i: int|
            0 <= i < centres.len() && (#[trigger] centres[i]).id == id
}

proof fn lemma_tabulated_total(centres: Seq<CostCentreModel>, p: ProfileModel)
    requires
        ids_distinct(centres),
        lists_every_centre(centres, p),
    ensures
        sum(row_ticks(tabulated(centres, p))) == total_ticks(p),
    decreases p,
{
    let n = centres.len();
    let m = p.children.len();
    let ticks = row_ticks(tabulated(centres, p));
    let own = Seq::new(n, |i: int| own_centre_ticks(p, centres[i].id));
    let f = |c: int, i: int| centre_ticks(p.children[c], centres[i].id);
    let below = column_sums(f, m, n);
    assert forall|i: int| 0 <= i < n implies #[trigger] ticks[i] == own[i] + below[i] by {
        assert(child_centre_ticks(p, centres[i].id) =~= Seq::new(m, |c: int| f(c, i)));
    }
    lemma_sum_zip(own, below, ticks);
    assert(sum(own) == p.ticks) by {
        assert(refers_to(p, p.cost_centre));
        let at = choose|i: int| 0 <= i < n && (#[trigger] centres[i]).id == p.cost_centre;
        assert forall|i: int| 0 <= i < n && i != at implies #[trigger] own[i] == 0 by {
            if i < at {
                assert(centres[i].id != centres[at].id);
            } else {
                assert(centres[at].id != centres[i].id);
            }
        }
        lemma_sum_single(own, at);
    }
    lemma_sum_exchange(f, m, n);
    assert(row_sums(f, m, n) =~= child_totals(p)) by {
        assert forall|c: int| 0 <= c < m implies #[trigger] row_sums(f, m, n)[c] == child_totals(
            p,
        )[c] by {
            let child = p.children[c];
            assert forall|id: u64| #[trigger] refers_to(child, id) implies exists|i: int|
                0 <= i < centres.len() && (#[trigger] centres[i]).id == id by {
                assert(refers_to(p, id));
            }
            lemma_tabulated_total(centres, child);
            assert(row_ticks(tabulated(centres, child)) =~= Seq::new(n, |i: int| f(c, i)));
        }
    }
}

/// Where no two entries of the cost-centre list have the same id, and the
/// list has an entry for every cost centre that the tree refers to, the
/// ticks of the summary's rows sum to the ticks of the tree's nodes.
pub proof fn law_summary_total(centres: Seq<CostCentreModel>, p: ProfileModel)
    requires
        ids_distinct(centres),
        lists_every_centre(centres, p),
    ensures
        sum(row_ticks(summary(centres, p))) == total_ticks(p),
{
    let rows = tabulated(centres, p);
    let ticks = row_ticks(rows);
    lemma_tabulated_total(centres, p);
    lemma_order_desc_is_stable(ticks);
    lemma_sum_sorted(ticks, ticks);
    assert(row_ticks(summary(centres, p)) =~= arranged(ticks, order_desc(ticks)));
}

/// The lookup table holds an id where the list has an entry with that id,
/// and nowhere else.
pub proof fn law_table_holds_listed(centres: Seq<CostCentreModel>, id: u64)
    ensures
        table_index(centres).contains_key(id) <==> exists|i: int|
            0 <= i < centres.len() && (#[trigger] centres[i]).id == id,
    decreases centres.len(),
{
    if centres.len() > 0 {
        let front = centres.drop_last();
        law_table_holds_listed(front, id);
        if table_index(centres).contains_key(id) {
            if centres.last().id == id {
                assert(centres[centres.len() - 1].id == id);
            } else {
                let i = choose|i: int| 0 <= i < front.len() && (#[trigger] front[i]).id == id;
                assert(centres[i].id == id);
            }
        }
        if exists|i: int| 0 <= i < centres.len() && (#[trigger] centres[i]).id == id {
            let i = choose|i: int| 0 <= i < centres.len() && (#[trigger] centres[i]).id == id;
            if i < front.len() {
                assert(front[i].id == id);
            }
        }
    }
}

/// Of the entries of the list with one id, the lookup table holds the last.
pub proof fn law_last_entry_wins(centres: Seq<CostCentreModel>, i: int)
    requires
        0 <= i < centres.len(),
        forall|j: int| i < j < centres.len() ==> (#[trigger] centres[j]).id != centres[i].id,
    ensures
        table_index(centres).contains_key(centres[i].id),
        table_index(centres)[centres[i].id] == centres[i],
    decreases centres.len(),
{
    if i < centres.len() - 1 {
        let front = centres.drop_last();
        assert(centres[centres.len() - 1].id != centres[i].id);
        assert forall|j: int| i < j < front.len() implies (#[trigger] front[j]).id
            != front[i].id by {
            assert(centres[j].id != centres[i].id);
        }
        law_last_entry_wins(front, i);
    }
}

/// The rows of a cost-centre summary are those of the list in another order:
/// from the most ticks to the fewest, and with equal ticks in the order of
/// the list.
pub proof fn law_summary_sorted(centres: Seq<CostCentreModel>, p: ProfileModel)
    ensures
        summary(centres, p).len() == centres.len(),
        is_stable_desc_order(
            row_ticks(tabulated(centres, p)),
            order_desc(row_ticks(tabulated(centres, p))),
        ),
        forall|k: int|
            0 <= k < centres.len() ==> #[trigger] summary(centres, p)[k] == tabulated(
                centres,
                p,
            )[order_desc(row_ticks(tabulated(centres, p)))[k]],
        forall|i: int, j: int|
            0 <= i < j < centres.len() ==> (#[trigger] summary(centres, p)[i]).ticks
                >= (#[trigger] summary(centres, p)[j]).ticks,
        forall|i: int, j: int|
            0 <= i < j < centres.len() && (#[trigger] summary(centres, p)[i]).ticks == (
            #[trigger] summary(centres, p)[j]).ticks ==> order_desc(
                row_ticks(tabulated(centres, p)),
            )[i] < order_desc(row_ticks(tabulated(centres, p)))[j],
{
    let rows = summary(centres, p);
    let ticks = row_ticks(tabulated(centres, p));
    let order = order_desc(ticks);
    lemma_order_desc_is_stable(ticks);
    assert forall|i: int, j: int|
        #![trigger rows[i], rows[j]]
        0 <= i < j < centres.len() implies {
        &&& rows[i].ticks >= rows[j].ticks
        &&& rows[i].ticks == rows[j].ticks ==> order[i] < order[j]
    } by {
        assert(precedes(ticks, order[i], order[j]));
        assert(0 <= order[i] < centres.len());
        assert(0 <= order[j] < centres.len());
    }
}

} // verus!
