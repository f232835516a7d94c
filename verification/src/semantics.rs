//! What the analysis of a profile is: its results as functions of the raw
//! tree and the cost-centre table.

use vstd::prelude::*;
use crate::model::{
    AnalysedCostCentre, AnalysedCostCentreModel, AnalysedProfile, AnalysedProfileModel, CostCentre,
    CostCentreModel, Profile, ProfileModel, TopLevel, views,
};
use crate::order::sorted_desc;
use crate::sums::sum;

verus! {

/// The total ticks of each child of a node.
pub open spec fn child_totals(p: ProfileModel) -> Seq<nat>
    decreases p, 0nat,
{
    Seq::new(
        p.children.len(),
        |i: int|
            if 0 <= i < p.children.len() {
                total_ticks(p.children[i])
            } else {
                0
            },
    )
}

/// The ticks of a node and of all the nodes below it.
pub open spec fn total_ticks(p: ProfileModel) -> nat
    decreases p, 1nat,
{
    p.ticks as nat + sum(child_totals(p))
}

/// Whether a node of the tree refers to the cost centre `id`.
pub open spec fn refers_to(p: ProfileModel, id: u64) -> bool
    decreases p,
{
    p.cost_centre == id || exists|i: int|
        0 <= i < p.children.len() && refers_to(#[trigger] p.children[i], id)
}

/// For each child of a node, the ticks of the nodes in it that refer to `id`.
pub open spec fn child_centre_ticks(p: ProfileModel, id: u64) -> Seq<nat>
    decreases p, 0nat,
{
    Seq::new(
        p.children.len(),
        |i: int|
            if 0 <= i < p.children.len() {
                centre_ticks(p.children[i], id)
            } else {
                0
            },
    )
}

/// The node's own ticks if it refers to the cost centre `id`, else none.
pub open spec fn own_centre_ticks(p: ProfileModel, id: u64) -> nat {
    if p.cost_centre == id {
        p.ticks as nat
    } else {
        0
    }
}

/// The ticks of all the nodes of the tree that refer to the cost centre
/// `id`: each node's own ticks, without those below it.
pub open spec fn centre_ticks(p: ProfileModel, id: u64) -> nat
    decreases p, 1nat,
{
    own_centre_ticks(p, id) + sum(child_centre_ticks(p, id))
}

/// The name that stands in for the label, the module and the source location
/// of a node whose cost centre the table does not hold.
pub open spec fn unresolved() -> Seq<char> {
    seq!['E', 'R', 'R', 'O', 'R']
}

/// The label, the module and the source location of the cost centre `id`:
/// those of its entry in the table, or `unresolved()` three times where the
/// table has no entry for it.
pub open spec fn names_of(table: Map<u64, CostCentreModel>, id: u64) -> (
    Seq<char>,
    Seq<char>,
    Seq<char>,
) {
    if table.contains_key(id) {
        (table[id].label, table[id].module, table[id].src_loc)
    } else {
        (unresolved(), unresolved(), unresolved())
    }
}

/// The analysed children of a node, in the order of the raw children.
pub open spec fn analysed_children(
    p: ProfileModel,
    table: Map<u64, CostCentreModel>,
) -> Seq<AnalysedProfileModel>
    decreases p, 0nat,
{
    Seq::new(
        p.children.len(),
        |i: int|
            if 0 <= i < p.children.len() {
                analysed(p.children[i], table)
            } else {
                arbitrary()
            },
    )
}

/// The cumulative ticks of each of a sequence of analysed nodes.
pub open spec fn cumulative_ticks(nodes: Seq<AnalysedProfileModel>) -> Seq<nat> {
    Seq::new(nodes.len(), |i: int| nodes[i].ticks_cumulative)
}

/// The analysed tree of a raw tree: each node with the names of its cost
/// centre, with its total ticks, and with its analysed children, largest
/// cumulative ticks first, equal ones in the order of the raw children.
pub open spec fn analysed(
    p: ProfileModel,
    table: Map<u64, CostCentreModel>,
) -> AnalysedProfileModel
    decreases p, 1nat,
{
    let names = names_of(table, p.cost_centre);
    let children = analysed_children(p, table);
    AnalysedProfileModel {
        label: names.0,
        module: names.1,
        src_loc: names.2,
        entries: p.entries,
        alloc: p.alloc,
        ticks: p.ticks,
        ticks_cumulative: total_ticks(p),
        children: sorted_desc(children, cumulative_ticks(children)),
    }
}

/// The ticks counted for `id` so far: none where there is no count.
pub open spec fn count_at(counts: Map<u64, u64>, id: u64) -> nat {
    if counts.contains_key(id) {
        counts[id] as nat
    } else {
        0
    }
}

/// Whether the counts leave room for the ticks of the tree: no count would
/// pass the largest `u64`.
pub open spec fn counts_have_room(counts: Map<u64, u64>, p: ProfileModel) -> bool {
    forall|id: u64| count_at(counts, id) + #[trigger] centre_ticks(p, id) <= u64::MAX
}

/// The counts after the ticks of every node of the tree have been added to
/// the count of the cost centre that the node refers to. Every cost centre
/// that a node refers to has a count afterwards, be it zero.
pub open spec fn tallied(counts: Map<u64, u64>, p: ProfileModel) -> Map<u64, u64> {
    Map::new(
        |id: u64| counts.contains_key(id) || refers_to(p, id),
        |id: u64| (count_at(counts, id) + centre_ticks(p, id)) as u64,
    )
}

/// The lookup table of a hash map of cost centres, by views.
pub open spec fn table_view(table: Map<u64, CostCentre>) -> Map<u64, CostCentreModel> {
    Map::new(|id: u64| table.contains_key(id), |id: u64| table[id]@)
}

/// The lookup table of a cost-centre list: each entry under its id, a later
/// entry replacing an earlier one with the same id.
pub open spec fn table_index(centres: Seq<CostCentreModel>) -> Map<u64, CostCentreModel>
    decreases centres.len(),
{
    if centres.len() == 0 {
        Map::empty()
    } else {
        table_index(centres.drop_last()).insert(centres.last().id, centres.last())
    }
}

/// Each cost centre of the list with the ticks of the nodes that refer to
/// its id, in the order of the list.
pub open spec fn tabulated(centres: Seq<CostCentreModel>, p: ProfileModel) -> Seq<
    AnalysedCostCentreModel,
> {
    Seq::new(
        centres.len(),
        |i: int|
            AnalysedCostCentreModel {
                cost_centre: centres[i],
                ticks: centre_ticks(p, centres[i].id),
            },
    )
}

/// Each cost centre of the list with its count, none counting as zero, in
/// the order of the list.
pub open spec fn counted(centres: Seq<CostCentreModel>, counts: Map<u64, u64>) -> Seq<
    AnalysedCostCentreModel,
> {
    Seq::new(
        centres.len(),
        |i: int|
            AnalysedCostCentreModel {
                cost_centre: centres[i],
                ticks: count_at(counts, centres[i].id),
            },
    )
}

/// The ticks of each row of a cost-centre summary.
pub open spec fn row_ticks(rows: Seq<AnalysedCostCentreModel>) -> Seq<nat> {
    Seq::new(rows.len(), |i: int| rows[i].ticks)
}

/// The cost-centre summary of a document: the rows of `tabulated`, most
/// ticks first, rows with equal ticks in the order of the list.
pub open spec fn summary(centres: Seq<CostCentreModel>, p: ProfileModel) -> Seq<
    AnalysedCostCentreModel,
> {
    let rows = tabulated(centres, p);
    sorted_desc(rows, row_ticks(rows))
}

/// Whether `out` is the analysis of the document `input`: what the document
/// says of the run is the same in both, the tree of `out` is the analysed
/// tree of `input` against the lookup table of its cost-centre list, and the
/// cost centres of `out` are the summary of that list.
pub open spec fn is_analysis_of(
    out: TopLevel<AnalysedProfile, AnalysedCostCentre>,
    input: TopLevel<Profile, CostCentre>,
) -> bool {
    &&& out.program == input.program
    &&& out.arguments == input.arguments
    &&& out.rts_arguments == input.rts_arguments
    &&& out.end_time == input.end_time
    &&& out.initial_capabilities == input.initial_capabilities
    &&& out.total_time_bits == input.total_time_bits
    &&& out.total_ticks == input.total_ticks
    &&& out.tick_interval == input.tick_interval
    &&& out.total_alloc == input.total_alloc
    &&& out.profile@ == analysed(input.profile@, table_index(views(input.cost_centres@)))
    &&& views(out.cost_centres@) == summary(views(input.cost_centres@), input.profile@)
}

} // verus!
