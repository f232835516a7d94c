//! The analysis of a profile tree and of a whole document.

use std::collections::HashMap;
use vstd::prelude::*;
use crate::laws::{
    cumulative_at_every_depth, ids_distinct, law_centre_ticks_within_total, law_children_sorted,
    law_cumulative_ticks, law_no_reference_no_ticks, law_summary_sorted, law_summary_total,
    lists_every_centre, stable_at_every_depth,
};
use crate::model::{AnalysedCostCentre, AnalysedProfile, CostCentre, Profile, TopLevel, views};
use crate::order::{key_seq, lemma_order_desc_is_stable, sorted_desc};
use crate::semantics::{
    analysed, analysed_children, centre_ticks, child_totals, count_at, counted, counts_have_room,
    cumulative_ticks, is_analysis_of, names_of, refers_to, row_ticks, summary, table_index, table_view,
    tabulated, tallied, total_ticks, unresolved,
};
use crate::sorting::sort_desc_by_key;
use crate::sums::{lemma_sum_take, sum};
use crate::tally::{lemma_tally_child, lemma_tally_node, lemma_tally_start, tallied_children};

verus! {

/// The names of the cost centre `id`: its label, module and source location,
/// or `"ERROR"` three times where the table has no such cost centre.
pub fn resolve(id: u64, cost_centres: &HashMap<u64, CostCentre>) -> (names: (
    String,
    String,
    String,
))
    ensures
        (names.0@, names.1@, names.2@) == names_of(table_view(cost_centres@), id),
{
    match cost_centres.get(&id) {
        Some(centre) => (centre.label.clone(), centre.module.clone(), centre.src_loc.clone()),
        None => {
            proof {
                reveal_strlit("ERROR");
                assert("ERROR"@ =~= unresolved());
            }
            ("ERROR".to_owned(), "ERROR".to_owned(), "ERROR".to_owned())
        },
    }
}

/// Analyses a profile tree against a cost-centre table, and adds the ticks of
/// each of its nodes to the count of the cost centre that the node refers to,
/// whether or not the table holds that cost centre.
///
/// The total ticks of `input` must fit a `u64`, and so must every count with
/// the ticks that it receives. The function calls itself once for each node,
/// as deep as the tree is.
pub fn analyse_profile(
    input: Profile,
    cost_centres: &HashMap<u64, CostCentre>,
    cost_centres_ticks: &mut HashMap<u64, u64>,
) -> (out: AnalysedProfile)
    requires
        total_ticks(input@) <= u64::MAX,
        counts_have_room(old(cost_centres_ticks)@, input@),
    ensures
        out@ == analysed(input@, table_view(cost_centres@)),
        final(cost_centres_ticks)@ == tallied(old(cost_centres_ticks)@, input@),
        cumulative_at_every_depth(out@),
        stable_at_every_depth(input@, out@),
    decreases input,
{
    let ghost raw = input@;
    let ghost table = table_view(cost_centres@);
    let ghost start = old(cost_centres_ticks)@;
    let ghost nodes = input.children;
    let Profile { cost_centre, entries, alloc, ticks, children } = input;
    let mut done: Vec<AnalysedProfile> = Vec::new();
    let mut keys: Vec<u64> = Vec::new();
    let mut below: u64 = 0;
    proof {
        lemma_tally_start(start, raw);
    }
    for child in it: children
        invariant
            nodes == input.children,
            raw == input@,
            it.seq() == nodes@,
            table == table_view(cost_centres@),
            total_ticks(raw) <= u64::MAX,
            counts_have_room(start, raw),
            done.len() == it.index(),
            keys.len() == it.index(),
            forall|j: int|
                0 <= j < it.index() ==> (#[trigger] done@[j])@ == analysed(raw.children[j], table),
            forall|j: int|
                0 <= j < it.index() ==> #[trigger] keys@[j] == total_ticks(raw.children[j]),
            below == sum(child_totals(raw).take(it.index() as int)),
            cost_centres_ticks@ == tallied_children(start, raw, it.index() as int),
    {
        proof {
            let at = it.index() as int;
            assert(child@ == raw.children[at]);
            lemma_sum_take(child_totals(raw), at);
            lemma_tally_child(start, raw, at);
        }
        let analysed_child = analyse_profile(child, cost_centres, cost_centres_ticks);
        below = below + analysed_child.ticks_cumulative;
        keys.push(analysed_child.ticks_cumulative);
        done.push(analysed_child);
    }
    proof {
        assert(child_totals(raw).take(nodes.len() as int) =~= child_totals(raw));
        lemma_tally_node(start, raw);
    }
    let so_far: u64 = match cost_centres_ticks.get(&cost_centre) {
        Some(count) => *count,
        None => 0,
    };
    cost_centres_ticks.insert(cost_centre, so_far + ticks);
    let names = resolve(cost_centre, cost_centres);
    let out = AnalysedProfile {
        label: names.0,
        module: names.1,
        src_loc: names.2,
        entries,
        alloc,
        ticks,
        ticks_cumulative: below + ticks,
        children: sort_desc_by_key(done, &keys),
    };
    proof {
        let in_order = analysed_children(raw, table);
        let totals = cumulative_ticks(in_order);
        assert(key_seq(keys@) =~= totals);
        lemma_order_desc_is_stable(totals);
        assert(out@.children =~= sorted_desc(in_order, totals));
        law_cumulative_ticks(raw, table);
        law_children_sorted(raw, table);
    }
    out
}

/// The ticks of a node and of all the nodes below it, where they fit a `u64`;
/// `None` where they do not.
pub fn checked_total_ticks(profile: &Profile) -> (total: Option<u64>)
    ensures
        total_ticks(profile@) <= u64::MAX ==> total == Some(total_ticks(profile@) as u64),
        total_ticks(profile@) > u64::MAX ==> total.is_none(),
    decreases profile,
{
    let ghost totals = child_totals(profile@);
    let mut total: u64 = profile.ticks;
    let mut i: usize = 0;
    while i < profile.children.len()
        invariant
            totals == child_totals(profile@),
            i <= profile.children.len(),
            total == profile.ticks + sum(totals.take(i as int)),
        decreases profile.children.len() - i,
    {
        proof {
            assert(profile.children[i as int]@ == profile@.children[i as int]);
            lemma_sum_take(totals, i as int);
        }
        let below = match checked_total_ticks(&profile.children[i]) {
            Some(ticks) => ticks,
            None => {
                return None;
            },
        };
        total = match total.checked_add(below) {
            Some(ticks) => ticks,
            None => {
                return None;
            },
        };
        i = i + 1;
    }
    assert(totals.take(i as int) =~= totals);
    Some(total)
}

/// Builds the lookup table of a cost-centre list: each entry under its id.
/// Where two entries have the same id, the later one stays.
pub fn index_cost_centres(centres: &Vec<CostCentre>) -> (table: HashMap<u64, CostCentre>)
    ensures
        table_view(table@) == table_index(views(centres@)),
{
    let mut table: HashMap<u64, CostCentre> = HashMap::new();
    let ghost listed = views(centres@);
    assert(table_view(table@) =~= table_index(listed.take(0)));
    let mut i: usize = 0;
    while i < centres.len()
        invariant
            i <= centres.len(),
            listed == views(centres@),
            table_view(table@) == table_index(listed.take(i as int)),
        decreases centres.len() - i,
    {
        let ghost before = table@;
        let centre = centres[i].clone();
        table.insert(centre.id, centre);
        proof {
            assert(listed.take(i + 1).drop_last() =~= listed.take(i as int));
            assert(table_view(table@) =~= table_view(before).insert(
                centres@[i as int].id,
                centres@[i as int]@,
            ));
        }
        i = i + 1;
    }
    assert(listed.take(centres.len() as int) =~= listed);
    table
}

/// Pairs each cost centre of the list with the ticks counted for its id,
/// zero where there is no count, and sorts the pairs: most ticks first, pairs
/// with equal ticks in the order of the list.
pub fn summarise(centres: Vec<CostCentre>, counts: &HashMap<u64, u64>) -> (rows: Vec<
    AnalysedCostCentre,
>)
    ensures
        views(rows@) == sorted_desc(
            counted(views(centres@), counts@),
            row_ticks(counted(views(centres@), counts@)),
        ),
{
    let ghost expected = counted(views(centres@), counts@);
    let mut rows: Vec<AnalysedCostCentre> = Vec::new();
    let mut keys: Vec<u64> = Vec::new();
    for cost_centre in it: centres
        invariant
            it.seq() == centres@,
            expected == counted(views(centres@), counts@),
            rows.len() == it.index(),
            keys.len() == it.index(),
            forall|j: int| 0 <= j < it.index() ==> (#[trigger] rows@[j])@ == expected[j],
            forall|j: int| 0 <= j < it.index() ==> #[trigger] keys@[j] == expected[j].ticks,
    {
        let ticks: u64 = match counts.get(&cost_centre.id) {
            Some(count) => *count,
            None => 0,
        };
        keys.push(ticks);
        rows.push(AnalysedCostCentre { cost_centre, ticks });
    }
    let sorted = sort_desc_by_key(rows, &keys);
    proof {
        let ticks = row_ticks(expected);
        assert(key_seq(keys@) =~= ticks);
        lemma_order_desc_is_stable(ticks);
        assert(views(sorted@) =~= sorted_desc(expected, ticks));
    }
    sorted
}

/// Analyses a document: the profile tree against the table of its cost
/// centres, and the cost centres by the ticks of the nodes that refer to
/// them. What the document says of the run is handed on as it is.
///
/// The total ticks of the tree must fit a `u64`; `checked_total_ticks` tells
/// whether they do.
pub fn analyse(input: TopLevel<Profile, CostCentre>) -> (out: TopLevel<
    AnalysedProfile,
    AnalysedCostCentre,
>)
    requires
        total_ticks(input.profile@) <= u64::MAX,
    ensures
        out.program == input.program,
        out.arguments == input.arguments,
        out.rts_arguments == input.rts_arguments,
        out.end_time == input.end_time,
        out.initial_capabilities == input.initial_capabilities,
        out.total_time_bits == input.total_time_bits,
        out.total_ticks == input.total_ticks,
        out.tick_interval == input.tick_interval,
        out.total_alloc == input.total_alloc,
        out.profile@ == analysed(input.profile@, table_index(views(input.cost_centres@))),
        views(out.cost_centres@) == summary(views(input.cost_centres@), input.profile@),
        cumulative_at_every_depth(out.profile@),
        stable_at_every_depth(input.profile@, out.profile@),
        forall|i: int, j: int|
            0 <= i < j < out.cost_centres.len() ==> (#[trigger] out.cost_centres[i]).ticks
                >= (#[trigger] out.cost_centres[j]).ticks,
        ids_distinct(views(input.cost_centres@)) && lists_every_centre(
            views(input.cost_centres@),
            input.profile@,
        ) ==> sum(row_ticks(views(out.cost_centres@))) == total_ticks(input.profile@),
{
    let ghost raw = input.profile@;
    let ghost listed = views(input.cost_centres@);
    let TopLevel {
        program,
        arguments,
        rts_arguments,
        end_time,
        initial_capabilities,
        total_time_bits,
        total_ticks,
        tick_interval,
        total_alloc,
        cost_centres,
        profile,
    } = input;
    let table = index_cost_centres(&cost_centres);
    let mut counts: HashMap<u64, u64> = HashMap::new();
    proof {
        assert forall|id: u64| count_at(counts@, id) + #[trigger] centre_ticks(raw, id)
            <= u64::MAX by {
            law_centre_ticks_within_total(raw, id);
        }
    }
    let profile = analyse_profile(profile, &table, &mut counts);
    proof {
        assert forall|i: int| 0 <= i < listed.len() implies count_at(counts@, listed[i].id)
            == centre_ticks(raw, #[trigger] listed[i].id) by {
            let id = listed[i].id;
            law_centre_ticks_within_total(raw, id);
            if !refers_to(raw, id) {
                law_no_reference_no_ticks(raw, id);
            }
        }
        assert(counted(listed, counts@) =~= tabulated(listed, raw));
    }
    let cost_centres = summarise(cost_centres, &counts);
    proof {
        if ids_distinct(listed) && lists_every_centre(listed, raw) {
            law_summary_total(listed, raw);
        }
        law_summary_sorted(listed, raw);
        assert forall|i: int, j: int| 0 <= i < j < cost_centres.len() implies (
        #[trigger] cost_centres[i]).ticks >= (#[trigger] cost_centres[j]).ticks by {
            let rows = views(cost_centres@);
            assert(rows[i].ticks >= rows[j].ticks);
        }
    }
    TopLevel {
        program,
        arguments,
        rts_arguments,
        end_time,
        initial_capabilities,
        total_time_bits,
        total_ticks,
        tick_interval,
        total_alloc,
        cost_centres,
        profile,
    }
}

/// Analyses a document where the total ticks of its tree fit a `u64`, and
/// hands the document back as it came where they do not.
pub fn analyse_checked(input: TopLevel<Profile, CostCentre>) -> (result: Result<
    TopLevel<AnalysedProfile, AnalysedCostCentre>,
    TopLevel<Profile, CostCentre>,
>)
    ensures
        result.is_ok() <==> total_ticks(input.profile@) <= u64::MAX,
        result matches Ok(out) ==> is_analysis_of(out, input),
        result matches Err(refused) ==> refused == input,
{
    match checked_total_ticks(&input.profile) {
        Some(_) => Ok(analyse(input)),
        None => Err(input),
    }
}

} // verus!
