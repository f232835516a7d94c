use std::collections::HashMap;

use profile_analysis::analysis::{
    analyse, analyse_checked, analyse_profile, checked_total_ticks, index_cost_centres, resolve,
    summarise,
};
use profile_analysis::model::{AnalysedCostCentre, AnalysedProfile, CostCentre, Profile, TopLevel};

fn centre(id: u64, label: &str) -> CostCentre {
    CostCentre {
        id,
        label: label.to_string(),
        module: format!("Mod.{}", label),
        src_loc: format!("{}.hs:{}", label, id),
        is_caf: id % 2 == 0,
    }
}

fn node(id: u64, entries: u64, ticks: u64, children: Vec<Profile>) -> Profile {
    Profile { cost_centre: id, entries, alloc: 0, ticks, children }
}

fn leaf(id: u64, ticks: u64) -> Profile {
    node(id, 1, ticks, vec![])
}

fn document(cost_centres: Vec<CostCentre>, profile: Profile) -> TopLevel<Profile, CostCentre> {
    TopLevel {
        program: "prog".to_string(),
        arguments: vec!["-x".to_string(), "input.txt".to_string()],
        rts_arguments: vec!["-p".to_string()],
        end_time: "Mon Jan  1 00:00 2024".to_string(),
        initial_capabilities: 4,
        total_time_bits: 1.25f64.to_bits(),
        total_ticks: 1234,
        tick_interval: 1000,
        total_alloc: 987654321,
        cost_centres,
        profile,
    }
}

fn table(centres: &[CostCentre]) -> HashMap<u64, CostCentre> {
    index_cost_centres(&centres.to_vec())
}

fn labels(nodes: &[AnalysedProfile]) -> Vec<String> {
    nodes.iter().map(|n| n.label.clone()).collect()
}

fn sum_of_cumulative(nodes: &[AnalysedProfile]) -> u64 {
    nodes.iter().map(|n| n.ticks_cumulative).sum()
}

fn cumulative_holds_everywhere(node: &AnalysedProfile) -> bool {
    node.ticks_cumulative == node.ticks + sum_of_cumulative(&node.children)
        && node.children.iter().all(cumulative_holds_everywhere)
}

fn sorted_everywhere(node: &AnalysedProfile) -> bool {
    node.children.windows(2).all(|w| w[0].ticks_cumulative >= w[1].ticks_cumulative)
        && node.children.iter().all(sorted_everywhere)
}

fn raw_ticks(node: &Profile) -> u64 {
    node.ticks + node.children.iter().map(raw_ticks).sum::<u64>()
}

fn example_tree() -> Profile {
    node(1, 1, 5, vec![node(2, 2, 3, vec![]), node(3, 1, 10, vec![])])
}

fn example_centres() -> Vec<CostCentre> {
    vec![centre(1, "main"), centre(2, "foo"), centre(3, "bar")]
}

fn deep_tree() -> Profile {
    node(
        1,
        1,
        2,
        vec![
            node(2, 3, 1, vec![leaf(3, 4), leaf(2, 9), leaf(1, 4)]),
            node(3, 1, 20, vec![]),
            node(2, 5, 0, vec![node(3, 1, 6, vec![leaf(1, 7), leaf(2, 8)])]),
        ],
    )
}

#[test]
fn example_tree_is_summed_and_reordered() {
    let centres = example_centres();
    let mut counts = HashMap::new();
    let out = analyse_profile(example_tree(), &table(&centres), &mut counts);
    assert_eq!(out.label, "main");
    assert_eq!(out.ticks, 5);
    assert_eq!(out.ticks_cumulative, 18);
    assert_eq!(labels(&out.children), vec!["bar", "foo"]);
    assert_eq!(out.children[0].ticks_cumulative, 10);
    assert_eq!(out.children[1].ticks_cumulative, 3);
    assert_eq!(out.children[1].entries, 2);
}

#[test]
fn analysed_node_copies_counts_and_names() {
    let centres = example_centres();
    let mut counts = HashMap::new();
    let raw = Profile { cost_centre: 2, entries: 7, alloc: 4096, ticks: 11, children: vec![] };
    let out = analyse_profile(raw, &table(&centres), &mut counts);
    assert_eq!(
        out,
        AnalysedProfile {
            label: "foo".to_string(),
            module: "Mod.foo".to_string(),
            src_loc: "foo.hs:2".to_string(),
            entries: 7,
            alloc: 4096,
            ticks: 11,
            ticks_cumulative: 11,
            children: vec![],
        }
    );
}

#[test]
fn unknown_cost_centre_gets_error_names() {
    let centres = example_centres();
    let mut counts = HashMap::new();
    let out = analyse_profile(leaf(99, 4), &table(&centres), &mut counts);
    assert_eq!(out.label, "ERROR");
    assert_eq!(out.module, "ERROR");
    assert_eq!(out.src_loc, "ERROR");
    assert_eq!(out.ticks_cumulative, 4);
    assert_eq!(counts.get(&99), Some(&4));
}

#[test]
fn unknown_cost_centre_below_the_root_does_not_stop_the_analysis() {
    let centres = example_centres();
    let mut counts = HashMap::new();
    let raw = node(1, 1, 1, vec![leaf(99, 2), leaf(2, 3)]);
    let out = analyse_profile(raw, &table(&centres), &mut counts);
    assert_eq!(out.ticks_cumulative, 6);
    assert_eq!(labels(&out.children), vec!["foo", "ERROR"]);
    assert_eq!(out.children[1].module, "ERROR");
    assert_eq!(out.children[1].src_loc, "ERROR");
}

#[test]
fn resolve_gives_names_or_the_stand_in() {
    let centres = example_centres();
    let table = table(&centres);
    assert_eq!(
        resolve(3, &table),
        ("bar".to_string(), "Mod.bar".to_string(), "bar.hs:3".to_string())
    );
    assert_eq!(
        resolve(4, &table),
        ("ERROR".to_string(), "ERROR".to_string(), "ERROR".to_string())
    );
}

#[test]
fn children_with_equal_cumulative_ticks_keep_their_order() {
    let centres = vec![centre(1, "a"), centre(2, "b"), centre(3, "c"), centre(4, "d")];
    let mut counts = HashMap::new();
    let raw = node(
        1,
        1,
        0,
        vec![leaf(2, 5), leaf(3, 7), leaf(4, 5), node(1, 1, 2, vec![leaf(2, 5)]), leaf(3, 5)],
    );
    let out = analyse_profile(raw, &table(&centres), &mut counts);
    let got: Vec<(String, u64)> =
        out.children.iter().map(|c| (c.label.clone(), c.ticks_cumulative)).collect();
    assert_eq!(
        got,
        vec![
            ("c".to_string(), 7),
            ("a".to_string(), 7),
            ("b".to_string(), 5),
            ("d".to_string(), 5),
            ("c".to_string(), 5),
        ]
    );
}

#[test]
fn cumulative_ticks_hold_at_every_depth() {
    let centres = example_centres();
    let mut counts = HashMap::new();
    let out = analyse_profile(deep_tree(), &table(&centres), &mut counts);
    assert_eq!(out.ticks_cumulative, 61);
    assert!(cumulative_holds_everywhere(&out));
}

#[test]
fn children_are_sorted_at_every_depth() {
    let centres = example_centres();
    let mut counts = HashMap::new();
    let out = analyse_profile(deep_tree(), &table(&centres), &mut counts);
    assert!(sorted_everywhere(&out));
    let top: Vec<u64> = out.children.iter().map(|c| c.ticks_cumulative).collect();
    assert_eq!(top, vec![21, 20, 18]);
    let second: Vec<u64> = out.children[0].children.iter().map(|c| c.ticks_cumulative).collect();
    assert_eq!(second, vec![21]);
    let third: Vec<u64> =
        out.children[0].children[0].children.iter().map(|c| c.ticks_cumulative).collect();
    assert_eq!(third, vec![8, 7]);
    let other: Vec<(u64, String)> =
        out.children[2].children.iter().map(|c| (c.ticks_cumulative, c.label.clone())).collect();
    assert_eq!(
        other,
        vec![(9, "foo".to_string()), (4, "bar".to_string()), (4, "main".to_string())]
    );
}

#[test]
fn analysed_tree_has_as_many_children_as_the_raw_tree() {
    let centres = example_centres();
    let mut counts = HashMap::new();
    let out = analyse_profile(deep_tree(), &table(&centres), &mut counts);
    assert_eq!(out.children.len(), 3);
    assert_eq!(out.children[2].children.len(), 3);
    assert_eq!(out.children[1].children.len(), 0);
}

#[test]
fn ticks_are_counted_by_cost_centre() {
    let centres = example_centres();
    let mut counts = HashMap::new();
    analyse_profile(deep_tree(), &table(&centres), &mut counts);
    assert_eq!(counts.len(), 3);
    assert_eq!(counts.get(&1), Some(&13));
    assert_eq!(counts.get(&2), Some(&18));
    assert_eq!(counts.get(&3), Some(&30));
}

#[test]
fn counts_are_added_to_what_is_there() {
    let centres = example_centres();
    let mut counts = HashMap::new();
    counts.insert(2u64, 100u64);
    counts.insert(50u64, 1u64);
    analyse_profile(example_tree(), &table(&centres), &mut counts);
    assert_eq!(counts.len(), 4);
    assert_eq!(counts.get(&1), Some(&5));
    assert_eq!(counts.get(&2), Some(&103));
    assert_eq!(counts.get(&3), Some(&10));
    assert_eq!(counts.get(&50), Some(&1));
}

#[test]
fn a_node_without_ticks_still_gets_a_count() {
    let centres = example_centres();
    let mut counts = HashMap::new();
    analyse_profile(leaf(3, 0), &table(&centres), &mut counts);
    assert_eq!(counts.get(&3), Some(&0));
    assert_eq!(counts.len(), 1);
}

#[test]
fn later_entry_of_the_table_replaces_an_earlier_one() {
    let centres = vec![centre(1, "first"), centre(2, "other"), centre(1, "second")];
    let table = index_cost_centres(&centres);
    assert_eq!(table.len(), 2);
    assert_eq!(table.get(&1), Some(&centres[2]));
    assert_eq!(table.get(&2), Some(&centres[1]));
    let out = analyse(document(centres, leaf(1, 3)));
    assert_eq!(out.profile.label, "second");
    assert_eq!(out.profile.src_loc, "second.hs:1");
}

#[test]
fn empty_table_resolves_nothing() {
    let table = index_cost_centres(&vec![]);
    assert!(table.is_empty());
    let out = analyse(document(vec![], example_tree()));
    assert_eq!(out.profile.label, "ERROR");
    assert_eq!(out.profile.ticks_cumulative, 18);
    assert_eq!(out.cost_centres, vec![]);
}

#[test]
fn summary_is_sorted_by_ticks() {
    let out = analyse(document(example_centres(), example_tree()));
    let got: Vec<(String, u64)> =
        out.cost_centres.iter().map(|c| (c.cost_centre.label.clone(), c.ticks)).collect();
    assert_eq!(
        got,
        vec![("bar".to_string(), 10), ("main".to_string(), 5), ("foo".to_string(), 3)]
    );
    assert_eq!(out.cost_centres[0].cost_centre, centre(3, "bar"));
}

#[test]
fn summary_rows_with_equal_ticks_keep_the_order_of_the_table() {
    let centres = vec![
        centre(5, "e"),
        centre(1, "a"),
        centre(4, "d"),
        centre(2, "b"),
        centre(3, "c"),
        centre(6, "f"),
    ];
    let raw = node(1, 1, 4, vec![leaf(2, 9), leaf(3, 4), leaf(4, 0), leaf(6, 9)]);
    let out = analyse(document(centres, raw));
    let got: Vec<(String, u64)> =
        out.cost_centres.iter().map(|c| (c.cost_centre.label.clone(), c.ticks)).collect();
    assert_eq!(
        got,
        vec![
            ("b".to_string(), 9),
            ("f".to_string(), 9),
            ("a".to_string(), 4),
            ("c".to_string(), 4),
            ("e".to_string(), 0),
            ("d".to_string(), 0),
        ]
    );
}

#[test]
fn summary_ticks_sum_to_the_ticks_of_the_tree() {
    let raw = deep_tree();
    let total = raw_ticks(&raw);
    let out = analyse(document(example_centres(), raw));
    let summed: u64 = out.cost_centres.iter().map(|c| c.ticks).sum();
    assert_eq!(total, 61);
    assert_eq!(summed, 61);
    assert_eq!(out.profile.ticks_cumulative, 61);
}

#[test]
fn summary_leaves_out_ticks_of_unknown_cost_centres() {
    let raw = node(1, 1, 5, vec![leaf(99, 7), leaf(2, 1)]);
    let out = analyse(document(example_centres(), raw));
    let summed: u64 = out.cost_centres.iter().map(|c| c.ticks).sum();
    assert_eq!(summed, 6);
    assert_eq!(out.profile.ticks_cumulative, 13);
}

#[test]
fn summary_counts_a_repeated_id_for_each_of_its_entries() {
    let centres = vec![centre(1, "first"), centre(1, "second")];
    let out = analyse(document(centres.clone(), leaf(1, 3)));
    assert_eq!(
        out.cost_centres,
        vec![
            AnalysedCostCentre { cost_centre: centres[0].clone(), ticks: 3 },
            AnalysedCostCentre { cost_centre: centres[1].clone(), ticks: 3 },
        ]
    );
}

#[test]
fn summarise_pairs_and_sorts() {
    let mut counts = HashMap::new();
    counts.insert(2u64, 8u64);
    counts.insert(3u64, 8u64);
    counts.insert(7u64, 100u64);
    let rows = summarise(example_centres(), &counts);
    assert_eq!(
        rows,
        vec![
            AnalysedCostCentre { cost_centre: centre(2, "foo"), ticks: 8 },
            AnalysedCostCentre { cost_centre: centre(3, "bar"), ticks: 8 },
            AnalysedCostCentre { cost_centre: centre(1, "main"), ticks: 0 },
        ]
    );
}

#[test]
fn run_metadata_is_handed_on_unchanged() {
    let input = document(example_centres(), example_tree());
    let out = analyse(document(example_centres(), example_tree()));
    assert_eq!(out.program, input.program);
    assert_eq!(out.arguments, input.arguments);
    assert_eq!(out.rts_arguments, input.rts_arguments);
    assert_eq!(out.end_time, input.end_time);
    assert_eq!(out.initial_capabilities, 4);
    assert_eq!(f64::from_bits(out.total_time_bits), 1.25);
    assert_eq!(out.total_ticks, 1234);
    assert_eq!(out.tick_interval, 1000);
    assert_eq!(out.total_alloc, 987654321);
}

#[test]
fn analysis_of_a_document_agrees_with_analysis_of_its_tree() {
    let centres = example_centres();
    let mut counts = HashMap::new();
    let tree = analyse_profile(deep_tree(), &table(&centres), &mut counts);
    let out = analyse(document(centres, deep_tree()));
    assert_eq!(out.profile, tree);
}

#[test]
fn single_node_tree() {
    let out = analyse(document(example_centres(), leaf(2, 0)));
    assert_eq!(out.profile.ticks_cumulative, 0);
    assert_eq!(out.profile.children, vec![]);
    let ticks: Vec<u64> = out.cost_centres.iter().map(|c| c.ticks).collect();
    assert_eq!(ticks, vec![0, 0, 0]);
    let ids: Vec<u64> = out.cost_centres.iter().map(|c| c.cost_centre.id).collect();
    assert_eq!(ids, vec![1, 2, 3]);
}

#[test]
fn deep_chain_is_analysed() {
    let mut raw = leaf(1, 1);
    for _ in 0..2000 {
        raw = node(2, 1, 1, vec![raw]);
    }
    let out = analyse(document(example_centres(), raw));
    assert_eq!(out.profile.ticks_cumulative, 2001);
    let got: Vec<(u64, u64)> =
        out.cost_centres.iter().map(|c| (c.cost_centre.id, c.ticks)).collect();
    assert_eq!(got, vec![(2, 2000), (1, 1), (3, 0)]);
}

#[test]
fn total_ticks_that_fit_are_given() {
    assert_eq!(checked_total_ticks(&deep_tree()), Some(61));
    assert_eq!(checked_total_ticks(&leaf(1, u64::MAX)), Some(u64::MAX));
    let raw = node(1, 1, u64::MAX - 3, vec![leaf(2, 1), leaf(3, 2)]);
    assert_eq!(checked_total_ticks(&raw), Some(u64::MAX));
}

#[test]
fn total_ticks_that_do_not_fit_are_refused() {
    let raw = node(1, 1, u64::MAX - 2, vec![leaf(2, 1), leaf(3, 2)]);
    assert_eq!(checked_total_ticks(&raw), None);
    let nested = node(1, 1, 0, vec![node(2, 1, 1, vec![leaf(3, u64::MAX)])]);
    assert_eq!(checked_total_ticks(&nested), None);
}

#[test]
fn checked_analysis_analyses_what_fits() {
    let out = analyse_checked(document(example_centres(), deep_tree()));
    assert_eq!(out, Ok(analyse(document(example_centres(), deep_tree()))));
    let raw = node(1, 1, u64::MAX - 3, vec![leaf(2, 1), leaf(3, 2)]);
    let out = analyse_checked(document(example_centres(), raw)).unwrap();
    assert_eq!(out.profile.ticks_cumulative, u64::MAX);
}

#[test]
fn checked_analysis_hands_back_what_does_not_fit() {
    let raw = node(1, 1, u64::MAX, vec![leaf(2, 1)]);
    let out = analyse_checked(document(example_centres(), raw.clone()));
    assert_eq!(out, Err(document(example_centres(), raw)));
}

#[test]
fn largest_total_is_analysed() {
    let raw = node(1, 1, u64::MAX - 3, vec![leaf(1, 1), leaf(1, 2)]);
    let out = analyse(document(example_centres(), raw));
    assert_eq!(out.profile.ticks_cumulative, u64::MAX);
    assert_eq!(out.cost_centres[0].ticks, u64::MAX);
    assert_eq!(out.cost_centres[0].cost_centre.id, 1);
}

#[test]
fn clone_of_a_cost_centre_is_equal_to_it() {
    let c = centre(8, "eight");
    assert_eq!(c.clone(), c);
    let row = AnalysedCostCentre { cost_centre: c, ticks: 12 };
    assert_eq!(row.clone(), row);
}

#[test]
fn clone_of_a_tree_is_equal_to_it() {
    let raw = deep_tree();
    assert_eq!(raw.clone(), raw);
    assert_eq!(raw.clone().children[2].children[0].children.len(), 2);
    let mut counts = HashMap::new();
    let out = analyse_profile(raw, &table(&example_centres()), &mut counts);
    assert_eq!(out.clone(), out);
}
