//! Analysis of profiler call trees.
//!
//! A profile is a tree of cost-centre nodes carrying tick and allocation
//! counts. The analysis resolves each node against a cost-centre table,
//! computes cumulative ticks bottom-up, orders every sibling list by
//! cumulative ticks (largest first, stable), and totals the ticks that fall
//! on each cost centre.
//!
//! - `model`: the data of a document, and the values that stand for them in
//!   contracts.
//! - `semantics`: what the analysis yields, as functions of the raw data.
//! - `analysis`: the analysis itself.
//! - `order`, `sorting`: the stable descending order and the sort that finds it.
//! - `sums`: sums of sequences.
//! - `tally`: the counts by cost centre while a node is analysed.
//! - `laws`: what holds of every analysis.

pub mod analysis;
pub mod laws;
pub mod model;
pub mod order;
pub mod semantics;
pub mod sorting;
pub mod sums;
pub mod tally;
