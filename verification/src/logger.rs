//! The diagnostics sink: an external collaborator its users implement,
//! invoked with a snapshot of the search state after each cost level.
//! Purely observational; nothing the sink does influences control flow.

use vstd::prelude::*;
use roaring::RoaringBitmap;
use crate::empty_paths_cache::EmptyPathsCache;
use crate::ranking_rule_graph::RankingRuleGraph;

verus! {

/// Receives, per cost level, the graph, the discovered paths as sequences of
/// edge ids, the empty-path cache, the active universe, per-node distances,
/// and the cost level just completed.
pub trait SearchLogger {
    fn log_typo_state(
        &mut self,
        graph: &RankingRuleGraph,
        paths: &Vec<Vec<u32>>,
        empty_paths_cache: &EmptyPathsCache,
        universe: &RoaringBitmap,
        distances: &Vec<Vec<u64>>,
        cost: u64,
    );
}

} // verus!
