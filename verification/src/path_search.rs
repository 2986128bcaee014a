//! The path search / bucket enumerator: walks the ranking-rule graph from
//! the start sentinel to the end sentinel, resolves and intersects document
//! sets along each path, and partitions the universe into buckets of
//! strictly increasing cost. The empty-path cache only skips work: the
//! buckets produced are pinned to a specification that never mentions it.

use vstd::prelude::*;
use roaring::RoaringBitmap;
use crate::bitmap::{
    bitmap_clone, bitmap_difference_with, bitmap_intersect_with, bitmap_is_empty, bitmap_new,
    bitmap_set, bitmap_union_with,
};
use crate::empty_paths_cache::{is_prefix_of, EmptyPathsCache};
use crate::error::SearchError;
use crate::logger::SearchLogger;
use crate::postings::{DbCache, PostingsIndexV};
use crate::ranking_rule_graph::{edge_matches_graph, rrg_wf, RankingRuleGraph, RankingRuleGraphV};
use crate::typo::{resolve_typo_edge, typo_edges_spec, EdgeDetails, EdgeDetailsV, TypoGraph};
use crate::query::QueryGraphV;

verus! {

/// `p` is a chain of edge ids leading from `node` to the end sentinel.
pub open spec fn is_path_from(g: RankingRuleGraphV, p: Seq<u32>, node: int) -> bool
    decreases p.len(),
{
    if p.len() == 0 {
        node == g.n_nodes - 1
    } else {
        &&& 0 <= p[0] < g.edges.len()
        &&& g.edges[p[0] as int].from_node == node
        &&& is_path_from(g, p.drop_first(), g.edges[p[0] as int].to_node)
    }
}

/// `p` leads from the start sentinel to the end sentinel.
pub open spec fn is_path(g: RankingRuleGraphV, p: Seq<u32>) -> bool {
    is_path_from(g, p, 0)
}

/// The total cost of a path: the sum of its edge costs.
pub open spec fn path_cost(g: RankingRuleGraphV, p: Seq<u32>) -> int
    decreases p.len(),
{
    if p.len() == 0 {
        0
    } else {
        g.edges[p[0] as int].cost + path_cost(g, p.drop_first())
    }
}

/// What one edge leaves of a running document set: an unconditional edge
/// passes everything, a data edge intersects with what it resolves to. An
/// edge that fails to decode is taken as resolving to nothing; the driver
/// reports the failure instead of ever using that value.
pub open spec fn edge_restrict(
    idx: PostingsIndexV,
    g: RankingRuleGraphV,
    acc: Set<u32>,
    e: int,
) -> Set<u32> {
    match g.edges[e].details {
        EdgeDetailsV::Unconditional => acc,
        EdgeDetailsV::Data(d) => match resolve_typo_edge(idx, d) {
            Some(s) => acc.intersect(s),
            None => Set::<u32>::empty(),
        },
    }
}

/// The documents left of `acc` after resolving and intersecting every edge
/// of `p` in order.
pub open spec fn path_docids(
    idx: PostingsIndexV,
    g: RankingRuleGraphV,
    acc: Set<u32>,
    p: Seq<u32>,
) -> Set<u32>
    decreases p.len(),
{
    if p.len() == 0 {
        acc
    } else {
        path_docids(idx, g, edge_restrict(idx, g, acc, p[0] as int), p.drop_first())
    }
}

/// Every data edge of the graph resolves against this snapshot.
pub open spec fn index_resolvable(idx: PostingsIndexV, g: RankingRuleGraphV) -> bool {
    forall|e: int|
        0 <= e < g.edges.len() && (#[trigger] g.edges[e]).details is Data ==> resolve_typo_edge(
            idx,
            g.edges[e].details->0,
        ) is Some
}

/// Some path of total cost `c` reaches document `x`.
pub open spec fn covered_at(
    idx: PostingsIndexV,
    g: RankingRuleGraphV,
    universe: Set<u32>,
    x: u32,
    c: int,
) -> bool {
    exists|p: Seq<u32>|
        is_path(g, p) && path_cost(g, p) == c && (#[trigger] path_docids(
            idx,
            g,
            universe,
            p,
        )).contains(x)
}

/// Some cheaper path already reaches document `x`.
pub open spec fn covered_below(
    idx: PostingsIndexV,
    g: RankingRuleGraphV,
    universe: Set<u32>,
    x: u32,
    c: int,
) -> bool {
    exists|c2: int| 0 <= c2 < c && covered_at(idx, g, universe, x, c2)
}

/// The bucket at cost `c`: the documents whose cheapest covering path costs
/// exactly `c`.
pub open spec fn level_set(
    idx: PostingsIndexV,
    g: RankingRuleGraphV,
    universe: Set<u32>,
    c: int,
) -> Set<u32> {
    Set::new(
        |x: u32|
            covered_at(idx, g, universe, x, c) && !covered_below(idx, g, universe, x, c),
    )
}

/// The buckets for the cost levels below `c`, in increasing cost order,
/// empty levels skipped.
pub open spec fn buckets_upto(
    idx: PostingsIndexV,
    g: RankingRuleGraphV,
    universe: Set<u32>,
    c: int,
) -> Seq<(u64, Set<u32>)>
    decreases c,
{
    if c <= 0 {
        Seq::empty()
    } else {
        let prev = buckets_upto(idx, g, universe, c - 1);
        if level_set(idx, g, universe, c - 1) == Set::<u32>::empty() {
            prev
        } else {
            prev.push(((c - 1) as u64, level_set(idx, g, universe, c - 1)))
        }
    }
}

/// All the buckets: every cost level up to the largest any path can cost.
pub open spec fn spec_buckets(
    idx: PostingsIndexV,
    g: RankingRuleGraphV,
    universe: Set<u32>,
) -> Seq<(u64, Set<u32>)> {
    buckets_upto(idx, g, universe, 255 * (g.n_nodes - 1) + 1)
}

pub open spec fn bucket_views(s: Seq<(u64, RoaringBitmap)>) -> Seq<(u64, Set<u32>)> {
    s.map_values(|p: (u64, RoaringBitmap)| (p.0, bitmap_set(p.1)))
}

/// Every recorded sequence of the empty-path cache resolves to nothing
/// against this universe.
pub open spec fn epc_ok(
    cache: Seq<Seq<u32>>,
    idx: PostingsIndexV,
    g: RankingRuleGraphV,
    universe: Set<u32>,
) -> bool {
    forall|m: int|
        0 <= m < cache.len() ==> path_docids(idx, g, universe, #[trigger] cache[m])
            == Set::<u32>::empty()
}

/// Splitting a path splits its resolution.
pub proof fn lemma_path_docids_concat(
    idx: PostingsIndexV,
    g: RankingRuleGraphV,
    acc: Set<u32>,
    q: Seq<u32>,
    r: Seq<u32>,
)
    ensures
        path_docids(idx, g, acc, q + r) == path_docids(idx, g, path_docids(idx, g, acc, q), r),
    decreases q.len(),
{
    if q.len() == 0 {
        assert(q + r =~= r);
    } else {
        assert((q + r)[0] == q[0]);
        assert((q + r).drop_first() =~= q.drop_first() + r);
        lemma_path_docids_concat(idx, g, edge_restrict(idx, g, acc, q[0] as int), q.drop_first(), r);
    }
}

/// Resolution only ever narrows the running set.
pub proof fn lemma_path_docids_subset(
    idx: PostingsIndexV,
    g: RankingRuleGraphV,
    acc: Set<u32>,
    p: Seq<u32>,
)
    ensures
        path_docids(idx, g, acc, p).subset_of(acc),
    decreases p.len(),
{
    if p.len() > 0 {
        assert(edge_restrict(idx, g, acc, p[0] as int).subset_of(acc));
        lemma_path_docids_subset(idx, g, edge_restrict(idx, g, acc, p[0] as int), p.drop_first());
    }
}

/// A path visits at most every node once: its length is bounded.
pub proof fn lemma_path_len(g: RankingRuleGraphV, p: Seq<u32>, node: int)
    requires
        rrg_wf(g),
        is_path_from(g, p, node),
        0 <= node,
    ensures
        p.len() + node <= g.n_nodes - 1,
    decreases p.len(),
{
    if p.len() > 0 {
        lemma_path_len(g, p.drop_first(), g.edges[p[0] as int].to_node);
    }
}

/// A path's cost is non-negative and bounded by 255 per edge.
pub proof fn lemma_path_cost_bounds(g: RankingRuleGraphV, p: Seq<u32>)
    ensures
        0 <= path_cost(g, p) <= 255 * p.len(),
    decreases p.len(),
{
    if p.len() > 0 {
        lemma_path_cost_bounds(g, p.drop_first());
    }
}

/// Every edge id of a path is a valid edge.
pub proof fn lemma_edge_ids_valid(g: RankingRuleGraphV, p: Seq<u32>, node: int)
    requires
        is_path_from(g, p, node),
    ensures
        forall|i: int| 0 <= i < p.len() ==> 0 <= (#[trigger] p[i]) < g.edges.len(),
    decreases p.len(),
{
    if p.len() > 0 {
        lemma_edge_ids_valid(g, p.drop_first(), g.edges[p[0] as int].to_node);
        assert forall|i: int| 0 <= i < p.len() implies 0 <= (#[trigger] p[i]) < g.edges.len() by {
            if i > 0 {
                assert(p[i] == p.drop_first()[i - 1]);
            }
        }
    }
}

/// Once every level in a span is empty, the buckets stop growing.
pub proof fn lemma_buckets_upto_stable(
    idx: PostingsIndexV,
    g: RankingRuleGraphV,
    universe: Set<u32>,
    c1: int,
    c2: int,
)
    requires
        0 <= c1 <= c2,
        forall|cc: int|
            c1 <= cc < c2 ==> level_set(idx, g, universe, cc) == Set::<u32>::empty(),
    ensures
        buckets_upto(idx, g, universe, c2) == buckets_upto(idx, g, universe, c1),
    decreases c2 - c1,
{
    if c1 < c2 {
        lemma_buckets_upto_stable(idx, g, universe, c1, c2 - 1);
    }
}

/// Appends the elements of `src` to `dst`.
#[verifier::loop_isolation(false)]
fn push_all(dst: &mut Vec<u32>, src: &Vec<u32>)
    ensures
        final(dst)@ == old(dst)@ + src@,
{
    let mut i: usize = 0;
    while i < src.len()
        invariant
            i <= src.len(),
            dst@ == old(dst)@ + src@.take(i as int),
        decreases src.len() - i,
    {
        dst.push(src[i]);
        proof {
            assert(dst@ =~= old(dst)@ + src@.take(i as int + 1));
        }
        i = i + 1;
    }
    proof {
        assert(old(dst)@ + src@.take(src@.len() as int) =~= old(dst)@ + src@);
    }
}

/// Copies the first `n` elements of a path.
#[verifier::loop_isolation(false)]
fn vec_take(src: &Vec<u32>, n: usize) -> (r: Vec<u32>)
    requires
        n <= src@.len(),
    ensures
        r@ == src@.take(n as int),
{
    let mut r: Vec<u32> = Vec::new();
    let mut i: usize = 0;
    while i < n
        invariant
            i <= n,
            r@ == src@.take(i as int),
        decreases n - i,
    {
        r.push(src[i]);
        proof {
            assert(r@ =~= src@.take(i as int + 1));
        }
        i = i + 1;
    }
    r
}

/// Enumerates every path from `node` to the end sentinel: everything
/// returned is such a path, and every such path is returned.
#[verifier::loop_isolation(false)]
pub fn paths_from(g: &RankingRuleGraph, node: usize) -> (r: Vec<Vec<u32>>)
    requires
        rrg_wf(g.graph_view()),
        node < g.graph_view().n_nodes,
    ensures
        forall|i: int|
            0 <= i < r@.len() ==> is_path_from(g.graph_view(), (#[trigger] r@[i])@, node as int),
        forall|p: Seq<u32>|
            is_path_from(g.graph_view(), p, node as int) ==> exists|i: int|
                0 <= i < r@.len() && (#[trigger] r@[i])@ == p,
    decreases g.graph_view().n_nodes - node,
{
    let ghost gv = g.graph_view();
    if node == g.n_nodes - 1 {
        let mut r: Vec<Vec<u32>> = Vec::new();
        let empty_path: Vec<u32> = Vec::new();
        r.push(empty_path);
        proof {
            assert(r@[0]@ =~= Seq::<u32>::empty());
            assert(is_path_from(gv, r@[0]@, node as int));
            assert forall|p: Seq<u32>| is_path_from(gv, p, node as int) implies exists|i: int|
                0 <= i < r@.len() && (#[trigger] r@[i])@ == p by {
                if p.len() == 0 {
                    assert(r@[0]@ == p);
                } else {
                    assert(gv.edges[p[0] as int].from_node == node as int);
                    assert(false);
                }
            }
        }
        return r;
    }
    let mut r: Vec<Vec<u32>> = Vec::new();
    let n_edges = g.edges.len();
    let mut e: usize = 0;
    while e < n_edges
        invariant
            e <= n_edges,
            forall|i: int|
                0 <= i < r@.len() ==> is_path_from(gv, (#[trigger] r@[i])@, node as int),
            forall|p: Seq<u32>|
                p.len() > 0 && 0 <= p[0] < e && is_path_from(gv, p, node as int) ==> exists|i: int|
                    0 <= i < r@.len() && (#[trigger] r@[i])@ == p,
        decreases n_edges - e,
    {
        if g.edges[e].from_node == node {
            let to = g.edges[e].to_node;
            proof {
                assert(gv.edges[e as int] == g.edges@[e as int]@);
                assert((node as int) < gv.edges[e as int].to_node);
                assert(gv.edges[e as int].to_node < gv.n_nodes);
            }
            let tails = paths_from(g, to);
            let mut t: usize = 0;
            while t < tails.len()
                invariant
                    t <= tails@.len(),
                    forall|i: int|
                        0 <= i < r@.len() ==> is_path_from(gv, (#[trigger] r@[i])@, node as int),
                    forall|p: Seq<u32>|
                        p.len() > 0 && 0 <= p[0] < e && is_path_from(gv, p, node as int) ==> exists|
                            i: int,
                        |
                            0 <= i < r@.len() && (#[trigger] r@[i])@ == p,
                    forall|j: int| #![trigger tails@[j]]
                        0 <= j < t ==> exists|i: int|
                            0 <= i < r@.len() && (#[trigger] r@[i])@ == seq![e as u32] + tails@[j]@,
                decreases tails@.len() - t,
            {
                let mut path: Vec<u32> = Vec::new();
                path.push(e as u32);
                push_all(&mut path, &tails[t]);
                proof {
                    assert(path@ =~= seq![e as u32] + tails@[t as int]@);
                    assert(path@.drop_first() =~= tails@[t as int]@);
                    assert(is_path_from(gv, path@, node as int));
                }
                let ghost pre = r@;
                r.push(path);
                proof {
                    assert forall|j: int| #![trigger tails@[j]] 0 <= j < t + 1 implies exists|i: int|
                        0 <= i < r@.len() && (#[trigger] r@[i])@ == seq![e as u32] + tails@[j]@ by {
                        if j < t {
                            let w = choose|i: int|
                                0 <= i < pre.len() && (#[trigger] pre[i])@ == seq![e as u32]
                                    + tails@[j]@;
                            assert(r@[w]@ == seq![e as u32] + tails@[j]@);
                        } else {
                            assert(r@[pre.len() as int]@ == seq![e as u32] + tails@[j]@);
                        }
                    }
                    assert forall|p: Seq<u32>|
                        p.len() > 0 && 0 <= p[0] < e && is_path_from(gv, p, node as int)
                            implies exists|i: int|
                        0 <= i < r@.len() && (#[trigger] r@[i])@ == p by {
                        let w = choose|i: int| 0 <= i < pre.len() && (#[trigger] pre[i])@ == p;
                        assert(r@[w]@ == p);
                    }
                }
                t = t + 1;
            }
            proof {
                assert forall|p: Seq<u32>|
                    p.len() > 0 && 0 <= p[0] < e + 1 && is_path_from(gv, p, node as int)
                        implies exists|i: int|
                    0 <= i < r@.len() && (#[trigger] r@[i])@ == p by {
                    if p[0] == e {
                        assert(is_path_from(gv, p.drop_first(), to as int));
                        let j = choose|j: int|
                            0 <= j < tails@.len() && (#[trigger] tails@[j])@ == p.drop_first();
                        let w = choose|i: int|
                            0 <= i < r@.len() && (#[trigger] r@[i])@ == seq![e as u32]
                                + tails@[j]@;
                        assert(seq![p[0]] + p.drop_first() =~= p);
                        assert(p[0] == e as u32);
                        assert(r@[w]@ == p);
                    }
                }
            }
        } else {
            proof {
                assert forall|p: Seq<u32>|
                    p.len() > 0 && 0 <= p[0] < e + 1 && is_path_from(gv, p, node as int)
                        implies exists|i: int|
                    0 <= i < r@.len() && (#[trigger] r@[i])@ == p by {
                    assert(p[0] != e);
                }
            }
        }
        e = e + 1;
    }
    proof {
        assert forall|p: Seq<u32>| is_path_from(gv, p, node as int) implies exists|i: int|
            0 <= i < r@.len() && (#[trigger] r@[i])@ == p by {
            assert(p.len() > 0);
        }
    }
    r
}


/// Sums a path's edge costs.
#[verifier::loop_isolation(false)]
fn compute_path_cost(g: &RankingRuleGraph, path: &Vec<u32>) -> (r: u64)
    requires
        rrg_wf(g.graph_view()),
        forall|i: int|
            0 <= i < path@.len() ==> 0 <= (#[trigger] path@[i]) < g.graph_view().edges.len(),
        path@.len() <= g.graph_view().n_nodes,
    ensures
        r as int == path_cost(g.graph_view(), path@),
{
    let ghost gv = g.graph_view();
    let mut i: usize = path.len();
    let mut total: u64 = 0;
    while i > 0
        invariant
            i <= path@.len(),
            total as int == path_cost(gv, path@.skip(i as int)),
            total <= 255 * (path@.len() - i),
        decreases i,
    {
        i = i - 1;
        let e = path[i] as usize;
        let c = g.edges[e].cost;
        proof {
            assert(gv.edges[e as int] == g.edges@[e as int]@);
            assert(path@.skip(i as int)[0] == path@[i as int]);
            assert(path@.skip(i as int).drop_first() =~= path@.skip(i as int + 1));
        }
        total = c as u64 + total;
    }
    proof {
        assert(path@.skip(0) =~= path@);
    }
    total
}

/// Resolves a whole path against the universe: the running intersection of
/// the universe with every data edge's document set, in order. A sub-path
/// proven empty is recorded in the empty-path cache and, when the cache is
/// in use, skipped outright on later paths — the result is the same either
/// way.
#[verifier::loop_isolation(false)]
pub fn resolve_path_docids(
    g: &mut RankingRuleGraph,
    cache: &mut DbCache,
    epc: &mut EmptyPathsCache,
    universe: &RoaringBitmap,
    path: &Vec<u32>,
    use_empty_paths_cache: bool,
) -> (r: Result<RoaringBitmap, SearchError>)
    requires
        rrg_wf(old(g).graph_view()),
        old(g).resolved_ok(old(cache).index_view()),
        old(cache).wf(),
        forall|i: int|
            0 <= i < path@.len() ==> 0 <= (#[trigger] path@[i])
                < old(g).graph_view().edges.len(),
        epc_ok(
            old(epc)@,
            old(cache).index_view(),
            old(g).graph_view(),
            bitmap_set(*universe),
        ),
    ensures
        final(g).graph_view() == old(g).graph_view(),
        final(g).resolved_ok(old(cache).index_view()),
        final(cache).wf(),
        final(cache).index_view() == old(cache).index_view(),
        epc_ok(
            final(epc)@,
            old(cache).index_view(),
            old(g).graph_view(),
            bitmap_set(*universe),
        ),
        match r {
            Ok(b) => bitmap_set(b) == path_docids(
                old(cache).index_view(),
                old(g).graph_view(),
                bitmap_set(*universe),
                path@,
            ),
            Err(err) => err == SearchError::Decoding && !index_resolvable(
                old(cache).index_view(),
                old(g).graph_view(),
            ),
        },
{
    let ghost gv = old(g).graph_view();
    let ghost idx = old(cache).index_view();
    let ghost univ = bitmap_set(*universe);
    if use_empty_paths_cache && epc.is_known_empty(path) {
        proof {
            let m = choose|m: int|
                0 <= m < epc@.len() && is_prefix_of(#[trigger] epc@[m], path@);
            let pre = epc@[m];
            assert(path@ =~= pre + path@.skip(pre.len() as int));
            lemma_path_docids_concat(idx, gv, univ, pre, path@.skip(pre.len() as int));
            lemma_path_docids_subset(
                idx,
                gv,
                Set::<u32>::empty(),
                path@.skip(pre.len() as int),
            );
            assert(path_docids(idx, gv, univ, path@) =~= Set::<u32>::empty());
        }
        let empty = bitmap_new();
        return Ok(empty);
    }
    let mut running = bitmap_clone(universe);
    let mut i: usize = 0;
    while i < path.len()
        invariant
            i <= path@.len(),
            g.graph_view() == gv,
            g.resolved_ok(idx),
            cache.wf(),
            cache.index_view() == idx,
            epc_ok(epc@, idx, gv, univ),
            bitmap_set(running) == path_docids(idx, gv, univ, path@.take(i as int)),
        decreases path@.len() - i,
    {
        let e = path[i] as usize;
        let ghost pre_run = bitmap_set(running);
        proof {
            assert(path@.take(i as int + 1) =~= path@.take(i as int) + seq![path@[i as int]]);
            lemma_path_docids_concat(idx, gv, univ, path@.take(i as int), seq![path@[i as int]]);
            assert(seq![path@[i as int]].drop_first() =~= Seq::<u32>::empty());
            assert(gv.edges[e as int] == g.edges@[e as int]@);
        }
        let is_data = match &g.edges[e].details {
            EdgeDetails::Data(_) => true,
            EdgeDetails::Unconditional => false,
        };
        if is_data {
            match g.edge_docids(cache, e) {
                Ok(b) => {
                    bitmap_intersect_with(&mut running, &b);
                },
                Err(err) => {
                    proof {
                        assert(gv.edges[e as int].details is Data);
                        assert(!index_resolvable(idx, gv));
                    }
                    return Err(err);
                },
            }
        }
        proof {
            assert(path_docids(
                idx,
                gv,
                edge_restrict(idx, gv, pre_run, e as int),
                Seq::<u32>::empty(),
            ) == edge_restrict(idx, gv, pre_run, e as int));
            assert(bitmap_set(running) == edge_restrict(idx, gv, pre_run, e as int));
            assert(bitmap_set(running) == path_docids(idx, gv, univ, path@.take(i as int + 1)));
        }
        let is_now_empty = bitmap_is_empty(&running);
        if is_now_empty {
            if use_empty_paths_cache {
                let prefix = vec_take(path, i + 1);
                epc.mark_empty(prefix);
            }
            proof {
                assert(path@ =~= path@.take(i as int + 1) + path@.skip(i as int + 1));
                lemma_path_docids_concat(
                    idx,
                    gv,
                    univ,
                    path@.take(i as int + 1),
                    path@.skip(i as int + 1),
                );
                lemma_path_docids_subset(
                    idx,
                    gv,
                    Set::<u32>::empty(),
                    path@.skip(i as int + 1),
                );
                assert(path_docids(idx, gv, univ, path@) =~= Set::<u32>::empty());
            }
            return Ok(running);
        }
        i = i + 1;
    }
    proof {
        assert(path@.take(path@.len() as int) =~= path@);
    }
    Ok(running)
}

impl TypoGraph {
    /// Reports the state of the search after a cost level to the
    /// diagnostics sink; purely observational, never influences control
    /// flow.
    pub fn log_state<L: SearchLogger>(
        graph: &RankingRuleGraph,
        paths: &Vec<Vec<u32>>,
        empty_paths_cache: &EmptyPathsCache,
        universe: &RoaringBitmap,
        distances: &Vec<Vec<u64>>,
        cost: u64,
        logger: &mut L,
    ) {
        logger.log_typo_state(graph, paths, empty_paths_cache, universe, distances, cost);
    }
}


/// The distinct total costs at which each node is reached from the start,
/// collected from the enumerated paths; reported to the diagnostics sink.
#[verifier::loop_isolation(false)]
fn node_distances(g: &RankingRuleGraph, paths: &Vec<Vec<u32>>) -> (r: Vec<Vec<u64>>)
    requires
        rrg_wf(g.graph_view()),
        forall|i: int|
            0 <= i < paths@.len() ==> is_path(g.graph_view(), (#[trigger] paths@[i])@),
    ensures
        r@.len() == g.graph_view().n_nodes,
{
    let ghost gv = g.graph_view();
    let n = g.n_nodes;
    let mut dist: Vec<Vec<u64>> = Vec::new();
    let mut v: usize = 0;
    while v < n
        invariant
            v <= n,
            dist@.len() == v,
        decreases n - v,
    {
        if v == 0 {
            dist.push(vec![0u64]);
        } else {
            dist.push(Vec::new());
        }
        v = v + 1;
    }
    let mut k: usize = 0;
    while k < paths.len()
        invariant
            k <= paths@.len(),
            dist@.len() == n,
        decreases paths@.len() - k,
    {
        proof {
            lemma_edge_ids_valid(gv, paths@[k as int]@, 0);
            lemma_path_len(gv, paths@[k as int]@, 0);
        }
        let path = &paths[k];
        let mut cum: u64 = 0;
        let mut i: usize = 0;
        while i < path.len()
            invariant
                i <= path@.len(),
                path@.len() <= gv.n_nodes - 1,
                gv.n_nodes <= 0x7FFF,
                dist@.len() == n,
                forall|x: int|
                    0 <= x < path@.len() ==> 0 <= (#[trigger] path@[x]) < gv.edges.len(),
                cum <= 255 * (i as int),
            decreases path@.len() - i,
        {
            let e = path[i] as usize;
            proof {
                assert(gv.edges[e as int] == g.edges@[e as int]@);
            }
            cum = cum + g.edges[e].cost as u64;
            let to = g.edges[e].to_node;
            let mut seen = false;
            let mut m: usize = 0;
            while m < dist[to].len()
                invariant
                    m <= dist@[to as int]@.len(),
                    to < n,
                    dist@.len() == n,
                decreases dist@[to as int]@.len() - m,
            {
                if dist[to][m] == cum {
                    seen = true;
                }
                m = m + 1;
            }
            if !seen {
                let mut row = dist.remove(to);
                row.push(cum);
                dist.insert(to, row);
            }
            i = i + 1;
        }
        k = k + 1;
    }
    dist
}

/// Partitions the universe into buckets of strictly increasing cost: the
/// bucket at cost `c` holds exactly the documents whose cheapest covering
/// path from start to end costs `c`. The result is pinned to a
/// specification that never mentions the empty-path cache: running with the
/// cache enabled or disabled yields the same buckets.
#[verifier::loop_isolation(false)]
pub fn search_buckets<L: SearchLogger>(
    g: &mut RankingRuleGraph,
    cache: &mut DbCache,
    universe: &RoaringBitmap,
    use_empty_paths_cache: bool,
    logger: &mut L,
) -> (r: Result<Vec<(u64, RoaringBitmap)>, SearchError>)
    requires
        rrg_wf(old(g).graph_view()),
        old(g).resolved_ok(old(cache).index_view()),
        old(cache).wf(),
    ensures
        final(g).graph_view() == old(g).graph_view(),
        final(g).resolved_ok(old(cache).index_view()),
        final(cache).wf(),
        final(cache).index_view() == old(cache).index_view(),
        match r {
            Ok(buckets) => bucket_views(buckets@) == spec_buckets(
                old(cache).index_view(),
                old(g).graph_view(),
                bitmap_set(*universe),
            ),
            Err(err) => err == SearchError::Decoding && !index_resolvable(
                old(cache).index_view(),
                old(g).graph_view(),
            ),
        },
{
    let ghost gv = old(g).graph_view();
    let ghost idx = old(cache).index_view();
    let ghost univ = bitmap_set(*universe);
    let paths = paths_from(g, 0);
    let mut epc = EmptyPathsCache::new();
    let mut results: Vec<RoaringBitmap> = Vec::new();
    let mut costs: Vec<u64> = Vec::new();
    let mut max_cost: u64 = 0;
    let mut kk: usize = 0;
    while kk < paths.len()
        invariant
            kk <= paths@.len(),
            results@.len() == kk,
            costs@.len() == kk,
            g.graph_view() == gv,
            g.resolved_ok(idx),
            cache.wf(),
            cache.index_view() == idx,
            epc_ok(epc@, idx, gv, univ),
            max_cost <= 255 * (gv.n_nodes - 1),
            forall|k2: int|
                0 <= k2 < kk ==> bitmap_set(#[trigger] results@[k2]) == path_docids(
                    idx,
                    gv,
                    univ,
                    paths@[k2]@,
                ),
            forall|k2: int|
                0 <= k2 < kk ==> (#[trigger] costs@[k2]) as int == path_cost(gv, paths@[k2]@),
            forall|k2: int| 0 <= k2 < kk ==> (#[trigger] costs@[k2]) <= max_cost,
        decreases paths@.len() - kk,
    {
        proof {
            lemma_edge_ids_valid(gv, paths@[kk as int]@, 0);
            lemma_path_len(gv, paths@[kk as int]@, 0);
            lemma_path_cost_bounds(gv, paths@[kk as int]@);
        }
        let c = compute_path_cost(g, &paths[kk]);
        match resolve_path_docids(g, cache, &mut epc, universe, &paths[kk], use_empty_paths_cache) {
            Ok(b) => {
                results.push(b);
                costs.push(c);
                if c > max_cost {
                    max_cost = c;
                }
            },
            Err(err) => {
                return Err(err);
            },
        }
        kk = kk + 1;
    }
    let distances = node_distances(g, &paths);
    let mut buckets: Vec<(u64, RoaringBitmap)> = Vec::new();
    let mut assigned = bitmap_new();
    let mut c: u64 = 0;
    while c <= max_cost
        invariant
            c <= max_cost + 1,
            bucket_views(buckets@) == buckets_upto(idx, gv, univ, c as int),
            bitmap_set(assigned) == Set::new(
                |x: u32| covered_below(idx, gv, univ, x, c as int),
            ),
        decreases max_cost + 1 - c,
    {
        let mut level = bitmap_new();
        let mut k2: usize = 0;
        while k2 < results.len()
            invariant
                k2 <= results@.len(),
                forall|x: u32|
                    #![trigger bitmap_set(level).contains(x)]
                    bitmap_set(level).contains(x) <==> exists|k3: int|
                        0 <= k3 < k2 && costs@[k3] == c && bitmap_set(
                            #[trigger] results@[k3],
                        ).contains(x),
            decreases results@.len() - k2,
        {
            let ghost pre_level = bitmap_set(level);
            if costs[k2] == c {
                bitmap_union_with(&mut level, &results[k2]);
            }
            proof {
                assert forall|x: u32|
                    #![trigger bitmap_set(level).contains(x)]
                    bitmap_set(level).contains(x) <==> exists|k3: int|
                        0 <= k3 < k2 + 1 && costs@[k3] == c && bitmap_set(
                            #[trigger] results@[k3],
                        ).contains(x) by {
                    if bitmap_set(level).contains(x) {
                        if pre_level.contains(x) {
                            let k3 = choose|k3: int|
                                0 <= k3 < k2 && costs@[k3] == c && bitmap_set(
                                    #[trigger] results@[k3],
                                ).contains(x);
                            assert(bitmap_set(results@[k3]).contains(x));
                        } else {
                            assert(costs@[k2 as int] == c && bitmap_set(
                                results@[k2 as int],
                            ).contains(x));
                        }
                    }
                    if exists|k3: int|
                        0 <= k3 < k2 + 1 && costs@[k3] == c && bitmap_set(
                            #[trigger] results@[k3],
                        ).contains(x) {
                        let k3 = choose|k3: int|
                            0 <= k3 < k2 + 1 && costs@[k3] == c && bitmap_set(
                                #[trigger] results@[k3],
                            ).contains(x);
                        if k3 < k2 {
                            assert(pre_level.contains(x));
                        }
                        assert(bitmap_set(level).contains(x));
                    }
                }
            }
            k2 = k2 + 1;
        }
        proof {
            assert forall|x: u32| bitmap_set(level).contains(x) implies covered_at(
                idx,
                gv,
                univ,
                x,
                c as int,
            ) by {
                let k3 = choose|k3: int|
                    0 <= k3 < results@.len() && costs@[k3] == c && bitmap_set(
                        #[trigger] results@[k3],
                    ).contains(x);
                assert(is_path(gv, paths@[k3]@));
                assert(path_docids(idx, gv, univ, paths@[k3]@).contains(x));
            }
            assert forall|x: u32| covered_at(idx, gv, univ, x, c as int) implies bitmap_set(
                level,
            ).contains(x) by {
                let p = choose|p: Seq<u32>|
                    is_path(gv, p) && path_cost(gv, p) == c as int && (#[trigger] path_docids(
                        idx,
                        gv,
                        univ,
                        p,
                    )).contains(x);
                let i2 = choose|i2: int| 0 <= i2 < paths@.len() && (#[trigger] paths@[i2])@ == p;
                assert(bitmap_set(results@[i2]).contains(x));
                assert(costs@[i2] == c);
            }
        }
        let ghost covered_c = Set::new(|x: u32| covered_at(idx, gv, univ, x, c as int));
        proof {
            assert(bitmap_set(level) =~= covered_c);
        }
        bitmap_difference_with(&mut level, &assigned);
        proof {
            assert(bitmap_set(level) =~= level_set(idx, gv, univ, c as int));
        }
        TypoGraph::log_state(g, &paths, &epc, universe, &distances, c, logger);
        let level_empty = bitmap_is_empty(&level);
        let ghost pre_assigned = bitmap_set(assigned);
        let ghost pre_buckets = buckets@;
        if !level_empty {
            bitmap_union_with(&mut assigned, &level);
            buckets.push((c, level));
            proof {
                assert(bucket_views(buckets@) =~= bucket_views(pre_buckets).push(
                    (c, level_set(idx, gv, univ, c as int)),
                ));
                assert(level_set(idx, gv, univ, c as int) != Set::<u32>::empty());
                assert(bucket_views(buckets@) == buckets_upto(idx, gv, univ, c as int + 1));
            }
        } else {
            proof {
                assert(level_set(idx, gv, univ, c as int) == Set::<u32>::empty());
                assert(bucket_views(buckets@) == buckets_upto(idx, gv, univ, c as int + 1));
            }
        }
        proof {
            assert forall|x: u32|
                #![trigger covered_below(idx, gv, univ, x, c as int + 1)]
                covered_below(idx, gv, univ, x, c as int + 1) <==> bitmap_set(
                    assigned,
                ).contains(x) by {
                if covered_below(idx, gv, univ, x, c as int + 1) {
                    let c2 = choose|c2: int|
                        0 <= c2 < c as int + 1 && covered_at(idx, gv, univ, x, c2);
                    if c2 < c as int {
                        assert(covered_below(idx, gv, univ, x, c as int));
                        assert(pre_assigned.contains(x));
                    } else {
                        assert(covered_at(idx, gv, univ, x, c as int));
                        if covered_below(idx, gv, univ, x, c as int) {
                            assert(pre_assigned.contains(x));
                        } else {
                            assert(level_set(idx, gv, univ, c as int).contains(x));
                        }
                    }
                }
                if bitmap_set(assigned).contains(x) {
                    if pre_assigned.contains(x) {
                        let c2 = choose|c2: int|
                            0 <= c2 < c as int && covered_at(idx, gv, univ, x, c2);
                        assert(0 <= c2 < c as int + 1 && covered_at(idx, gv, univ, x, c2));
                    } else {
                        assert(level_set(idx, gv, univ, c as int).contains(x));
                        assert(covered_at(idx, gv, univ, x, c as int));
                        assert(0 <= (c as int) < c as int + 1 && covered_at(
                            idx,
                            gv,
                            univ,
                            x,
                            c as int,
                        ));
                    }
                }
            }
            assert(bitmap_set(assigned) =~= Set::new(
                |x: u32| covered_below(idx, gv, univ, x, c as int + 1),
            ));
        }
        c = c + 1;
    }
    proof {
        let maxc_spec = 255 * (gv.n_nodes - 1) + 1;
        assert forall|cc: int| c as int <= cc < maxc_spec implies level_set(idx, gv, univ, cc)
            == Set::<u32>::empty() by {
            assert forall|x: u32| !level_set(idx, gv, univ, cc).contains(x) by {
                if covered_at(idx, gv, univ, x, cc) {
                    let p = choose|p: Seq<u32>|
                        is_path(gv, p) && path_cost(gv, p) == cc && (#[trigger] path_docids(
                            idx,
                            gv,
                            univ,
                            p,
                        )).contains(x);
                    let i2 = choose|i2: int|
                        0 <= i2 < paths@.len() && (#[trigger] paths@[i2])@ == p;
                    assert(costs@[i2] as int == cc);
                    assert(costs@[i2] <= max_cost);
                    assert(false);
                }
            }
            assert(level_set(idx, gv, univ, cc) =~= Set::<u32>::empty());
        }
        lemma_buckets_upto_stable(idx, gv, univ, c as int, maxc_spec);
    }
    Ok(buckets)
}


/// Buckets at different costs never share a document: a document's cheapest
/// covering cost is unique.
pub proof fn lemma_level_sets_disjoint(
    idx: PostingsIndexV,
    g: RankingRuleGraphV,
    universe: Set<u32>,
    c1: int,
    c2: int,
)
    requires
        0 <= c1 < c2,
    ensures
        level_set(idx, g, universe, c1).intersect(level_set(idx, g, universe, c2))
            == Set::<u32>::empty(),
{
    assert forall|x: u32|
        !(level_set(idx, g, universe, c1).contains(x) && level_set(
            idx,
            g,
            universe,
            c2,
        ).contains(x)) by {
        if level_set(idx, g, universe, c1).contains(x) {
            assert(covered_at(idx, g, universe, x, c1));
            assert(covered_below(idx, g, universe, x, c2));
        }
    }
    assert(level_set(idx, g, universe, c1).intersect(level_set(idx, g, universe, c2))
        =~= Set::<u32>::empty());
}

/// Every bucket is a subset of the universe it partitions.
pub proof fn lemma_level_set_in_universe(
    idx: PostingsIndexV,
    g: RankingRuleGraphV,
    universe: Set<u32>,
    c: int,
)
    ensures
        level_set(idx, g, universe, c).subset_of(universe),
{
    assert forall|x: u32| level_set(idx, g, universe, c).contains(x) implies universe.contains(
        x,
    ) by {
        let p = choose|p: Seq<u32>|
            is_path(g, p) && path_cost(g, p) == c && (#[trigger] path_docids(
                idx,
                g,
                universe,
                p,
            )).contains(x);
        lemma_path_docids_subset(idx, g, universe, p);
    }
}

/// The buckets come in strictly increasing cost order, each one is the
/// non-empty set of documents whose cheapest covering path costs exactly its
/// cost, and so no document stands in two buckets; the total cost of a path
/// is by definition the sum of its edge costs.
pub proof fn lemma_buckets_ordered(
    idx: PostingsIndexV,
    g: RankingRuleGraphV,
    universe: Set<u32>,
    c: int,
)
    requires
        0 <= c <= 0xFFFF_FFFF_FFFF_FFFF,
    ensures
        forall|a: int|
            0 <= a < buckets_upto(idx, g, universe, c).len() ==> {
                &&& (#[trigger] buckets_upto(idx, g, universe, c)[a]).0 < c
                &&& buckets_upto(idx, g, universe, c)[a].1 == level_set(
                    idx,
                    g,
                    universe,
                    buckets_upto(idx, g, universe, c)[a].0 as int,
                )
                &&& buckets_upto(idx, g, universe, c)[a].1 != Set::<u32>::empty()
                &&& buckets_upto(idx, g, universe, c)[a].1.subset_of(universe)
            },
        forall|a: int, b: int|
            0 <= a < b < buckets_upto(idx, g, universe, c).len() ==> (#[trigger] buckets_upto(
                idx,
                g,
                universe,
                c,
            )[a]).0 < (#[trigger] buckets_upto(idx, g, universe, c)[b]).0,
        forall|a: int, b: int|
            0 <= a < b < buckets_upto(idx, g, universe, c).len() ==> (#[trigger] buckets_upto(
                idx,
                g,
                universe,
                c,
            )[a]).1.intersect(#[trigger] buckets_upto(idx, g, universe, c)[b].1)
                == Set::<u32>::empty(),
    decreases c,
{
    if c > 0 {
        lemma_buckets_ordered(idx, g, universe, c - 1);
        let prev = buckets_upto(idx, g, universe, c - 1);
        let cur = buckets_upto(idx, g, universe, c);
        if level_set(idx, g, universe, c - 1) == Set::<u32>::empty() {
            assert(cur == prev);
            assert forall|a: int| 0 <= a < cur.len() implies {
                &&& (#[trigger] cur[a]).0 < c
                &&& cur[a].1 == level_set(idx, g, universe, cur[a].0 as int)
                &&& cur[a].1 != Set::<u32>::empty()
                &&& cur[a].1.subset_of(universe)
            } by {
                assert(cur[a] == prev[a]);
            }
            assert forall|a: int, b: int| 0 <= a < b < cur.len() implies (#[trigger] cur[a]).0 < (
            #[trigger] cur[b]).0 by {
                assert(cur[a] == prev[a]);
                assert(cur[b] == prev[b]);
            }
        } else {
            lemma_level_set_in_universe(idx, g, universe, c - 1);
            assert(cur == prev.push(((c - 1) as u64, level_set(idx, g, universe, c - 1))));
            assert forall|a: int| 0 <= a < cur.len() implies {
                &&& (#[trigger] cur[a]).0 < c
                &&& cur[a].1 == level_set(idx, g, universe, cur[a].0 as int)
                &&& cur[a].1 != Set::<u32>::empty()
                &&& cur[a].1.subset_of(universe)
            } by {
                if a < prev.len() {
                    assert(cur[a] == prev[a]);
                } else {
                    assert(cur[a] == ((c - 1) as u64, level_set(idx, g, universe, c - 1)));
                    assert(((c - 1) as u64) as int == c - 1);
                }
            }
            assert forall|a: int, b: int| 0 <= a < b < cur.len() implies (#[trigger] cur[a]).0 < (
            #[trigger] cur[b]).0 by {
                if b < prev.len() {
                    assert(cur[a] == prev[a]);
                    assert(cur[b] == prev[b]);
                } else {
                    assert(cur[a] == prev[a]);
                    assert(cur[b].0 as int == c - 1);
                    assert(prev[a].0 < c - 1);
                }
            }
        }
    }
    let cur = buckets_upto(idx, g, universe, c);
    assert forall|a: int, b: int| 0 <= a < b < cur.len() implies (#[trigger] cur[a]).1.intersect(
        #[trigger] cur[b].1,
    ) == Set::<u32>::empty() by {
        lemma_level_sets_disjoint(idx, g, universe, cur[a].0 as int, cur[b].0 as int);
    }
}

/// Marking a path empty in the empty-path cache never changes the final
/// bucket assignment: the search's result is pinned, with the cache in use
/// or disabled, to `spec_buckets`, which does not mention the cache, so two
/// runs over the same graph, snapshot and universe produce the same buckets.
pub proof fn lemma_pruning_preserves_buckets(
    idx: PostingsIndexV,
    g: RankingRuleGraphV,
    universe: Set<u32>,
    with_cache: Seq<(u64, Set<u32>)>,
    without_cache: Seq<(u64, Set<u32>)>,
)
    requires
        with_cache == spec_buckets(idx, g, universe),
        without_cache == spec_buckets(idx, g, universe),
    ensures
        with_cache == without_cache,
{
}

/// A path never passes through a node the criterion generated no edge for.
pub open spec fn path_avoids(g: RankingRuleGraphV, p: Seq<u32>, j: int) -> bool {
    forall|i: int| 0 <= i < p.len() ==> g.edges[(#[trigger] p[i]) as int].to_node != j
}

/// A term node with no generated edges is dead: no edge of the built graph
/// reaches it, so every start-to-end path avoids it.
pub proof fn lemma_dead_node(qg: QueryGraphV, g: RankingRuleGraphV, j: int)
    requires
        forall|e: int|
            0 <= e < g.edges.len() ==> edge_matches_graph(qg, #[trigger] g.edges[e]),
        typo_edges_spec(qg.nodes[j]).len() == 0,
    ensures
        forall|e: int| 0 <= e < g.edges.len() ==> (#[trigger] g.edges[e]).to_node != j,
        forall|p: Seq<u32>| is_path(g, p) ==> path_avoids(g, p, j),
{
    assert forall|e: int| 0 <= e < g.edges.len() implies (#[trigger] g.edges[e]).to_node
        != j by {
        if g.edges[e].to_node == j {
            assert(edge_matches_graph(qg, g.edges[e]));
            assert(false);
        }
    }
    assert forall|p: Seq<u32>| is_path(g, p) implies path_avoids(g, p, j) by {
        lemma_edge_ids_valid(g, p, 0);
    }
}

} // verus!
