//! The ranking-rule graph: the query graph re-expressed as a weighted
//! edge-labeled graph, built once per query per criterion, immutable after
//! construction except for the lazily resolved document set of each edge.

use vstd::prelude::*;
use roaring::RoaringBitmap;
use crate::bitmap::{bitmap_clone, bitmap_set};
use crate::error::SearchError;
use crate::postings::{DbCache, PostingsIndexV};
use crate::query::{graph_wf, QueryGraph, QueryGraphV};
use crate::typo::{
    edge_list_view, lemma_typo_edges_props, resolve_typo_edge, typo_edge_wf, typo_edges_spec,
    EdgeDetails, EdgeDetailsV, TypoEdge, TypoEdgeV, TypoGraph,
};

verus! {

/// One weighted edge, identified by its position in the edge list.
pub struct Edge {
    pub from_node: usize,
    pub to_node: usize,
    pub cost: u8,
    pub details: EdgeDetails<TypoEdge>,
}

pub struct EdgeV {
    pub from_node: int,
    pub to_node: int,
    pub cost: u8,
    pub details: EdgeDetailsV<TypoEdgeV>,
}

impl View for Edge {
    type V = EdgeV;

    open spec fn view(&self) -> EdgeV {
        EdgeV {
            from_node: self.from_node as int,
            to_node: self.to_node as int,
            cost: self.cost,
            details: self.details@,
        }
    }
}

pub open spec fn edge_views(s: Seq<Edge>) -> Seq<EdgeV> {
    s.map_values(|e: Edge| e@)
}

/// The mathematical image of the graph: node count and edge list. The
/// lazily resolved document sets are deliberately not part of it.
pub struct RankingRuleGraphV {
    pub n_nodes: int,
    pub edges: Seq<EdgeV>,
}

/// Well-formedness: every edge points forward between valid nodes, the edge
/// list is small enough for 32-bit edge ids, and every data edge carries a
/// valid typo count.
pub open spec fn rrg_wf(g: RankingRuleGraphV) -> bool {
    &&& 2 <= g.n_nodes
    &&& g.n_nodes <= 0x7FFF
    &&& g.edges.len() <= 0xFFFF_FFFF
    &&& forall|e: int|
        0 <= e < g.edges.len() ==> 0 <= (#[trigger] g.edges[e]).from_node
            && g.edges[e].from_node < g.edges[e].to_node && g.edges[e].to_node < g.n_nodes
    &&& forall|e: int|
        0 <= e < g.edges.len() ==> ((#[trigger] g.edges[e]).details matches EdgeDetailsV::Data(d)
            ==> typo_edge_wf(d))
}

/// Whether `j` is listed among the successors of `i`.
pub open spec fn adjacent(qg: QueryGraphV, i: int, j: int) -> bool {
    exists|k: int| 0 <= k < qg.successors[i].len() && qg.successors[i][k] == j
}

/// An edge is explained by the query graph: its endpoints are adjacent there
/// and its weight and payload are among what the criterion generates for the
/// target node.
pub open spec fn edge_matches_graph(qg: QueryGraphV, ev: EdgeV) -> bool {
    &&& 0 <= ev.from_node < qg.nodes.len()
    &&& 0 <= ev.to_node < qg.nodes.len()
    &&& adjacent(qg, ev.from_node, ev.to_node)
    &&& exists|t: int|
        0 <= t < typo_edges_spec(qg.nodes[ev.to_node]).len() && (#[trigger] typo_edges_spec(
            qg.nodes[ev.to_node],
        )[t]) == (ev.cost, ev.details)
}

pub open spec fn has_edge(
    edges: Seq<EdgeV>,
    from: int,
    to: int,
    pair: (u8, EdgeDetailsV<TypoEdgeV>),
) -> bool {
    exists|e: int|
        0 <= e < edges.len() && (#[trigger] edges[e]) == (EdgeV {
            from_node: from,
            to_node: to,
            cost: pair.0,
            details: pair.1,
        })
}

/// Every edge the criterion generates for a target node stands in the list.
pub open spec fn all_node_edges(
    qg: QueryGraphV,
    edges: Seq<EdgeV>,
    from: int,
    to: int,
) -> bool {
    forall|t: int|
        0 <= t < typo_edges_spec(qg.nodes[to]).len() ==> has_edge(
            edges,
            from,
            to,
            #[trigger] typo_edges_spec(qg.nodes[to])[t],
        )
}

/// Every adjacency of the query graph contributed all its edges.
pub open spec fn builds_all(qg: QueryGraphV, edges: Seq<EdgeV>) -> bool {
    forall|i: int, k: int|
        0 <= i < qg.successors.len() && 0 <= k < qg.successors[i].len() ==> all_node_edges(
            qg,
            edges,
            i,
            (#[trigger] qg.successors[i][k]) as int,
        )
}

/// Appending edges keeps every edge already explained present.
pub proof fn lemma_all_node_edges_append(
    qg: QueryGraphV,
    pre: Seq<EdgeV>,
    post: Seq<EdgeV>,
    from: int,
    to: int,
)
    requires
        pre.len() <= post.len(),
        forall|e: int| 0 <= e < pre.len() ==> post[e] == pre[e],
        all_node_edges(qg, pre, from, to),
    ensures
        all_node_edges(qg, post, from, to),
{
    assert forall|t: int| 0 <= t < typo_edges_spec(qg.nodes[to]).len() implies has_edge(
        post,
        from,
        to,
        #[trigger] typo_edges_spec(qg.nodes[to])[t],
    ) by {
        let pair = typo_edges_spec(qg.nodes[to])[t];
        let w = choose|e: int|
            0 <= e < pre.len() && (#[trigger] pre[e]) == (EdgeV {
                from_node: from,
                to_node: to,
                cost: pair.0,
                details: pair.1,
            });
        assert(post[w] == pre[w]);
    }
}

/// The query graph re-expressed as a weighted edge-labeled graph, with a
/// side list holding each edge's document set once resolved.
pub struct RankingRuleGraph {
    pub n_nodes: usize,
    pub edges: Vec<Edge>,
    pub resolved: Vec<Option<RoaringBitmap>>,
}

impl RankingRuleGraph {
    pub open spec fn graph_view(&self) -> RankingRuleGraphV {
        RankingRuleGraphV { n_nodes: self.n_nodes as int, edges: edge_views(self.edges@) }
    }

    /// Every resolved slot holds exactly what its data edge resolves to.
    pub open spec fn resolved_ok(&self, idx: PostingsIndexV) -> bool {
        &&& self.resolved@.len() == self.edges@.len()
        &&& forall|i: int|
            0 <= i < self.resolved@.len() && (#[trigger] self.resolved@[i]) is Some ==> {
                &&& self.edges@[i]@.details is Data
                &&& resolve_typo_edge(idx, self.edges@[i]@.details->0) == Some(
                    bitmap_set(self.resolved@[i]->0),
                )
            }
    }

    /// Builds the ranking-rule graph: for every adjacency of the query
    /// graph, every weighted edge the criterion generates for the target
    /// node, in order; nothing resolved yet.
    #[verifier::loop_isolation(false)]
    pub fn build(query_graph: &QueryGraph) -> (r: RankingRuleGraph)
        requires
            graph_wf(query_graph@),
        ensures
            rrg_wf(r.graph_view()),
            r.graph_view().n_nodes == query_graph@.nodes.len(),
            forall|e: int|
                0 <= e < r.graph_view().edges.len() ==> edge_matches_graph(
                    query_graph@,
                    #[trigger] r.graph_view().edges[e],
                ),
            builds_all(query_graph@, r.graph_view().edges),
            forall|idx: PostingsIndexV| r.resolved_ok(idx),
    {
        let ghost qgv = query_graph@;
        let n = query_graph.nodes.len();
        let mut edges: Vec<Edge> = Vec::new();
        let mut i: usize = 0;
        while i < n
            invariant
                i <= n,
                edges@.len() <= 3 * (n as int) * (i as int),
                forall|e: int|
                    0 <= e < edges@.len() ==> edge_matches_graph(qgv, (#[trigger] edges@[e])@),
                forall|i2: int, k2: int|
                    0 <= i2 < i && 0 <= k2 < qgv.successors[i2].len() ==> all_node_edges(
                        qgv,
                        edge_views(edges@),
                        i2,
                        (#[trigger] qgv.successors[i2][k2]) as int,
                    ),
            decreases n - i,
        {
            match TypoGraph::build_visit_from_node(&query_graph.nodes[i]) {
                None => {
                    proof {
                        assert(false);
                    }
                },
                Some(_) => {
                    let nk = query_graph.successors[i].len();
                    let mut k: usize = 0;
                    while k < nk
                        invariant
                            k <= nk,
                            nk == qgv.successors[i as int].len(),
                            i < n,
                            edges@.len() <= 3 * (n as int) * (i as int) + 3 * (k as int),
                            forall|e: int|
                                0 <= e < edges@.len() ==> edge_matches_graph(
                                    qgv,
                                    (#[trigger] edges@[e])@,
                                ),
                            forall|i2: int, k2: int|
                                0 <= i2 < i && 0 <= k2 < qgv.successors[i2].len()
                                    ==> all_node_edges(
                                    qgv,
                                    edge_views(edges@),
                                    i2,
                                    (#[trigger] qgv.successors[i2][k2]) as int,
                                ),
                            forall|k2: int|
                                0 <= k2 < k ==> all_node_edges(
                                    qgv,
                                    edge_views(edges@),
                                    i as int,
                                    (#[trigger] qgv.successors[i as int][k2]) as int,
                                ),
                        decreases nk - k,
                    {
                        let j = query_graph.successors[i][k];
                        let ghost spec_list = typo_edges_spec(qgv.nodes[j as int]);
                        proof {
                            lemma_typo_edges_props(qgv.nodes[j as int]);
                        }
                        let mut elist = TypoGraph::build_visit_to_node(&query_graph.nodes[j]);
                        let ghost orig = elist@;
                        let ghost pre_len = edges@.len();
                        let mut t: usize = 0;
                        while elist.len() > 0
                            invariant
                                t == orig.len() - elist@.len(),
                                t <= orig.len(),
                                elist@ =~= orig.subrange(t as int, orig.len() as int),
                                edge_list_view(orig) == spec_list,
                                spec_list.len() <= 3,
                                edges@.len() == pre_len + t,
                                pre_len <= 3 * (n as int) * (i as int) + 3 * (k as int),
                                i < n,
                                (j as int) < qgv.nodes.len(),
                                forall|e: int|
                                    0 <= e < edges@.len() ==> edge_matches_graph(
                                        qgv,
                                        (#[trigger] edges@[e])@,
                                    ),
                                forall|i2: int, k2: int|
                                    0 <= i2 < i && 0 <= k2 < qgv.successors[i2].len()
                                        ==> all_node_edges(
                                        qgv,
                                        edge_views(edges@),
                                        i2,
                                        (#[trigger] qgv.successors[i2][k2]) as int,
                                    ),
                                forall|k2: int|
                                    0 <= k2 < k ==> all_node_edges(
                                        qgv,
                                        edge_views(edges@),
                                        i as int,
                                        (#[trigger] qgv.successors[i as int][k2]) as int,
                                    ),
                                forall|t2: int|
                                    0 <= t2 < t ==> has_edge(
                                        edge_views(edges@),
                                        i as int,
                                        j as int,
                                        #[trigger] spec_list[t2],
                                    ),
                            decreases elist.len(),
                        {
                            let pair = elist.remove(0);
                            let (cost, details) = pair;
                            proof {
                                assert(orig.subrange(t as int, orig.len() as int)[0] == orig[t as int]);
                                assert(spec_list[t as int] == (cost, details@));
                            }
                            let ghost pre_edges = edges@;
                            edges.push(Edge { from_node: i, to_node: j, cost, details });
                            proof {
                                let ev = edges@[pre_edges.len() as int]@;
                                assert(ev == (EdgeV {
                                    from_node: i as int,
                                    to_node: j as int,
                                    cost,
                                    details: details@,
                                }));
                                assert(qgv.successors[i as int][k as int] == j as int);
                                assert(adjacent(qgv, i as int, j as int));
                                assert(typo_edges_spec(qgv.nodes[ev.to_node])[t as int] == (
                                ev.cost,
                                ev.details,
                                ));
                                assert(edge_matches_graph(qgv, ev));
                                assert(edge_views(edges@).len() == edge_views(pre_edges).len()
                                    + 1);
                                assert(forall|e2: int|
                                    0 <= e2 < edge_views(pre_edges).len() ==> edge_views(edges@)[e2]
                                        == edge_views(pre_edges)[e2]);
                                assert forall|i2: int, k2: int|
                                    0 <= i2 < i && 0 <= k2 < qgv.successors[i2].len()
                                        implies all_node_edges(
                                    qgv,
                                    edge_views(edges@),
                                    i2,
                                    (#[trigger] qgv.successors[i2][k2]) as int,
                                ) by {
                                    lemma_all_node_edges_append(
                                        qgv,
                                        edge_views(pre_edges),
                                        edge_views(edges@),
                                        i2,
                                        qgv.successors[i2][k2] as int,
                                    );
                                }
                                assert forall|k2: int| 0 <= k2 < k implies all_node_edges(
                                    qgv,
                                    edge_views(edges@),
                                    i as int,
                                    (#[trigger] qgv.successors[i as int][k2]) as int,
                                ) by {
                                    lemma_all_node_edges_append(
                                        qgv,
                                        edge_views(pre_edges),
                                        edge_views(edges@),
                                        i as int,
                                        qgv.successors[i as int][k2] as int,
                                    );
                                }
                                assert forall|e: int| 0 <= e < edges@.len() implies edge_matches_graph(
                                    qgv,
                                    (#[trigger] edges@[e])@,
                                ) by {
                                    if e < pre_edges.len() {
                                        assert(edges@[e] == pre_edges[e]);
                                    }
                                }
                                assert(edge_views(edges@)[pre_edges.len() as int] == ev);
                                assert forall|t2: int| 0 <= t2 < t + 1 implies has_edge(
                                    edge_views(edges@),
                                    i as int,
                                    j as int,
                                    #[trigger] spec_list[t2],
                                ) by {
                                    if t2 < t {
                                        let w = choose|e: int|
                                            0 <= e < edge_views(pre_edges).len() && (
                                            #[trigger] edge_views(pre_edges)[e]) == (EdgeV {
                                                from_node: i as int,
                                                to_node: j as int,
                                                cost: spec_list[t2].0,
                                                details: spec_list[t2].1,
                                            });
                                        assert(edge_views(edges@)[w] == edge_views(pre_edges)[w]);
                                    } else {
                                        assert(edge_views(edges@)[pre_edges.len() as int] == (EdgeV {
                                            from_node: i as int,
                                            to_node: j as int,
                                            cost: spec_list[t2].0,
                                            details: spec_list[t2].1,
                                        }));
                                    }
                                }
                            }
                            t = t + 1;
                        }
                        proof {
                            assert(t == spec_list.len());
                            assert(all_node_edges(qgv, edge_views(edges@), i as int, j as int));
                        }
                        k = k + 1;
                    }
                    proof {
                        assert(edges@.len() <= 3 * (n as int) * (i as int) + 3 * (n as int));
                        assert(3 * (n as int) * (i as int) + 3 * (n as int) == 3 * (n as int) * (
                        i as int + 1)) by (nonlinear_arith);
                    }
                },
            }
            i = i + 1;
        }
        proof {
            assert(edges@.len() <= 3 * (n as int) * (n as int));
            assert(3 * (n as int) * (n as int) <= 0xFFFF_FFFF) by (nonlinear_arith)
                requires
                    n as int <= 0x7FFF,
            ;
        }
        let m = edges.len();
        let mut resolved: Vec<Option<RoaringBitmap>> = Vec::new();
        let mut v: usize = 0;
        while v < m
            invariant
                v <= m,
                resolved@.len() == v,
                forall|x: int| 0 <= x < v ==> (#[trigger] resolved@[x]) is None,
            decreases m - v,
        {
            resolved.push(None);
            v = v + 1;
        }
        RankingRuleGraph { n_nodes: n, edges, resolved }
    }

    /// The document set of an edge, resolved on first access and remembered
    /// by edge id; repeated access never recomputes it.
    pub fn edge_docids(&mut self, cache: &mut DbCache, e: usize) -> (r: Result<
        RoaringBitmap,
        SearchError,
    >)
        requires
            rrg_wf(old(self).graph_view()),
            old(self).resolved_ok(old(cache).index_view()),
            old(cache).wf(),
            e < old(self).graph_view().edges.len(),
            old(self).graph_view().edges[e as int].details is Data,
        ensures
            final(self).graph_view() == old(self).graph_view(),
            final(self).resolved_ok(old(cache).index_view()),
            final(cache).wf(),
            final(cache).index_view() == old(cache).index_view(),
            match r {
                Ok(b) => resolve_typo_edge(
                    old(cache).index_view(),
                    old(self).graph_view().edges[e as int].details->0,
                ) == Some(bitmap_set(b)),
                Err(err) => err == SearchError::Decoding && resolve_typo_edge(
                    old(cache).index_view(),
                    old(self).graph_view().edges[e as int].details->0,
                ) is None,
            },
    {
        let hit = self.resolved[e].is_some();
        if hit {
            match &self.resolved[e] {
                Some(b) => {
                    return Ok(bitmap_clone(b));
                },
                None => {
                    proof {
                        assert(false);
                    }
                },
            }
        }
        let computed = match &self.edges[e].details {
            EdgeDetails::Data(te) => TypoGraph::compute_docids(cache, te),
            EdgeDetails::Unconditional => {
                proof {
                    assert(false);
                }
                Err(SearchError::Decoding)
            },
        };
        match computed {
            Ok(b) => {
                let copy = bitmap_clone(&b);
                self.resolved[e] = Some(b);
                proof {
                    assert(edge_views(self.edges@) =~= edge_views(old(self).edges@));
                }
                Ok(copy)
            },
            Err(err) => Err(err),
        }
    }
}

} // verus!
