//! The typo-tolerance criterion: turns each term node into weighted edges,
//! one per non-empty typo bucket, and resolves an edge to the documents that
//! match it.

use vstd::prelude::*;
use crate::query::{
    Phrase, PhraseV, QueryNode, QueryNodeV, QueryTerm, QueryTermV, WordDerivations,
    WordDerivationsV,
};
use crate::bitmap::{bitmap_new, bitmap_set, bitmap_union_with};
use crate::error::SearchError;
use crate::postings::{
    phrase_posting, prefix_posting, resolve_phrase, word_posting, DbCache, PostingsIndexV,
};
use roaring::RoaringBitmap;

verus! {

/// Criterion-specific payload of an edge: either no payload, for structural
/// edges that pass every document, or data the criterion resolves.
pub enum EdgeDetails<E> {
    Unconditional,
    Data(E),
}

pub enum EdgeDetailsV<T> {
    Unconditional,
    Data(T),
}

impl<E: View> View for EdgeDetails<E> {
    type V = EdgeDetailsV<<E as View>::V>;

    open spec fn view(&self) -> EdgeDetailsV<<E as View>::V> {
        match self {
            EdgeDetails::Unconditional => EdgeDetailsV::Unconditional,
            EdgeDetails::Data(e) => EdgeDetailsV::Data(e@),
        }
    }
}

/// Payload of a typo-criterion edge: an exact phrase, or a word with its
/// derivations taken at a fixed typo count.
pub enum TypoEdge {
    Phrase { phrase: Phrase },
    Word { derivations: WordDerivations, nbr_typos: u8 },
}

pub enum TypoEdgeV {
    Phrase { phrase: PhraseV },
    Word { derivations: WordDerivationsV, nbr_typos: u8 },
}

impl View for TypoEdge {
    type V = TypoEdgeV;

    open spec fn view(&self) -> TypoEdgeV {
        match self {
            TypoEdge::Phrase { phrase } => TypoEdgeV::Phrase { phrase: phrase@ },
            TypoEdge::Word { derivations, nbr_typos } => TypoEdgeV::Word {
                derivations: derivations@,
                nbr_typos: *nbr_typos,
            },
        }
    }
}

/// The typo count of an edge is one of the three buckets the on-disk
/// derivation tables populate; any other value is a contract violation.
pub open spec fn typo_edge_wf(e: TypoEdgeV) -> bool {
    match e {
        TypoEdgeV::Phrase { .. } => true,
        TypoEdgeV::Word { nbr_typos, .. } => nbr_typos <= 2,
    }
}

/// The word list of a derivation set at a given typo count.
pub open spec fn typo_bucket(d: WordDerivationsV, c: u8) -> Seq<Seq<char>> {
    if c == 0 {
        d.zero_typo
    } else if c == 1 {
        d.one_typo
    } else {
        d.two_typos
    }
}

/// The label a graph visualization shows beside an edge.
pub open spec fn label_spec(e: TypoEdgeV) -> Seq<char> {
    match e {
        TypoEdgeV::Phrase { .. } => ", 0 typos"@,
        TypoEdgeV::Word { nbr_typos, .. } => if nbr_typos == 0 {
            ", 0 typos"@
        } else if nbr_typos == 1 {
            ", 1 typos"@
        } else {
            ", 2 typos"@
        },
    }
}

/// The weighted edges generated for the derivations of a single word: one
/// edge per non-empty typo bucket, cost equal to the bucket index; the
/// zero-typo edge is also generated, with an empty zero-typo list, when the
/// word is to be matched as a prefix.
pub open spec fn word_edges_spec(d: WordDerivationsV) -> Seq<(u8, EdgeDetailsV<TypoEdgeV>)> {
    (if d.zero_typo.len() > 0 || d.use_prefix_db {
        seq![
            (0u8, EdgeDetailsV::Data(TypoEdgeV::Word { derivations: d, nbr_typos: 0u8 })),
        ]
    } else {
        Seq::empty()
    }) + (if d.one_typo.len() > 0 {
        seq![
            (1u8, EdgeDetailsV::Data(TypoEdgeV::Word { derivations: d, nbr_typos: 1u8 })),
        ]
    } else {
        Seq::empty()
    }) + (if d.two_typos.len() > 0 {
        seq![
            (2u8, EdgeDetailsV::Data(TypoEdgeV::Word { derivations: d, nbr_typos: 2u8 })),
        ]
    } else {
        Seq::empty()
    })
}

/// Every weighted edge the typo criterion generates to reach a node: a single
/// zero-cost data edge for a phrase term, the per-bucket edges for a word
/// term, a single zero-cost unconditional edge into the end sentinel.
pub open spec fn typo_edges_spec(node: QueryNodeV) -> Seq<(u8, EdgeDetailsV<TypoEdgeV>)> {
    match node {
        QueryNodeV::Term(t) => match t.value {
            QueryTermV::Phrase { phrase } => seq![
                (0u8, EdgeDetailsV::Data(TypoEdgeV::Phrase { phrase })),
            ],
            QueryTermV::Word { derivations } => word_edges_spec(derivations),
        },
        QueryNodeV::End => seq![(0u8, EdgeDetailsV::Unconditional)],
        _ => Seq::empty(),
    }
}

/// View of a produced edge list.
pub open spec fn edge_list_view(v: Seq<(u8, EdgeDetails<TypoEdge>)>) -> Seq<
    (u8, EdgeDetailsV<TypoEdgeV>),
> {
    v.map_values(|p: (u8, EdgeDetails<TypoEdge>)| (p.0, p.1@))
}

/// The typo-tolerance implementation of the edge-resolver capability.
pub struct TypoGraph;

impl TypoGraph {
    /// The label shown beside an edge by graph-visualization tooling.
    pub fn graphviz_edge_details_label(edge: &TypoEdge) -> (r: String)
        requires
            typo_edge_wf(edge@),
        ensures
            r@ == label_spec(edge@),
    {
        match edge {
            TypoEdge::Phrase { .. } => String::from_str(", 0 typos"),
            TypoEdge::Word { nbr_typos, .. } => {
                if *nbr_typos == 0 {
                    String::from_str(", 0 typos")
                } else if *nbr_typos == 1 {
                    String::from_str(", 1 typos")
                } else {
                    String::from_str(", 2 typos")
                }
            },
        }
    }

    /// Per-from-node state for the typo criterion: it needs none, and every
    /// node is visitable, so the state is always present and empty.
    pub fn build_visit_from_node(_from_node: &QueryNode) -> (r: Option<()>)
        ensures
            r is Some,
    {
        Some(())
    }

    /// Produces every outgoing edge reaching `to_node`. Visiting the start
    /// sentinel or a deleted node is a contract violation, excluded here.
    pub fn build_visit_to_node(to_node: &QueryNode) -> (r: Vec<(u8, EdgeDetails<TypoEdge>)>)
        requires
            !(to_node@ is Start),
            !(to_node@ is Deleted),
        ensures
            edge_list_view(r@) == typo_edges_spec(to_node@),
    {
        match to_node {
            QueryNode::Term(located) => match &located.value {
                QueryTerm::Phrase { phrase } => {
                    let mut edges: Vec<(u8, EdgeDetails<TypoEdge>)> = Vec::new();
                    edges.push(
                        (0, EdgeDetails::Data(TypoEdge::Phrase { phrase: phrase.clone() })),
                    );
                    proof {
                        assert(edge_list_view(edges@) =~= typo_edges_spec(to_node@));
                    }
                    edges
                },
                QueryTerm::Word { derivations } => {
                    let mut edges: Vec<(u8, EdgeDetails<TypoEdge>)> = Vec::new();
                    if derivations.zero_typo.len() > 0 || derivations.use_prefix_db {
                        edges.push(
                            (
                                0,
                                EdgeDetails::Data(
                                    TypoEdge::Word {
                                        derivations: derivations.clone(),
                                        nbr_typos: 0,
                                    },
                                ),
                            ),
                        );
                    }
                    if derivations.one_typo.len() > 0 {
                        edges.push(
                            (
                                1,
                                EdgeDetails::Data(
                                    TypoEdge::Word {
                                        derivations: derivations.clone(),
                                        nbr_typos: 1,
                                    },
                                ),
                            ),
                        );
                    }
                    if derivations.two_typos.len() > 0 {
                        edges.push(
                            (
                                2,
                                EdgeDetails::Data(
                                    TypoEdge::Word {
                                        derivations: derivations.clone(),
                                        nbr_typos: 2,
                                    },
                                ),
                            ),
                        );
                    }
                    proof {
                        assert(edge_list_view(edges@) =~= typo_edges_spec(to_node@));
                    }
                    edges
                },
            },
            QueryNode::End => {
                let mut edges: Vec<(u8, EdgeDetails<TypoEdge>)> = Vec::new();
                edges.push((0, EdgeDetails::Unconditional));
                proof {
                    assert(edge_list_view(edges@) =~= typo_edges_spec(to_node@));
                }
                edges
            },
            QueryNode::Start | QueryNode::Deleted => {
                proof {
                    assert(false);
                }
                Vec::new()
            },
        }
    }
}

/// Whether an edge list holds an edge of the given cost.
pub open spec fn has_cost(s: Seq<(u8, EdgeDetailsV<TypoEdgeV>)>, c: u8) -> bool {
    exists|i: int| 0 <= i < s.len() && (#[trigger] s[i]).0 == c
}

/// The edges generated for a word term cover exactly the non-empty typo
/// buckets — plus, when `use_prefix_db` is set, the zero-typo bucket even if
/// its word list is empty — each with cost equal to its bucket index; a word
/// whose three buckets are empty and whose prefix flag is unset generates no
/// edge at all.
pub proof fn lemma_word_edges_cover_buckets(d: WordDerivationsV)
    ensures
        has_cost(word_edges_spec(d), 0) <==> (d.zero_typo.len() > 0 || d.use_prefix_db),
        has_cost(word_edges_spec(d), 1) <==> d.one_typo.len() > 0,
        has_cost(word_edges_spec(d), 2) <==> d.two_typos.len() > 0,
        forall|i: int|
            0 <= i < word_edges_spec(d).len() ==> (#[trigger] word_edges_spec(d)[i]) == (
            word_edges_spec(d)[i].0,
            EdgeDetailsV::<TypoEdgeV>::Data(
                TypoEdgeV::Word { derivations: d, nbr_typos: word_edges_spec(d)[i].0 },
            ),
            ) && word_edges_spec(d)[i].0 <= 2,
        (d.zero_typo.len() == 0 && d.one_typo.len() == 0 && d.two_typos.len() == 0
            && !d.use_prefix_db) ==> word_edges_spec(d).len() == 0,
{
    let s = word_edges_spec(d);
    let b0 = d.zero_typo.len() > 0 || d.use_prefix_db;
    let b1 = d.one_typo.len() > 0;
    let b2 = d.two_typos.len() > 0;
    let n0: int = if b0 { 1 } else { 0 };
    let n1: int = if b1 { 1 } else { 0 };
    if b0 {
        assert(s[0].0 == 0);
    }
    if b1 {
        assert(s[n0].0 == 1);
    }
    if b2 {
        assert(s[n0 + n1].0 == 2);
    }
    assert forall|i: int| 0 <= i < s.len() implies (#[trigger] s[i]) == (
        s[i].0,
        EdgeDetailsV::<TypoEdgeV>::Data(TypoEdgeV::Word { derivations: d, nbr_typos: s[i].0 }),
    ) && s[i].0 <= 2 && (s[i].0 == 0 ==> b0) && (s[i].0 == 1 ==> b1) && (s[i].0 == 2 ==> b2) by {
        assert(i < n0 || i < n0 + n1 || i < n0 + n1 + (if b2 { 1int } else { 0 }));
    }
    if has_cost(s, 0) {
        let i = choose|i: int| 0 <= i < s.len() && (#[trigger] s[i]).0 == 0;
        assert(b0);
    }
    if has_cost(s, 1) {
        let i = choose|i: int| 0 <= i < s.len() && (#[trigger] s[i]).0 == 1;
        assert(b1);
    }
    if has_cost(s, 2) {
        let i = choose|i: int| 0 <= i < s.len() && (#[trigger] s[i]).0 == 2;
        assert(b2);
    }
}

/// Every edge generated for a phrase term is a phrase edge of cost zero.
pub proof fn lemma_phrase_edges_zero_cost(phrase: PhraseV, t: crate::query::LocatedQueryTermV)
    requires
        t.value == (QueryTermV::Phrase { phrase }),
    ensures
        typo_edges_spec(QueryNodeV::Term(t)) =~= seq![
            (0u8, EdgeDetailsV::Data(TypoEdgeV::Phrase { phrase })),
        ],
{
}

/// The union, over the words from position `i` on, of each word's posting
/// set; nothing when any of them fails to decode.
pub open spec fn union_postings(idx: PostingsIndexV, ws: Seq<Seq<char>>, i: int) -> Option<
    Set<u32>,
>
    decreases ws.len() - i,
{
    if i < 0 || i >= ws.len() {
        Some(Set::<u32>::empty())
    } else {
        match (word_posting(idx, ws[i]), union_postings(idx, ws, i + 1)) {
            (Some(a), Some(b)) => Some(a.union(b)),
            _ => None,
        }
    }
}

/// The documents a typo edge resolves to: phrase edges delegate to phrase
/// resolution; word edges take the union of the selected bucket's postings,
/// plus, at typo count zero, the prefix posting of the original word.
/// Nothing when any needed entry fails to decode.
pub open spec fn resolve_typo_edge(idx: PostingsIndexV, e: TypoEdgeV) -> Option<Set<u32>> {
    match e {
        TypoEdgeV::Phrase { phrase } => phrase_posting(idx, phrase.words),
        TypoEdgeV::Word { derivations: d, nbr_typos: c } => {
            let prefix_part = if c == 0 {
                prefix_posting(idx, d.original)
            } else {
                Some(Set::<u32>::empty())
            };
            match (union_postings(idx, typo_bucket(d, c), 0), prefix_part) {
                (Some(a), Some(b)) => Some(a.union(b)),
                _ => None,
            }
        },
    }
}

/// A word whose posting fails to decode makes the whole union fail.
pub proof fn lemma_union_postings_none(idx: PostingsIndexV, ws: Seq<Seq<char>>, j: int, k: int)
    requires
        0 <= j <= k < ws.len(),
        word_posting(idx, ws[k]) is None,
    ensures
        union_postings(idx, ws, j) is None,
    decreases k - j,
{
    if j < k {
        lemma_union_postings_none(idx, ws, j + 1, k);
    }
}

/// A document belongs to the union of a bucket's postings exactly when some
/// word of the bucket holds it: the union is order-independent, idempotent
/// and duplicate-safe, since membership alone decides it.
pub proof fn lemma_union_postings_membership(
    idx: PostingsIndexV,
    ws: Seq<Seq<char>>,
    i: int,
    x: u32,
)
    requires
        0 <= i <= ws.len(),
        union_postings(idx, ws, i) is Some,
    ensures
        union_postings(idx, ws, i)->0.contains(x) <==> exists|k: int|
            i <= k < ws.len() && (#[trigger] word_posting(idx, ws[k])) is Some && word_posting(
                idx,
                ws[k],
            )->0.contains(x),
    decreases ws.len() - i,
{
    if i < ws.len() {
        lemma_union_postings_membership(idx, ws, i + 1, x);
        if word_posting(idx, ws[i])->0.contains(x) {
            assert(word_posting(idx, ws[i]) is Some && word_posting(idx, ws[i])->0.contains(x));
        }
        if exists|k: int|
            i <= k < ws.len() && (#[trigger] word_posting(idx, ws[k])) is Some && word_posting(
                idx,
                ws[k],
            )->0.contains(x) {
            let k = choose|k: int|
                i <= k < ws.len() && (#[trigger] word_posting(idx, ws[k])) is Some
                    && word_posting(idx, ws[k])->0.contains(x);
            if k > i {
                assert(union_postings(idx, ws, i + 1)->0.contains(x));
            }
        }
    }
}

impl TypoGraph {
    /// Resolves an edge to its document set: pure in the index snapshot, safe
    /// to call any number of times; callers memoize by edge id.
    #[verifier::loop_isolation(false)]
    pub fn compute_docids(cache: &mut DbCache, edge: &TypoEdge) -> (r: Result<
        RoaringBitmap,
        SearchError,
    >)
        requires
            old(cache).wf(),
            typo_edge_wf(edge@),
        ensures
            final(cache).wf(),
            final(cache).index_view() == old(cache).index_view(),
            match r {
                Ok(b) => resolve_typo_edge(old(cache).index_view(), edge@) == Some(bitmap_set(b)),
                Err(e) => e == SearchError::Decoding && resolve_typo_edge(
                    old(cache).index_view(),
                    edge@,
                ) is None,
            },
    {
        let ghost idx = old(cache).index_view();
        match edge {
            TypoEdge::Phrase { phrase } => resolve_phrase(cache, phrase),
            TypoEdge::Word { derivations, nbr_typos } => {
                let words: &Vec<String> = if *nbr_typos == 0 {
                    &derivations.zero_typo
                } else if *nbr_typos == 1 {
                    &derivations.one_typo
                } else {
                    &derivations.two_typos
                };
                let ghost wsv = typo_bucket(derivations@, *nbr_typos);
                proof {
                    assert(wsv == crate::query::seq_view(words@));
                }
                let mut docids = bitmap_new();
                let mut i: usize = 0;
                while i < words.len()
                    invariant
                        cache.wf(),
                        cache.index_view() == idx,
                        i <= words.len(),
                        union_postings(idx, wsv, i as int) is Some ==> union_postings(idx, wsv, 0)
                            == Some(
                            bitmap_set(docids).union(union_postings(idx, wsv, i as int)->0),
                        ),
                        union_postings(idx, wsv, i as int) is None ==> union_postings(
                            idx,
                            wsv,
                            0,
                        ) is None,
                    decreases words.len() - i,
                {
                    let ghost pre = bitmap_set(docids);
                    let ghost rest = union_postings(idx, wsv, i as int + 1);
                    match cache.get_word_docids(&words[i]) {
                        Ok(Some(b)) => {
                            proof {
                                assert(word_posting(idx, wsv[i as int]) == Some(bitmap_set(b)));
                            }
                            bitmap_union_with(&mut docids, &b);
                            proof {
                                if rest is Some {
                                    assert(pre.union(bitmap_set(b).union(rest->0)) =~= bitmap_set(
                                        docids,
                                    ).union(rest->0));
                                }
                            }
                        },
                        Ok(None) => {
                            proof {
                                assert(word_posting(idx, wsv[i as int]) == Some(
                                    Set::<u32>::empty(),
                                ));
                                if rest is Some {
                                    assert(pre.union(Set::<u32>::empty().union(rest->0))
                                        =~= bitmap_set(docids).union(rest->0));
                                }
                            }
                        },
                        Err(e) => {
                            proof {
                                lemma_union_postings_none(idx, wsv, 0, i as int);
                            }
                            return Err(e);
                        },
                    }
                    i = i + 1;
                }
                proof {
                    assert(union_postings(idx, wsv, words@.len() as int) == Some(
                        Set::<u32>::empty(),
                    ));
                    assert(bitmap_set(docids).union(Set::<u32>::empty()) =~= bitmap_set(docids));
                    assert(union_postings(idx, wsv, 0) == Some(bitmap_set(docids)));
                }
                if *nbr_typos == 0 {
                    match cache.get_prefix_docids(&derivations.original) {
                        Ok(Some(b)) => {
                            let ghost pre = bitmap_set(docids);
                            bitmap_union_with(&mut docids, &b);
                            proof {
                                assert(resolve_typo_edge(idx, edge@) == Some(pre.union(
                                    bitmap_set(b),
                                )));
                            }
                            Ok(docids)
                        },
                        Ok(None) => {
                            proof {
                                assert(prefix_posting(idx, derivations@.original) == Some(
                                    Set::<u32>::empty(),
                                ));
                                assert(bitmap_set(docids).union(Set::<u32>::empty()) =~= bitmap_set(
                                    docids,
                                ));
                            }
                            Ok(docids)
                        },
                        Err(e) => Err(e),
                    }
                } else {
                    proof {
                        assert(bitmap_set(docids).union(Set::<u32>::empty()) =~= bitmap_set(
                            docids,
                        ));
                    }
                    Ok(docids)
                }
            },
        }
    }
}


/// The criterion generates at most three edges per node, and every data edge
/// it generates is well formed.
pub proof fn lemma_typo_edges_props(node: QueryNodeV)
    ensures
        typo_edges_spec(node).len() <= 3,
        forall|t: int|
            0 <= t < typo_edges_spec(node).len() ==> ((#[trigger] typo_edges_spec(node)[t]).1
                matches EdgeDetailsV::Data(e) ==> typo_edge_wf(e)),
{
    match node {
        QueryNodeV::Term(t) => match t.value {
            QueryTermV::Word { derivations } => {
                lemma_word_edges_cover_buckets(derivations);
            },
            QueryTermV::Phrase { .. } => {},
        },
        _ => {},
    }
}

} // verus!
