//! The query-graph node model: terms, their word derivations, and the
//! directed acyclic graph with one node per query-term slot.

use vstd::prelude::*;

verus! {

/// Sequence of character views of a sequence of strings.
pub open spec fn seq_view(v: Seq<String>) -> Seq<Seq<char>> {
    v.map_values(|s: String| s@)
}

/// Clones a vector of strings, keeping every element.
pub fn clone_string_vec(v: &Vec<String>) -> (r: Vec<String>)
    ensures
        r@ == v@,
{
    let mut r: Vec<String> = Vec::new();
    let mut i: usize = 0;
    while i < v.len()
        invariant
            i <= v.len(),
            r@.len() == i,
            forall|j: int| 0 <= j < i ==> r@[j] == v@[j],
        decreases v.len() - i,
    {
        r.push(v[i].clone());
        i = i + 1;
    }
    proof {
        assert(r@ =~= v@);
    }
    r
}

/// An ordered sequence of words that must match contiguously and in order;
/// resolved atomically by phrase resolution, with no typo tolerance.
pub struct Phrase {
    pub words: Vec<String>,
}

pub struct PhraseV {
    pub words: Seq<Seq<char>>,
}

impl View for Phrase {
    type V = PhraseV;

    open spec fn view(&self) -> PhraseV {
        PhraseV { words: seq_view(self.words@) }
    }
}

impl Clone for Phrase {
    fn clone(&self) -> (r: Self)
        ensures
            r@ == self@,
    {
        Phrase { words: clone_string_vec(&self.words) }
    }
}

/// The original surface word of a query term, its candidate words at each
/// typo distance, and whether the word should also match as a prefix.
///
/// A word list may be empty: no candidate exists at that distance.
/// `use_prefix_db` is only meaningful at typo distance zero.
pub struct WordDerivations {
    pub original: String,
    pub zero_typo: Vec<String>,
    pub one_typo: Vec<String>,
    pub two_typos: Vec<String>,
    pub use_prefix_db: bool,
}

pub struct WordDerivationsV {
    pub original: Seq<char>,
    pub zero_typo: Seq<Seq<char>>,
    pub one_typo: Seq<Seq<char>>,
    pub two_typos: Seq<Seq<char>>,
    pub use_prefix_db: bool,
}

impl View for WordDerivations {
    type V = WordDerivationsV;

    open spec fn view(&self) -> WordDerivationsV {
        WordDerivationsV {
            original: self.original@,
            zero_typo: seq_view(self.zero_typo@),
            one_typo: seq_view(self.one_typo@),
            two_typos: seq_view(self.two_typos@),
            use_prefix_db: self.use_prefix_db,
        }
    }
}

impl Clone for WordDerivations {
    fn clone(&self) -> (r: Self)
        ensures
            r@ == self@,
    {
        WordDerivations {
            original: self.original.clone(),
            zero_typo: clone_string_vec(&self.zero_typo),
            one_typo: clone_string_vec(&self.one_typo),
            two_typos: clone_string_vec(&self.two_typos),
            use_prefix_db: self.use_prefix_db,
        }
    }
}

/// A query term: a word with its derivations, or an exact phrase.
pub enum QueryTerm {
    Word { derivations: WordDerivations },
    Phrase { phrase: Phrase },
}

pub enum QueryTermV {
    Word { derivations: WordDerivationsV },
    Phrase { phrase: PhraseV },
}

impl View for QueryTerm {
    type V = QueryTermV;

    open spec fn view(&self) -> QueryTermV {
        match self {
            QueryTerm::Word { derivations } => QueryTermV::Word { derivations: derivations@ },
            QueryTerm::Phrase { phrase } => QueryTermV::Phrase { phrase: phrase@ },
        }
    }
}

/// A query term together with its original token position; the position is
/// used only for display and diagnostics, never for resolution.
pub struct LocatedQueryTerm {
    pub value: QueryTerm,
    pub position: usize,
}

pub struct LocatedQueryTermV {
    pub value: QueryTermV,
    pub position: int,
}

impl View for LocatedQueryTerm {
    type V = LocatedQueryTermV;

    open spec fn view(&self) -> LocatedQueryTermV {
        LocatedQueryTermV { value: self.value@, position: self.position as int }
    }
}

/// A node of the query graph: the two sentinels, a term slot, or a node
/// removed from consideration, which the resolver must never visit.
pub enum QueryNode {
    Start,
    End,
    Term(LocatedQueryTerm),
    Deleted,
}

pub enum QueryNodeV {
    Start,
    End,
    Term(LocatedQueryTermV),
    Deleted,
}

impl View for QueryNode {
    type V = QueryNodeV;

    open spec fn view(&self) -> QueryNodeV {
        match self {
            QueryNode::Start => QueryNodeV::Start,
            QueryNode::End => QueryNodeV::End,
            QueryNode::Term(t) => QueryNodeV::Term(t@),
            QueryNode::Deleted => QueryNodeV::Deleted,
        }
    }
}

/// The query graph: a DAG with the start sentinel first, the end sentinel
/// last, and explicit successor lists whose edges all point forward.
pub struct QueryGraph {
    pub nodes: Vec<QueryNode>,
    pub successors: Vec<Vec<usize>>,
}

pub struct QueryGraphV {
    pub nodes: Seq<QueryNodeV>,
    pub successors: Seq<Seq<usize>>,
}

impl View for QueryGraph {
    type V = QueryGraphV;

    open spec fn view(&self) -> QueryGraphV {
        QueryGraphV {
            nodes: self.nodes@.map_values(|n: QueryNode| n@),
            successors: self.successors@.map_values(|v: Vec<usize>| v@),
        }
    }
}

/// Well-formedness of a query graph: sentinels in place, successor edges
/// forward-pointing, and never into the start sentinel or a deleted node,
/// nor out of a deleted node.
pub open spec fn graph_wf(g: QueryGraphV) -> bool {
    &&& 2 <= g.nodes.len()
    &&& g.nodes.len() <= 0x7FFF
    &&& forall|i: int|
        0 <= i < g.successors.len() ==> (#[trigger] g.successors[i]).len() <= g.nodes.len()
    &&& g.nodes[0] is Start
    &&& g.nodes[g.nodes.len() - 1] is End
    &&& g.successors.len() == g.nodes.len()
    &&& forall|i: int, k: int|
        0 <= i < g.successors.len() && 0 <= k < g.successors[i].len() ==> {
            &&& i < #[trigger] g.successors[i][k] < g.nodes.len()
            &&& !(g.nodes[g.successors[i][k] as int] is Start)
            &&& !(g.nodes[g.successors[i][k] as int] is Deleted)
        }
    &&& forall|i: int|
        0 <= i < g.nodes.len() && g.nodes[i] is Deleted ==> (#[trigger] g.successors[i]).len()
            == 0
}

} // verus!
