use roaring::RoaringBitmap;
use typo_graph::empty_paths_cache::EmptyPathsCache;
use typo_graph::error::SearchError;
use typo_graph::logger::SearchLogger;
use typo_graph::path_search::search_buckets;
use typo_graph::postings::{DbCache, PhraseEntry, PostingEntry, PostingsIndex};
use typo_graph::query::{
    LocatedQueryTerm, Phrase, QueryGraph, QueryNode, QueryTerm, WordDerivations,
};
use typo_graph::ranking_rule_graph::RankingRuleGraph;
use typo_graph::typo::{EdgeDetails, TypoEdge, TypoGraph};

struct NullLogger;

impl SearchLogger for NullLogger {
    fn log_typo_state(
        &mut self,
        _graph: &RankingRuleGraph,
        _paths: &Vec<Vec<u32>>,
        _empty_paths_cache: &EmptyPathsCache,
        _universe: &RoaringBitmap,
        _distances: &Vec<Vec<u64>>,
        _cost: u64,
    ) {
    }
}

fn bm(ids: &[u32]) -> RoaringBitmap {
    let mut b = RoaringBitmap::new();
    for &i in ids {
        b.insert(i);
    }
    b
}

fn bytes_of(ids: &[u32]) -> Vec<u8> {
    let mut out = Vec::new();
    bm(ids).serialize_into(&mut out).unwrap();
    out
}

fn word_entry(w: &str, ids: &[u32]) -> PostingEntry {
    PostingEntry { key: w.to_string(), bytes: bytes_of(ids) }
}

fn strings(words: &[&str]) -> Vec<String> {
    words.iter().map(|w| w.to_string()).collect()
}

fn derivs(
    original: &str,
    zero: &[&str],
    one: &[&str],
    two: &[&str],
    use_prefix_db: bool,
) -> WordDerivations {
    WordDerivations {
        original: original.to_string(),
        zero_typo: strings(zero),
        one_typo: strings(one),
        two_typos: strings(two),
        use_prefix_db,
    }
}

fn word_node(d: WordDerivations) -> QueryNode {
    QueryNode::Term(LocatedQueryTerm { value: QueryTerm::Word { derivations: d }, position: 0 })
}

fn phrase_node(words: &[&str]) -> QueryNode {
    QueryNode::Term(LocatedQueryTerm {
        value: QueryTerm::Phrase { phrase: Phrase { words: strings(words) } },
        position: 0,
    })
}

fn chain_graph(terms: Vec<QueryNode>) -> QueryGraph {
    let mut nodes = vec![QueryNode::Start];
    for t in terms {
        nodes.push(t);
    }
    nodes.push(QueryNode::End);
    let n = nodes.len();
    let mut successors: Vec<Vec<usize>> = Vec::new();
    for i in 0..n {
        if i + 1 < n {
            successors.push(vec![i + 1]);
        } else {
            successors.push(vec![]);
        }
    }
    QueryGraph { nodes, successors }
}

fn ids(b: &RoaringBitmap) -> Vec<u32> {
    b.iter().collect()
}

#[test]
fn cost_buckets_for_typo_derivations() {
    let qg = chain_graph(vec![word_node(derivs("cat", &["cat"], &["cats"], &[], false))]);
    let index = PostingsIndex {
        words: vec![word_entry("cat", &[1, 2]), word_entry("cats", &[3])],
        prefixes: vec![],
        phrases: vec![],
    };
    let mut cache = DbCache::new(index);
    let mut g = RankingRuleGraph::build(&qg);
    let universe = bm(&[1, 2, 3, 4, 5]);
    let buckets = search_buckets(&mut g, &mut cache, &universe, true, &mut NullLogger).unwrap();
    assert_eq!(buckets.len(), 2);
    assert_eq!(buckets[0].0, 0);
    assert_eq!(ids(&buckets[0].1), vec![1, 2]);
    assert_eq!(buckets[1].0, 1);
    assert_eq!(ids(&buckets[1].1), vec![3]);
}

#[test]
fn quoted_phrase_resolves_only_via_phrase_table() {
    let qg = chain_graph(vec![
        phrase_node(&["New", "York"]),
        word_node(derivs("the", &["the"], &[], &[], false)),
    ]);
    let index = PostingsIndex {
        words: vec![word_entry("New", &[1, 2]), word_entry("the", &[7, 8])],
        prefixes: vec![],
        phrases: vec![PhraseEntry { words: strings(&["New", "York"]), bytes: bytes_of(&[7]) }],
    };
    let mut cache = DbCache::new(index);
    let mut g = RankingRuleGraph::build(&qg);
    let universe = bm(&[1, 2, 3, 4, 5, 6, 7, 8, 9]);
    let buckets = search_buckets(&mut g, &mut cache, &universe, true, &mut NullLogger).unwrap();
    assert_eq!(buckets.len(), 1);
    assert_eq!(buckets[0].0, 0);
    assert_eq!(ids(&buckets[0].1), vec![7]);
}

#[test]
fn empty_derivations_make_node_dead() {
    let node = word_node(derivs("gone", &[], &[], &[], false));
    let edges = TypoGraph::build_visit_to_node(&node);
    assert_eq!(edges.len(), 0);

    let qg = chain_graph(vec![word_node(derivs("gone", &[], &[], &[], false))]);
    let index = PostingsIndex { words: vec![], prefixes: vec![], phrases: vec![] };
    let mut cache = DbCache::new(index);
    let mut g = RankingRuleGraph::build(&qg);
    let universe = bm(&[1, 2, 3]);
    let buckets = search_buckets(&mut g, &mut cache, &universe, true, &mut NullLogger).unwrap();
    assert_eq!(buckets.len(), 0);
}

#[test]
fn word_edges_cover_nonempty_buckets_and_prefix_flag() {
    let with_prefix = word_node(derivs("w", &[], &["x"], &["y"], true));
    let edges = TypoGraph::build_visit_to_node(&with_prefix);
    let costs: Vec<u8> = edges.iter().map(|(c, _)| *c).collect();
    assert_eq!(costs, vec![0, 1, 2]);

    let only_one = word_node(derivs("w", &[], &["x"], &[], false));
    let edges = TypoGraph::build_visit_to_node(&only_one);
    let costs: Vec<u8> = edges.iter().map(|(c, _)| *c).collect();
    assert_eq!(costs, vec![1]);
}

#[test]
fn word_edge_unions_bucket_postings() {
    let index = PostingsIndex {
        words: vec![
            word_entry("a", &[1, 2]),
            word_entry("b", &[2, 3]),
            word_entry("c", &[4]),
        ],
        prefixes: vec![word_entry("w", &[10])],
        phrases: vec![],
    };
    let mut cache = DbCache::new(index);
    let d = derivs("w", &["a", "b", "missing"], &["c"], &[], false);
    let zero = TypoEdge::Word { derivations: d.clone(), nbr_typos: 0 };
    let got = TypoGraph::compute_docids(&mut cache, &zero).unwrap();
    assert_eq!(ids(&got), vec![1, 2, 3, 10]);

    let one = TypoEdge::Word { derivations: d, nbr_typos: 1 };
    let got = TypoGraph::compute_docids(&mut cache, &one).unwrap();
    assert_eq!(ids(&got), vec![4]);
}

#[test]
fn phrase_edge_is_zero_cost_and_delegates() {
    let node = phrase_node(&["New", "York"]);
    let edges = TypoGraph::build_visit_to_node(&node);
    assert_eq!(edges.len(), 1);
    assert_eq!(edges[0].0, 0);
    let edge = match &edges[0].1 {
        EdgeDetails::Data(e) => e,
        EdgeDetails::Unconditional => panic!("phrase node must carry data"),
    };
    let index = PostingsIndex {
        words: vec![],
        prefixes: vec![],
        phrases: vec![PhraseEntry { words: strings(&["New", "York"]), bytes: bytes_of(&[7]) }],
    };
    let mut cache = DbCache::new(index);
    let got = TypoGraph::compute_docids(&mut cache, edge).unwrap();
    assert_eq!(ids(&got), vec![7]);
}

#[test]
fn corrupt_postings_abort_with_decoding_error() {
    let index = PostingsIndex {
        words: vec![PostingEntry { key: "bad".to_string(), bytes: vec![1, 2, 3] }],
        prefixes: vec![],
        phrases: vec![],
    };
    let mut cache = DbCache::new(index);
    let edge = TypoEdge::Word {
        derivations: derivs("bad", &["bad"], &[], &[], false),
        nbr_typos: 0,
    };
    let got = TypoGraph::compute_docids(&mut cache, &edge);
    assert_eq!(got, Err(SearchError::Decoding));
}

#[test]
fn pruning_never_changes_buckets() {
    let build = || {
        chain_graph(vec![
            word_node(derivs("dead", &["dead"], &["dread"], &[], false)),
            word_node(derivs("end", &["end"], &[], &[], false)),
        ])
    };
    let index = || PostingsIndex {
        words: vec![
            word_entry("dead", &[100]),
            word_entry("dread", &[1, 2]),
            word_entry("end", &[2, 3]),
        ],
        prefixes: vec![],
        phrases: vec![],
    };
    let universe = bm(&[1, 2, 3, 4]);

    let mut cache_a = DbCache::new(index());
    let mut g_a = RankingRuleGraph::build(&build());
    let with_cache =
        search_buckets(&mut g_a, &mut cache_a, &universe, true, &mut NullLogger).unwrap();

    let mut cache_b = DbCache::new(index());
    let mut g_b = RankingRuleGraph::build(&build());
    let without_cache =
        search_buckets(&mut g_b, &mut cache_b, &universe, false, &mut NullLogger).unwrap();

    assert_eq!(with_cache.len(), without_cache.len());
    for (a, b) in with_cache.iter().zip(without_cache.iter()) {
        assert_eq!(a.0, b.0);
        assert_eq!(ids(&a.1), ids(&b.1));
    }
    assert_eq!(with_cache.len(), 1);
    assert_eq!(with_cache[0].0, 1);
    assert_eq!(ids(&with_cache[0].1), vec![2]);
}

#[test]
fn edge_labels_show_typo_count() {
    let phrase = TypoEdge::Phrase { phrase: Phrase { words: strings(&["a", "b"]) } };
    assert_eq!(TypoGraph::graphviz_edge_details_label(&phrase), ", 0 typos");
    let word = TypoEdge::Word { derivations: derivs("w", &["w"], &[], &[], false), nbr_typos: 2 };
    assert_eq!(TypoGraph::graphviz_edge_details_label(&word), ", 2 typos");
}

#[test]
fn cache_distinguishes_absent_from_stored() {
    let index = PostingsIndex {
        words: vec![word_entry("cat", &[1, 2])],
        prefixes: vec![],
        phrases: vec![],
    };
    let mut cache = DbCache::new(index);
    let got = cache.get_word_docids(&"cat".to_string()).unwrap().unwrap();
    assert_eq!(ids(&got), vec![1, 2]);
    let absent = cache.get_word_docids(&"dog".to_string()).unwrap();
    assert!(absent.is_none());
    let again = cache.get_word_docids(&"cat".to_string()).unwrap().unwrap();
    assert_eq!(ids(&again), vec![1, 2]);
}

#[test]
fn prefix_lookup_applies_only_at_zero_typos() {
    let index = || PostingsIndex {
        words: vec![word_entry("light", &[1])],
        prefixes: vec![word_entry("light", &[5, 6])],
        phrases: vec![],
    };
    let mut cache = DbCache::new(index());
    let zero = TypoEdge::Word {
        derivations: derivs("light", &["light"], &["lights"], &[], true),
        nbr_typos: 0,
    };
    let got = TypoGraph::compute_docids(&mut cache, &zero).unwrap();
    assert_eq!(ids(&got), vec![1, 5, 6]);

    let mut cache = DbCache::new(index());
    let one = TypoEdge::Word {
        derivations: derivs("light", &["light"], &["lights"], &[], true),
        nbr_typos: 1,
    };
    let got = TypoGraph::compute_docids(&mut cache, &one).unwrap();
    assert_eq!(ids(&got), Vec::<u32>::new());
}
