//! Ranking-rule graph engine for a full-text search index.
//!
//! A tokenized query is turned into a directed acyclic query graph; a ranking
//! criterion (typo tolerance) labels its adjacencies with weighted edges, each
//! of which resolves to a compressed set of matching document ids; a path
//! search enumerates interpretations of the query in order of increasing cost
//! and partitions a universe of eligible documents into cost-ordered buckets.

pub mod bitmap;
pub mod empty_paths_cache;
pub mod error;
pub mod logger;
pub mod path_search;
pub mod postings;
pub mod query;
pub mod query_tokens;
pub mod ranking_rule_graph;
pub mod typo;
