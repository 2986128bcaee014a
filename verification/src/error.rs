//! Errors surfaced by the engine.

use vstd::prelude::*;

verus! {

/// A failure to decode the on-disk postings encoding: the index is corrupt,
/// the whole search request is aborted.
#[derive(Debug, Clone, Copy, PartialEq, Eq, Structural)]
pub enum SearchError {
    Decoding,
}

} // verus!
