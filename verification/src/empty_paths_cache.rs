//! The empty-path cache: edge sequences proven to resolve, against the
//! current universe, to the empty document set. A pure optimization — it
//! changes work performed, never the buckets produced — scoped to one
//! universe and discarded with the driver that owns it.

use vstd::prelude::*;

verus! {

/// Whether `a` is a prefix of `b`.
pub open spec fn is_prefix_of(a: Seq<u32>, b: Seq<u32>) -> bool {
    a.len() <= b.len() && a == b.subrange(0, a.len() as int)
}

/// Whether some recorded sequence is a prefix of `path`.
pub open spec fn known_empty_spec(cache: Seq<Seq<u32>>, path: Seq<u32>) -> bool {
    exists|m: int| 0 <= m < cache.len() && is_prefix_of(#[trigger] cache[m], path)
}

/// The recorded edge-id sequences; this cache keys on full path prefixes.
pub struct EmptyPathsCache {
    empty_prefixes: Vec<Vec<u32>>,
}

impl View for EmptyPathsCache {
    type V = Seq<Seq<u32>>;

    closed spec fn view(&self) -> Seq<Seq<u32>> {
        self.empty_prefixes@.map_values(|v: Vec<u32>| v@)
    }
}

/// Compares `a` against the first `a.len()` elements of `b`.
#[verifier::loop_isolation(false)]
fn vec_is_prefix(a: &Vec<u32>, b: &Vec<u32>) -> (r: bool)
    ensures
        r == is_prefix_of(a@, b@),
{
    if a.len() > b.len() {
        return false;
    }
    let mut i: usize = 0;
    while i < a.len()
        invariant
            i <= a.len(),
            a@.len() <= b@.len(),
            forall|j: int| 0 <= j < i ==> a@[j] == b@[j],
        decreases a.len() - i,
    {
        if a[i] != b[i] {
            proof {
                assert(a@[i as int] != b@.subrange(0, a@.len() as int)[i as int]);
            }
            return false;
        }
        i = i + 1;
    }
    proof {
        assert(a@ =~= b@.subrange(0, a@.len() as int));
    }
    true
}

impl EmptyPathsCache {
    /// A cache with nothing recorded.
    pub fn new() -> (r: EmptyPathsCache)
        ensures
            r@ == Seq::<Seq<u32>>::empty(),
    {
        EmptyPathsCache { empty_prefixes: Vec::new() }
    }

    /// Whether a recorded sequence is a prefix of `path`, so resolving it
    /// can be skipped.
    #[verifier::loop_isolation(false)]
    pub fn is_known_empty(&self, path: &Vec<u32>) -> (r: bool)
        ensures
            r == known_empty_spec(self@, path@),
    {
        let mut m: usize = 0;
        while m < self.empty_prefixes.len()
            invariant
                m <= self.empty_prefixes.len(),
                forall|j: int| 0 <= j < m ==> !is_prefix_of(#[trigger] self@[j], path@),
            decreases self.empty_prefixes.len() - m,
        {
            if vec_is_prefix(&self.empty_prefixes[m], path) {
                proof {
                    assert(is_prefix_of(self@[m as int], path@));
                }
                return true;
            }
            m = m + 1;
        }
        false
    }

    /// Records an edge sequence proven empty against the current universe.
    pub fn mark_empty(&mut self, prefix: Vec<u32>)
        ensures
            final(self)@ == old(self)@.push(prefix@),
    {
        let ghost pre = self@;
        self.empty_prefixes.push(prefix);
        proof {
            assert(self@ =~= pre.push(prefix@));
        }
    }
}

} // verus!
