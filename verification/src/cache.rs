//! Memoizing interestingness test results by content hash.
use vstd::prelude::*;

use std::collections::HashMap;

verus! {

broadcast use vstd::std_specs::hash::group_hash_axioms;

/// The XXH3 64-bit hash (seed 0) of a byte string, as computed by
/// `xxhash_rust::xxh3::xxh3_64`.
pub uninterp spec fn xxh3_64_of(data: Seq<u8>) -> u64;

/// Calls `xxhash_rust::xxh3::xxh3_64`: the result is the hash of the input
/// bytes and depends on nothing else.
#[verifier::external_body]
fn hash_bytes(source: &[u8]) -> (h: u64)
    ensures
        h == xxh3_64_of(source@),
{
    xxhash_rust::xxh3::xxh3_64(source)
}

/// Caches interestingness test results to avoid redundant test executions.
/// Uses the 64-bit XXH3 hash of the source bytes as the key.
///
/// Collisions are extremely rare (~1/2^64 per lookup) but can cause incorrect
/// cache hits; the reducer re-verifies its final output to catch them.
pub struct TestCache {
    results: HashMap<u64, bool>,
    hits: u64,
    misses: u64,
}

/// The cached result for `source` in a map keyed by content hash.
pub open spec fn lookup(results: Map<u64, bool>, source: Seq<u8>) -> Option<bool> {
    let h = xxh3_64_of(source);
    if results.contains_key(h) {
        Some(results[h])
    } else {
        None
    }
}

impl TestCache {
    #[verifier::type_invariant]
    spec fn inv(&self) -> bool {
        self.hits + self.misses <= u64::MAX
    }

    /// The stored results, by content hash.
    pub closed spec fn results(&self) -> Map<u64, bool> {
        self.results@
    }

    pub closed spec fn hit_count(&self) -> u64 {
        self.hits
    }

    pub closed spec fn miss_count(&self) -> u64 {
        self.misses
    }

    /// An empty cache with no lookups recorded.
    pub fn new() -> (r: Self)
        ensures
            r.results() == Map::<u64, bool>::empty(),
            r.hit_count() == 0,
            r.miss_count() == 0,
    {
        TestCache { results: HashMap::new(), hits: 0, misses: 0 }
    }

    /// Look up a cached result for the given source bytes: `Some(result)` on a
    /// cache hit (counted as a hit), `None` on a miss (counted as a miss).
    pub fn get(&mut self, source: &[u8]) -> (r: Option<bool>)
        requires
            old(self).hit_count() + old(self).miss_count() < u64::MAX,
        ensures
            r == lookup(old(self).results(), source@),
            final(self).results() == old(self).results(),
            r is Some ==> final(self).hit_count() == old(self).hit_count() + 1
                && final(self).miss_count() == old(self).miss_count(),
            r is None ==> final(self).miss_count() == old(self).miss_count() + 1
                && final(self).hit_count() == old(self).hit_count(),
    {
        let hash = hash_bytes(source);
        let found = match self.results.get(&hash) {
            Some(v) => Some(*v),
            None => None,
        };
        match found {
            Some(result) => {
                self.hits = self.hits + 1;
                Some(result)
            },
            None => {
                self.misses = self.misses + 1;
                None
            },
        }
    }

    /// Store a test result for the given source bytes.
    pub fn put(&mut self, source: &[u8], result: bool)
        ensures
            final(self).results() == old(self).results().insert(xxh3_64_of(source@), result),
            final(self).hit_count() == old(self).hit_count(),
            final(self).miss_count() == old(self).miss_count(),
    {
        proof {
            use_type_invariant(&*self);
        }
        let hash = hash_bytes(source);
        let mut results: HashMap<u64, bool> = HashMap::new();
        std::mem::swap(&mut results, &mut self.results);
        results.insert(hash, result);
        self.results = results;
    }

    /// Number of cache hits.
    pub fn hits(&self) -> (r: u64)
        ensures
            r == self.hit_count(),
    {
        self.hits
    }

    /// Number of cache misses.
    pub fn misses(&self) -> (r: u64)
        ensures
            r == self.miss_count(),
    {
        self.misses
    }

    /// Total lookups (hits + misses).
    pub fn lookups(&self) -> (r: u64)
        ensures
            r == self.hit_count() + self.miss_count(),
    {
        proof {
            use_type_invariant(self);
        }
        self.hits + self.misses
    }

    /// Number of entries in the cache.
    pub fn len(&self) -> (r: usize)
        ensures
            r == self.results().len(),
    {
        self.results.len()
    }

    /// Whether the cache holds no entries.
    pub fn is_empty(&self) -> (r: bool)
        ensures
            r == (self.results().len() == 0),
    {
        self.results.len() == 0
    }
}

/// After storing a result for some source, looking that source up gives back
/// the stored result: the last `put` wins.
pub proof fn law_get_after_put(results: Map<u64, bool>, source: Seq<u8>, value: bool)
    ensures
        lookup(results.insert(xxh3_64_of(source), value), source) == Some(value),
{
}

/// Storing a result for one source leaves the lookup of every source with a
/// different hash unchanged.
pub proof fn law_put_preserves_others(
    results: Map<u64, bool>,
    stored: Seq<u8>,
    value: bool,
    other: Seq<u8>,
)
    requires
        xxh3_64_of(stored) != xxh3_64_of(other),
    ensures
        lookup(results.insert(xxh3_64_of(stored), value), other) == lookup(results, other),
{
}

} // verus!
