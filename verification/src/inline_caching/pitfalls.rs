//! Inline-cache pitfalls: counters every cache should expose.
use vstd::prelude::*;

verus! {

/// Hit and miss counters of a cache.
pub struct IcStats {
    pub hits: u64,
    pub misses: u64,
}

} // verus!
