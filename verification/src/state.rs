//! The counters of the requests that were served.
use vstd::prelude::*;

verus! {

/// How many requests came in, and what became of them.
#[derive(Debug, Clone, Copy, PartialEq, Eq, Structural)]
pub struct Metrics {
    pub total_requests: u64,
    pub cache_hits: u64,
    pub cache_misses: u64,
    pub coalesced_requests: u64,
}

/// One more; after the largest count comes zero.
pub open spec fn one_more(count: u64) -> u64 {
    if count == u64::MAX {
        0
    } else {
        (count + 1) as u64
    }
}

impl Metrics {
    /// One more request.
    pub open spec fn with_request(self) -> Metrics {
        Metrics { total_requests: one_more(self.total_requests), ..self }
    }

    /// One more hit.
    pub open spec fn with_hit(self) -> Metrics {
        Metrics { cache_hits: one_more(self.cache_hits), ..self }
    }

    /// One more miss.
    pub open spec fn with_miss(self) -> Metrics {
        Metrics { cache_misses: one_more(self.cache_misses), ..self }
    }

    /// One more request that listened to another.
    pub open spec fn with_coalesced(self) -> Metrics {
        Metrics { coalesced_requests: one_more(self.coalesced_requests), ..self }
    }

    /// Nothing counted yet.
    pub fn new() -> (r: Self)
        ensures
            r == (Metrics {
                total_requests: 0,
                cache_hits: 0,
                cache_misses: 0,
                coalesced_requests: 0,
            }),
    {
        Metrics { total_requests: 0, cache_hits: 0, cache_misses: 0, coalesced_requests: 0 }
    }

    /// Counts a request.
    pub fn count_request(&mut self)
        ensures
            *final(self) == old(self).with_request(),
    {
        self.total_requests = self.total_requests.wrapping_add(1);
    }

    /// Counts a hit.
    pub fn count_hit(&mut self)
        ensures
            *final(self) == old(self).with_hit(),
    {
        self.cache_hits = self.cache_hits.wrapping_add(1);
    }

    /// Counts a miss.
    pub fn count_miss(&mut self)
        ensures
            *final(self) == old(self).with_miss(),
    {
        self.cache_misses = self.cache_misses.wrapping_add(1);
    }

    /// Counts a request that listens to another.
    pub fn count_coalesced(&mut self)
        ensures
            *final(self) == old(self).with_coalesced(),
    {
        self.coalesced_requests = self.coalesced_requests.wrapping_add(1);
    }

    /// The hits and the requests whose quotient is the hit rate; nothing where no request
    /// came in, and the rate is zero.
    pub fn hit_ratio(&self) -> (r: Option<(u64, u64)>)
        ensures
            r == (if self.total_requests > 0 {
                Some((self.cache_hits, self.total_requests))
            } else {
                None
            }),
    {
        if self.total_requests > 0 {
            Some((self.cache_hits, self.total_requests))
        } else {
            None
        }
    }
}

/// Each count goes up by one, at the end of its range back to zero, and leaves the others
/// alone.
pub proof fn law_counts_go_up_by_one(metrics: Metrics)
    ensures
        metrics.with_request().total_requests as int == (metrics.total_requests + 1)
            % 0x1_0000_0000_0000_0000,
        metrics.with_request().cache_hits == metrics.cache_hits,
        metrics.with_request().cache_misses == metrics.cache_misses,
        metrics.with_request().coalesced_requests == metrics.coalesced_requests,
        metrics.with_hit().total_requests == metrics.total_requests,
        metrics.with_hit().cache_hits as int == (metrics.cache_hits + 1)
            % 0x1_0000_0000_0000_0000,
        metrics.with_hit().cache_misses == metrics.cache_misses,
        metrics.with_hit().coalesced_requests == metrics.coalesced_requests,
        metrics.with_miss().total_requests == metrics.total_requests,
        metrics.with_miss().cache_hits == metrics.cache_hits,
        metrics.with_miss().cache_misses as int == (metrics.cache_misses + 1)
            % 0x1_0000_0000_0000_0000,
        metrics.with_miss().coalesced_requests == metrics.coalesced_requests,
        metrics.with_coalesced().total_requests == metrics.total_requests,
        metrics.with_coalesced().cache_hits == metrics.cache_hits,
        metrics.with_coalesced().cache_misses == metrics.cache_misses,
        metrics.with_coalesced().coalesced_requests as int == (metrics.coalesced_requests + 1)
            % 0x1_0000_0000_0000_0000,
{
}

}
