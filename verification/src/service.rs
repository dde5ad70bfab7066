//! The service dispatcher: cache lookup, upstream fetch, cache admission.
//!
//! A call first consults the byte-weighted cache of response builders. On a
//! hit the builder streams the requested range, reusing cached bytes. On a
//! miss the backend's requester fetches the resource; a `Passthrough` verdict
//! is returned untouched and nothing is cached, while a `Cache` verdict
//! creates a builder, admits it into the cache, and answers with the first
//! response, whose body tees into the builder's byte map as it is read.

use crate::response_builder::ResponseBuilder;
use crate::ttl_cache::{shrunk, Entry, SizedTTLCache};
use crate::types::{CacheKey, RequestBackend, Requester, RequesterStatus, RequestRange, Response,
    ResponseRange, ServiceStatus, StreamError};
use vstd::prelude::*;

verus! {

/// The engine's entry point: a request backend plus a byte-weighted,
/// expiry-aware cache of per-resource response builders.
pub struct Service<K: CacheKey, R: Response, B: RequestBackend<K, R>> {
    backend: B,
    cache: SizedTTLCache<K, ResponseBuilder<R, B::Req>>,
}

impl<K: CacheKey, R: Response, B: RequestBackend<K, R>> Service<K, R, B> {
    /// The service's cache invariant.
    pub open spec fn wf(&self) -> bool {
        self.spec_cache().wf()
    }

    /// The cache of response builders.
    pub closed spec fn spec_cache(&self) -> SizedTTLCache<K, ResponseBuilder<R, B::Req>> {
        self.cache
    }

    /// Creates a service over the given backend with a cache of
    /// `cache_capacity` bytes.
    pub fn new(backend: B, cache_capacity: usize) -> (r: Self)
        ensures
            r.wf(),
            r.spec_cache().spec_capacity() == cache_capacity,
            r.spec_cache().entries_seq().len() == 0,
    {
        Service { backend, cache: SizedTTLCache::with_capacity(cache_capacity) }
    }

    /// Serves one request: on a cache hit the response streams from the
    /// builder (no new upstream fetch is issued here); on a miss the resource
    /// is fetched, and either passed through untouched with nothing cached,
    /// or admitted and served from its new builder. An expired entry never
    /// serves a hit; a fetch error leaves nothing behind in the cache.
    pub fn call(&mut self, now: u64, key: K, range: &RequestRange) -> (r: Result<
        ServiceStatus<R>,
        StreamError,
    >)
        requires
            old(self).wf(),
        ensures
            final(self).wf(),
            final(self).spec_cache().spec_capacity() == old(self).spec_cache().spec_capacity(),
            // A live entry is served from the cache and merely promoted.
            old(self).spec_cache().has_live_key(key@, now) ==> ({
                let i = old(self).spec_cache().index_of(key@);
                &&& r matches Result::Ok(ServiceStatus::Cache(_))
                &&& final(self).spec_cache().entries_seq() == old(self).spec_cache().entries_seq().remove(i).push(old(self).spec_cache().entries_seq()[i])
                &&& final(self).spec_cache().spec_size() == old(self).spec_cache().spec_size()
            }),
            // Without a live entry, a fetch error or a passthrough verdict
            // inserts nothing: the cache keeps its entries (minus the expired
            // entry for this key, if one was evicted on lookup).
            !old(self).spec_cache().has_live_key(key@, now) ==> ({
                let base = if old(self).spec_cache().has_key(key@) {
                    old(self).spec_cache().entries_seq().remove(
                        old(self).spec_cache().index_of(key@),
                    )
                } else {
                    old(self).spec_cache().entries_seq()
                };
                match r {
                    Result::Err(_) => final(self).spec_cache().entries_seq() == base,
                    Result::Ok(ServiceStatus::Passthrough(_)) => final(self).spec_cache().entries_seq() == base,
                    // A cacheable fetch always admits one builder for this
                    // key at the most-recent end, after eviction back to
                    // capacity.
                    Result::Ok(ServiceStatus::Cache(_)) => ({
                        let entries = final(self).spec_cache().entries_seq();
                        let cap = old(self).spec_cache().spec_capacity();
                        &&& final(self).spec_cache().has_key(key@)
                        &&& entries.len() > 0
                        &&& entries.last().0@ == key@
                        // The entry's weight is its builder's resource size;
                        // `store_builder`'s contract pins both, with the
                        // expiry, to the fetch verdict.
                        &&& entries.last().1.spec_size() == entries.last().1.spec_value().spec_size()
                        &&& entries == shrunk(
                            base,
                            vstd::math::min(cap as int, usize::MAX - entries.last().1.spec_size()),
                        ).push(entries.last())
                        &&& final(self).spec_cache().spec_size() <= cap + entries.last().1.spec_size()
                    }),
                }
            }),
    {
        let hit = self.cache.get(now, &key);
        match hit {
            Some(builder) => Ok(ServiceStatus::Cache(builder.stream(range))),
            None => {
                proof {
                    // After a miss the key is wholly absent: it either never
                    // was there, or the lookup evicted its expired entry and
                    // the keys were distinct.
                    if old(self).spec_cache().has_key(key@) {
                        let s0 = old(self).spec_cache().entries_seq();
                        let gi = old(self).spec_cache().index_of(key@);
                        let s1 = self.spec_cache().entries_seq();
                        assert forall|j: int| 0 <= j < s1.len() implies (#[trigger] s1[j]).0@
                            != key@ by {
                            let j0 = if j < gi {
                                j
                            } else {
                                j + 1
                            };
                            assert(s1[j] == s0[j0]);
                            if j0 != gi {
                                assert(s0[j0].0@ != s0[gi].0@);
                            }
                        }
                    }
                }
                let requester = self.backend.create_for_key(&key);
                match requester.fetch(range) {
                    Err(e) => Err(e),
                    Ok(RequesterStatus::Passthrough(p)) => Ok(ServiceStatus::Passthrough(p)),
                    Ok(RequesterStatus::Cache(resp, rr, expire, data)) => {
                        let (first, builder) = ResponseBuilder::new(resp, &rr, data, requester);
                        self.store_builder(now, key, &rr, expire, builder);
                        Ok(ServiceStatus::Cache(first))
                    },
                }
            },
        }
    }

    /// Admits one fetched resource into the cache: the builder is stored
    /// under the key, weighted by the resource's total size, expiring at the
    /// fetch verdict's timepoint.
    fn store_builder(
        &mut self,
        now: u64,
        key: K,
        rr: &ResponseRange,
        expire: Option<u64>,
        builder: ResponseBuilder<R, B::Req>,
    )
        requires
            old(self).wf(),
            !old(self).spec_cache().has_key(key@),
        ensures
            final(self).wf(),
            final(self).spec_cache().spec_capacity() == old(self).spec_cache().spec_capacity(),
            final(self).spec_cache().has_key(key@),
            ({
                let cap = old(self).spec_cache().spec_capacity();
                let entries = final(self).spec_cache().entries_seq();
                &&& entries.len() > 0
                &&& entries.last().0@ == key@
                &&& entries.last().1.spec_size() == rr.bytes_len
                &&& entries.last().1.spec_expire() == expire
                &&& entries.last().1.spec_value() == builder
                &&& entries == shrunk(
                    old(self).spec_cache().entries_seq(),
                    vstd::math::min(cap as int, usize::MAX - rr.bytes_len),
                ).push(entries.last())
                &&& final(self).spec_cache().spec_size() <= cap + rr.bytes_len
            }),
    {
        let entry = Entry::from_parts(rr.bytes_len, expire, builder);
        let _ = self.cache.get_or_insert(now, key, entry);
    }
}

} // verus!
