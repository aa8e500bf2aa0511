//! The resolver: the per-request entry point composing the durable
//! store, the ephemeral cache, and the scrape queue into the tiered
//! lookup contract.
//!
//! `lookup` resolves a store-backed resource: durable store first
//! (bumping the frecency score on a hit), then the ephemeral cache,
//! then a claim on the scrape queue.  `cached_lookup` resolves a
//! cache-only resource: the ephemeral cache first, then an on-demand
//! fetch whose successful result is cached for a fixed hour.

use crate::cache::CacheKey;
use crate::cache::CacheValue;
use crate::cache::CacheValueModel;
use crate::cache::EntryModel;
use crate::cache::ResourceKind;
use crate::cache::TtlCache;
use crate::cache::clone_bytes;
use crate::cache::entry_of;
use crate::cache::live_entry;
use crate::queue::MAX_QUEUE_LEN;
use crate::queue::ScrapeQueue;
use crate::routes::RouteResult;
use crate::routes::ScrapeError;
use crate::routes::is_error_outcome;
use crate::store::Store;
use crate::store::record_of;
use crate::store::rescored;
use vstd::prelude::*;

verus! {

/// Latest unix millisecond the model accepts, comfortably past the
/// year 5000: keeps every expiry computation inside `i64`.
pub const MAX_NOW_MS: i64 = 100_000_000_000_000;

/// Seconds a successful on-demand fetch stays in the cache.
pub const POSITIVE_TTL_SECS: i64 = 3600;

/// The cache key under which a store-backed resource is cached; its
/// negative entries live here too.
pub open spec fn spec_record_key(id: u64) -> CacheKey {
    CacheKey { kind: ResourceKind::Character, id: id, params: 0 }
}

/// All shared state of the resolution subsystem.
pub struct Service {
    pub store: Store,
    pub cache: TtlCache,
    pub queue: ScrapeQueue,
}

impl Service {
    pub open spec fn wf(self) -> bool {
        self.store.wf() && self.cache.wf() && self.queue.wf()
    }

    pub fn new() -> (s: Service)
        ensures
            s.wf(),
            s.store@ =~= Seq::<crate::store::RecordModel>::empty(),
            s.cache@ =~= Seq::<EntryModel>::empty(),
            s.queue.entries@ =~= Seq::<u64>::empty(),
            s.queue.claimed@ =~= Seq::<(u64, u64)>::empty(),
    {
        Service { store: Store::new(), cache: TtlCache::new(), queue: ScrapeQueue::new() }
    }

    /// The exec counterpart of `spec_record_key`.
    pub fn record_key(id: u64) -> (k: CacheKey)
        ensures
            k == spec_record_key(id),
    {
        CacheKey { kind: ResourceKind::Character, id: id, params: 0 }
    }

    /// Tiered lookup of a store-backed resource.
    ///
    /// 1. A durable record answers `Success` with its payload and
    ///    timestamp; its frecency key is rewritten to `rescore` (the
    ///    recomputed score the caller derived from the old one) and
    ///    the record is marked accessed.
    /// 2. Otherwise a live cache entry answers `Cached` (a stored
    ///    payload, with its expiry floored to seconds) or `NotFound`
    ///    (a negative entry), with no side effect.
    /// 3. Otherwise the id is claimed on the scrape queue: `Adding`
    ///    with the already-recorded position, or with the fresh
    ///    position when this call is the one that claims it.
    pub fn lookup(&mut self, id: u64, now_ms: i64, rescore: i64) -> (r: RouteResult<Vec<u8>>)
        requires
            old(self).wf(),
            0 <= now_ms <= MAX_NOW_MS,
            old(self).queue.entries@.len() < MAX_QUEUE_LEN,
        ensures
            final(self).wf(),
            match record_of(old(self).store@, id) {
                Some(rec) => {
                    &&& r matches RouteResult::Success { result, last_update } && result@
                        == rec.payload && last_update == rec.last_update
                    &&& final(self).store@.len() == old(self).store@.len()
                    &&& forall|j: int|
                        0 <= j < old(self).store@.len() ==> final(self).store@[j] == (if old(
                            self,
                        ).store@[j].id == id {
                            rescored(old(self).store@[j], rescore)
                        } else {
                            old(self).store@[j]
                        })
                    &&& final(self).cache == old(self).cache
                    &&& final(self).queue == old(self).queue
                },
                None => match live_entry(old(self).cache@, spec_record_key(id), now_ms) {
                    Some((v, rem)) => {
                        &&& *final(self) == *old(self)
                        &&& match v {
                            CacheValueModel::Payload(p) => r matches RouteResult::Cached {
                                result,
                                expires,
                            } && result@ == p && expires == (now_ms + rem) / 1000,
                            CacheValueModel::NotFound => r is NotFound,
                        }
                    },
                    None => {
                        &&& final(self).store == old(self).store
                        &&& final(self).cache == old(self).cache
                        &&& r matches RouteResult::Adding { queue_position } && match old(
                            self,
                        ).queue.claim_of(id) {
                            Some(p) => queue_position == p && final(self).queue == old(
                                self,
                            ).queue,
                            None => {
                                &&& queue_position == old(self).queue.entries@.len() + 1
                                &&& final(self).queue.entries@ == old(
                                    self,
                                ).queue.entries@.push(id)
                                &&& final(self).queue.claimed@ == old(
                                    self,
                                ).queue.claimed@.push((id, queue_position))
                            },
                        }
                    },
                },
            },
    {
        match self.store.find(id) {
            Some(i) => {
                let result = clone_bytes(&self.store.records[i].payload);
                let last_update = self.store.records[i].last_update;
                self.store.update_frecency(id, rescore);
                RouteResult::Success { result, last_update }
            },
            None => {
                let key = Self::record_key(id);
                match self.cache.get(key, now_ms) {
                    Some((CacheValue::Payload(result), rem)) => RouteResult::Cached {
                        result,
                        expires: (now_ms + rem) / 1000,
                    },
                    Some((CacheValue::NotFound, _)) => RouteResult::NotFound,
                    None => {
                        let queue_position = self.queue.enqueue(id);
                        RouteResult::Adding { queue_position }
                    },
                }
            },
        }
    }

    /// Lookup of a cache-only resource: a live entry answers
    /// `Cached` (or `NotFound` for a negative entry) and the fetch
    /// outcome is ignored; on a miss the caller's fetch outcome
    /// decides — a fetched payload is cached for `POSITIVE_TTL_SECS`
    /// and answered as `Cached`, and a failure is folded into its
    /// tagged outcome with nothing written.
    pub fn cached_lookup(
        &mut self,
        key: CacheKey,
        now_ms: i64,
        fetch: Result<Vec<u8>, ScrapeError>,
    ) -> (r: RouteResult<Vec<u8>>)
        requires
            old(self).wf(),
            0 <= now_ms <= MAX_NOW_MS,
        ensures
            final(self).wf(),
            final(self).store == old(self).store,
            final(self).queue == old(self).queue,
            match live_entry(old(self).cache@, key, now_ms) {
                Some((v, rem)) => {
                    &&& *final(self) == *old(self)
                    &&& match v {
                        CacheValueModel::Payload(p) => r matches RouteResult::Cached {
                            result,
                            expires,
                        } && result@ == p && expires == (now_ms + rem) / 1000,
                        CacheValueModel::NotFound => r is NotFound,
                    }
                },
                None => match fetch {
                    Ok(p) => {
                        &&& r matches RouteResult::Cached { result, expires } && result@ == p@
                            && expires == (now_ms + POSITIVE_TTL_SECS * 1000) / 1000
                        &&& entry_of(final(self).cache@, key) == Some(
                            EntryModel {
                                key: key,
                                value: CacheValueModel::Payload(p@),
                                expires_at_ms: (now_ms + POSITIVE_TTL_SECS * 1000) as i64,
                            },
                        )
                        &&& forall|k: CacheKey|
                            k != key ==> #[trigger] entry_of(final(self).cache@, k) == entry_of(
                                old(self).cache@,
                                k,
                            )
                    },
                    Err(e) => *final(self) == *old(self) && is_error_outcome(r, e),
                },
            },
    {
        match self.cache.get(key, now_ms) {
            Some((CacheValue::Payload(result), rem)) => RouteResult::Cached {
                result,
                expires: (now_ms + rem) / 1000,
            },
            Some((CacheValue::NotFound, _)) => RouteResult::NotFound,
            None => match fetch {
                Ok(p) => {
                    let result = clone_bytes(&p);
                    self.cache.put(key, CacheValue::Payload(p), POSITIVE_TTL_SECS, now_ms);
                    RouteResult::Cached {
                        result,
                        expires: (now_ms + POSITIVE_TTL_SECS * 1000) / 1000,
                    }
                },
                Err(e) => RouteResult::from_fetch(Err(e)),
            },
        }
    }
}

} // verus!
