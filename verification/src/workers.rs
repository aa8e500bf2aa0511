//! The two background processes, as verified step functions: the
//! scrape worker that drains the queue, and the refresh engine's
//! per-record write-back.
//!
//! The process shell owns the loops, the blocking waits, the fixed
//! delays, and the fetch calls themselves; each iteration hands the
//! fetch outcome to a step function here, which performs every state
//! transition under contract.  A failure in one step never poisons
//! the state, so the shell can always log and continue.

use crate::cache::CacheValue;
use crate::cache::CacheValueModel;
use crate::cache::EntryModel;
use crate::cache::entry_of;
use crate::routes::ScrapeError;
use crate::service::MAX_NOW_MS;
use crate::service::Service;
use crate::service::spec_record_key;
use crate::store::PersistedRecord;
use crate::store::RecordModel;
use crate::store::Store;
use crate::store::record_of;
use crate::store::refreshed;
use vstd::prelude::*;

verus! {

/// Seconds a confirmed absence stays in the negative cache.
pub const NEGATIVE_TTL_SECS: i64 = 1800;

/// What one worker iteration did with the head of the queue.
#[derive(Debug)]
pub enum WorkerOutcome {
    /// The queue was empty; nothing was dequeued.
    Idle,
    /// The fetched payload was persisted as a fresh record.
    Persisted { id: u64 },
    /// A concurrent insert won; the existing record was kept.
    AlreadyPersisted { id: u64 },
    /// Upstream confirmed absence; a negative cache entry was
    /// written.
    NegativelyCached { id: u64 },
    /// The fetch failed; the id was released for a future lookup to
    /// re-enqueue.
    Failed { id: u64 },
}

/// The fresh record the worker persists on a first successful fetch:
/// the fetched payload, the baseline score key (`frecency(None)` in
/// key space), not yet accessed, stamped now.
pub open spec fn fresh_record(id: u64, payload: Seq<u8>, fresh_score: i64, now_sec: i64) -> RecordModel {
    RecordModel {
        id: id,
        payload: payload,
        frecency: fresh_score,
        accessed: false,
        last_update: now_sec,
    }
}

/// One iteration of the scrape worker: dequeue the oldest id and
/// write its fetch outcome back.
///
/// A fetched payload is persisted with insert-if-absent semantics; a
/// confirmed absence is written to the negative cache under the id's
/// record key; a transient or parse failure changes nothing beyond
/// the queue.  Whatever the outcome, the id leaves the queue and its
/// dedup claim is released, so a future lookup can enqueue it again.
pub fn worker_step(
    svc: &mut Service,
    now_sec: i64,
    now_ms: i64,
    fetch: Result<Vec<u8>, ScrapeError>,
    fresh_score: i64,
) -> (o: WorkerOutcome)
    requires
        old(svc).wf(),
        0 <= now_ms <= MAX_NOW_MS,
    ensures
        final(svc).wf(),
        old(svc).queue.entries@.len() == 0 ==> o is Idle && *final(svc) == *old(svc),
        old(svc).queue.entries@.len() > 0 ==> {
            let id = old(svc).queue.entries@[0];
            &&& final(svc).queue.entries@ == old(svc).queue.entries@.drop_first()
            &&& final(svc).queue.claim_of(id) is None
            &&& forall|x: u64|
                x != id ==> final(svc).queue.claim_of(x) == old(svc).queue.claim_of(x)
            &&& match fetch {
                Ok(p) => {
                    &&& final(svc).cache == old(svc).cache
                    &&& if record_of(old(svc).store@, id) is None {
                        &&& o == (WorkerOutcome::Persisted { id })
                        &&& final(svc).store@ == old(svc).store@.push(
                            fresh_record(id, p@, fresh_score, now_sec),
                        )
                    } else {
                        &&& o == (WorkerOutcome::AlreadyPersisted { id })
                        &&& final(svc).store == old(svc).store
                    }
                },
                Err(ScrapeError::NotFound) => {
                    &&& o == (WorkerOutcome::NegativelyCached { id })
                    &&& final(svc).store == old(svc).store
                    &&& entry_of(final(svc).cache@, spec_record_key(id)) == Some(
                        EntryModel {
                            key: spec_record_key(id),
                            value: CacheValueModel::NotFound,
                            expires_at_ms: (now_ms + NEGATIVE_TTL_SECS * 1000) as i64,
                        },
                    )
                    &&& forall|k: crate::cache::CacheKey|
                        k != spec_record_key(id) ==> #[trigger] entry_of(final(svc).cache@, k)
                            == entry_of(old(svc).cache@, k)
                },
                Err(_) => {
                    &&& o == (WorkerOutcome::Failed { id })
                    &&& final(svc).store == old(svc).store
                    &&& final(svc).cache == old(svc).cache
                },
            }
        },
{
    let popped = svc.queue.dequeue();
    match popped {
        None => WorkerOutcome::Idle,
        Some(id) => {
            match fetch {
                Ok(payload) => {
                    let rec = PersistedRecord {
                        id,
                        payload,
                        frecency: fresh_score,
                        accessed: false,
                        last_update: now_sec,
                    };
                    let added = svc.store.insert_if_absent(rec);
                    svc.queue.release(id);
                    if added {
                        WorkerOutcome::Persisted { id }
                    } else {
                        WorkerOutcome::AlreadyPersisted { id }
                    }
                },
                Err(ScrapeError::NotFound) => {
                    let key = Service::record_key(id);
                    svc.cache.put(key, CacheValue::NotFound, NEGATIVE_TTL_SECS, now_ms);
                    svc.queue.release(id);
                    WorkerOutcome::NegativelyCached { id }
                },
                Err(_) => {
                    svc.queue.release(id);
                    WorkerOutcome::Failed { id }
                },
            }
        },
    }
}

/// One batch item of the refresh engine: write a re-fetched payload
/// over the record for `id`, stamping it now; the access-frequency
/// signal is deliberately left untouched, and a failed fetch writes
/// nothing, so one failing record never aborts the batch.
pub fn apply_refresh(
    store: &mut Store,
    id: u64,
    fetch: Result<Vec<u8>, ScrapeError>,
    now_sec: i64,
) -> (refreshed_now: bool)
    requires
        old(store).wf(),
    ensures
        final(store).wf(),
        final(store)@.len() == old(store)@.len(),
        match fetch {
            Ok(p) => {
                &&& refreshed_now == (record_of(old(store)@, id) is Some)
                &&& forall|j: int|
                    0 <= j < old(store)@.len() ==> final(store)@[j] == (if old(store)@[j].id
                        == id {
                        refreshed(old(store)@[j], p@, now_sec)
                    } else {
                        old(store)@[j]
                    })
            },
            Err(_) => !refreshed_now && *final(store) == *old(store),
        },
{
    match fetch {
        Ok(payload) => store.update_payload(id, payload, now_sec),
        Err(_) => false,
    }
}

} // verus!
