use lodestone_api::cache::CacheKey;
use lodestone_api::cache::CacheValue;
use lodestone_api::cache::ResourceKind;
use lodestone_api::routes::RouteResult;
use lodestone_api::routes::ScrapeError;
use lodestone_api::service::Service;
use lodestone_api::workers::WorkerOutcome;
use lodestone_api::workers::worker_step;

#[test]
fn lookup_on_empty_state_enqueues_at_position_one() {
    let mut svc = Service::new();
    let r = svc.lookup(5, 1_000_000, 0);
    assert!(matches!(r, RouteResult::Adding { queue_position: 1 }));
    // a second lookup before the worker drains it observes the same
    // position and adds nothing
    let r2 = svc.lookup(5, 1_200_000, 0);
    assert!(matches!(r2, RouteResult::Adding { queue_position: 1 }));
    assert_eq!(svc.queue.entries, vec![5]);
}

#[test]
fn lookup_after_worker_success_answers_from_store() {
    let mut svc = Service::new();
    svc.lookup(5, 1_000_000, 0);
    let o = worker_step(
        &mut svc,
        1_700_000_000,
        1_700_000_000_000,
        Ok(vec![1u8, 2, 3]),
        42,
    );
    assert!(matches!(o, WorkerOutcome::Persisted { id: 5 }));
    assert_eq!(svc.queue.entries.len(), 0);
    assert_eq!(svc.queue.claimed.len(), 0);
    let r = svc.lookup(5, 1_700_000_100_000, 77);
    match r {
        RouteResult::Success { result, last_update } => {
            assert_eq!(result, vec![1u8, 2, 3]);
            assert_eq!(last_update, 1_700_000_000);
        },
        _ => panic!("expected a store hit"),
    }
    // the read hit rewrote the frecency key and marked the record
    assert_eq!(svc.store.records[0].frecency, 77);
    assert!(svc.store.records[0].accessed);
}

#[test]
fn worker_not_found_writes_negative_cache_and_clears_claim() {
    let mut svc = Service::new();
    svc.lookup(7, 1_000_000, 0);
    let o = worker_step(&mut svc, 1_000, 1_000_000, Err(ScrapeError::NotFound), 0);
    assert!(matches!(o, WorkerOutcome::NegativelyCached { id: 7 }));
    // the dedup entry is cleared immediately after processing
    assert_eq!(svc.queue.claimed.len(), 0);
    assert_eq!(svc.queue.entries.len(), 0);
    // within the TTL window the lookup answers NotFound without
    // re-enqueueing
    let r = svc.lookup(7, 1_000_000 + 1_000_000, 0);
    assert!(matches!(r, RouteResult::NotFound));
    assert_eq!(svc.queue.entries.len(), 0);
    // once the negative entry expires the id is queued anew
    let r2 = svc.lookup(7, 1_000_000 + 1800 * 1000, 0);
    assert!(matches!(r2, RouteResult::Adding { queue_position: 1 }));
    assert_eq!(svc.queue.entries, vec![7]);
}

#[test]
fn worker_transient_failure_releases_without_writing() {
    let mut svc = Service::new();
    svc.lookup(9, 1_000_000, 0);
    let o = worker_step(
        &mut svc,
        1_000,
        1_000_000,
        Err(ScrapeError::UnexpectedResponse(String::from("boom"))),
        0,
    );
    assert!(matches!(o, WorkerOutcome::Failed { id: 9 }));
    assert_eq!(svc.store.records.len(), 0);
    assert_eq!(svc.cache.entries.len(), 0);
    // no automatic re-enqueue, but a future lookup queues it again
    let r = svc.lookup(9, 2_000_000, 0);
    assert!(matches!(r, RouteResult::Adding { queue_position: 1 }));
}

#[test]
fn worker_duplicate_insert_keeps_existing_record() {
    let mut svc = Service::new();
    svc.lookup(5, 1_000_000, 0);
    worker_step(&mut svc, 100, 1_000_000, Ok(vec![1u8]), 10);
    // the same id is claimed and fetched again concurrently
    svc.lookup(6, 2_000_000, 0);
    svc.queue.entries.clear();
    svc.queue.entries.push(5);
    let o = worker_step(&mut svc, 200, 2_000_000, Ok(vec![9u8]), 20);
    assert!(matches!(o, WorkerOutcome::AlreadyPersisted { id: 5 }));
    assert_eq!(svc.store.records.len(), 1);
    assert_eq!(svc.store.records[0].payload, vec![1u8]);
    assert_eq!(svc.store.records[0].last_update, 100);
}

#[test]
fn cached_lookup_fills_cache_and_answers_from_it() {
    let mut svc = Service::new();
    let key = CacheKey { kind: ResourceKind::Linkshell, id: 8, params: 99 };
    let r = svc.cached_lookup(key, 30_000, Ok(vec![4u8, 5]));
    match r {
        RouteResult::Cached { result, expires } => {
            assert_eq!(result, vec![4u8, 5]);
            assert_eq!(expires, (30_000 + 3_600_000) / 1000);
        },
        _ => panic!("expected a cache fill"),
    }
    // a later call hits the entry and ignores its fetch outcome
    let r2 = svc.cached_lookup(key, 500_000, Err(ScrapeError::Internal));
    match r2 {
        RouteResult::Cached { result, expires } => {
            assert_eq!(result, vec![4u8, 5]);
            assert_eq!(expires, (30_000 + 3_600_000) / 1000);
        },
        _ => panic!("expected a cache hit"),
    }
}

#[test]
fn cached_lookup_miss_surfaces_fetch_errors() {
    let mut svc = Service::new();
    let key = CacheKey { kind: ResourceKind::CharacterSearch, id: 0, params: 1 };
    let r = svc.cached_lookup(key, 1_000, Err(ScrapeError::InvalidPage(3)));
    match r {
        RouteResult::Error { error } => {
            assert_eq!(error, "invalid page (1 through 3 available)");
        },
        _ => panic!("expected an error outcome"),
    }
    // nothing was cached
    assert_eq!(svc.cache.entries.len(), 0);
    let r2 = svc.cached_lookup(key, 1_000, Err(ScrapeError::NotFound));
    assert!(matches!(r2, RouteResult::NotFound));
}

#[test]
fn cache_expiry_is_second_resolution() {
    let mut svc = Service::new();
    svc.cache.put(
        lodestone_api::service::Service::record_key(3),
        CacheValue::Payload(vec![7u8]),
        60,
        1_000,
    );
    let r = svc.lookup(3, 30_000, 0);
    match r {
        RouteResult::Cached { result, expires } => {
            assert_eq!(result, vec![7u8]);
            // entry expires at ms 61_000; floored to seconds
            assert_eq!(expires, 61);
        },
        _ => panic!("expected a cache hit"),
    }
    // at its expiry instant the entry no longer answers
    let r2 = svc.lookup(3, 61_000, 0);
    assert!(matches!(r2, RouteResult::Adding { queue_position: 1 }));
}

#[test]
fn put_overwrites_value_and_ttl() {
    let mut svc = Service::new();
    let key = CacheKey { kind: ResourceKind::FreeCompany, id: 2, params: 0 };
    svc.cache.put(key, CacheValue::Payload(vec![1u8]), 100, 0);
    svc.cache.put(key, CacheValue::Payload(vec![2u8]), 10, 0);
    assert_eq!(svc.cache.entries.len(), 1);
    match svc.cache.get(key, 5_000) {
        Some((CacheValue::Payload(v), rem)) => {
            assert_eq!(v, vec![2u8]);
            assert_eq!(rem, 5_000);
        },
        _ => panic!("expected the overwritten entry"),
    }
    // the old 100 s TTL is gone: past 10 s nothing answers
    assert!(svc.cache.get(key, 10_000).is_none());
}
