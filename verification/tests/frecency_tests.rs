use lodestone_api::frecency::normalize_frecency;
use lodestone_api::frecency::select_stale;
use lodestone_api::store::PersistedRecord;
use lodestone_api::store::Store;

fn record(id: u64, frecency: i64, accessed: bool, last_update: i64) -> PersistedRecord {
    PersistedRecord { id, payload: vec![id as u8], frecency, accessed, last_update }
}

// T is "now" in unix seconds; scores stand for decayed weights taken
// at T through any order-preserving key (0.9 -> 900, 0.5 -> 500).
const T: i64 = 1_000_000_000;
const HOUR: i64 = 3600;

#[test]
fn selection_orders_by_score_then_oldest_first() {
    let mut store = Store::new();
    store.insert_if_absent(record(1, 900, true, T - 13 * HOUR)); // A
    store.insert_if_absent(record(2, 900, true, T - 20 * HOUR)); // B
    store.insert_if_absent(record(3, 500, true, T - 14 * HOUR)); // C
    let sel = select_stale(&store, T - 12 * HOUR, 100);
    let ids: Vec<u64> = sel.iter().map(|c| c.id).collect();
    assert_eq!(ids, vec![2, 1, 3]);
}

#[test]
fn selection_excludes_fresh_records_regardless_of_score() {
    let mut store = Store::new();
    store.insert_if_absent(record(1, 900, true, T - 13 * HOUR));
    store.insert_if_absent(record(4, 1_000_000, true, T - 11 * HOUR));
    let sel = select_stale(&store, T - 12 * HOUR, 100);
    let ids: Vec<u64> = sel.iter().map(|c| c.id).collect();
    assert_eq!(ids, vec![1]);
}

#[test]
fn selection_caps_at_the_batch_limit() {
    let mut store = Store::new();
    for i in 0..10u64 {
        store.insert_if_absent(record(i, 100 + i as i64, true, T - 13 * HOUR));
    }
    let sel = select_stale(&store, T - 12 * HOUR, 3);
    let ids: Vec<u64> = sel.iter().map(|c| c.id).collect();
    // highest scores first
    assert_eq!(ids, vec![9, 8, 7]);
}

#[test]
fn selection_on_empty_store_is_empty() {
    let store = Store::new();
    assert_eq!(select_stale(&store, T, 100).len(), 0);
}

#[test]
fn normalization_floors_underflowed_and_untouched_scores() {
    let mut store = Store::new();
    store.insert_if_absent(record(1, 150, true, T)); // healthy: kept
    store.insert_if_absent(record(2, 50, true, T)); // underflowed: floored
    store.insert_if_absent(record(3, 500, false, T)); // never accessed: floored
    normalize_frecency(&mut store, 100);
    assert_eq!(store.records[0].frecency, 150);
    assert_eq!(store.records[1].frecency, 100);
    assert_eq!(store.records[2].frecency, 100);
    // nothing else about the records changed
    assert_eq!(store.records[2].payload, vec![3u8]);
    assert_eq!(store.records[2].last_update, T);
    assert!(!store.records[2].accessed);
}

#[test]
fn normalization_is_idempotent() {
    let mut store = Store::new();
    store.insert_if_absent(record(1, 50, true, T));
    store.insert_if_absent(record(2, 500, false, T));
    normalize_frecency(&mut store, 100);
    let snapshot: Vec<i64> = store.records.iter().map(|r| r.frecency).collect();
    normalize_frecency(&mut store, 100);
    let again: Vec<i64> = store.records.iter().map(|r| r.frecency).collect();
    assert_eq!(snapshot, again);
}

#[test]
fn refresh_overwrites_payload_without_touching_the_score() {
    let mut store = Store::new();
    store.insert_if_absent(record(1, 900, true, T - 13 * HOUR));
    let did = lodestone_api::workers::apply_refresh(&mut store, 1, Ok(vec![42u8]), T);
    assert!(did);
    assert_eq!(store.records[0].payload, vec![42u8]);
    assert_eq!(store.records[0].last_update, T);
    assert_eq!(store.records[0].frecency, 900);
    assert!(store.records[0].accessed);
    // a failed fetch writes nothing
    let did2 = lodestone_api::workers::apply_refresh(
        &mut store,
        1,
        Err(lodestone_api::routes::ScrapeError::Internal),
        T + 10,
    );
    assert!(!did2);
    assert_eq!(store.records[0].last_update, T);
}

#[test]
fn full_refresh_cycle_updates_stale_records_in_priority_order() {
    let mut store = Store::new();
    store.insert_if_absent(record(1, 900, true, T - 13 * HOUR));
    store.insert_if_absent(record(2, 50, true, T - 20 * HOUR)); // underflowed
    store.insert_if_absent(record(3, 500, false, T - 14 * HOUR)); // never accessed
    store.insert_if_absent(record(4, 2000, true, T - HOUR)); // fresh: skipped
    // the cycle starts with normalization at the epsilon floor
    normalize_frecency(&mut store, 100);
    let batch = select_stale(&store, T - 12 * HOUR, 100);
    let ids: Vec<u64> = batch.iter().map(|c| c.id).collect();
    // record 1 kept its high score; 2 and 3 sit at the common floor,
    // so the older one goes first; 4 is not stale
    assert_eq!(ids, vec![1, 2, 3]);
    for (i, cand) in batch.iter().enumerate() {
        let payload = vec![i as u8; 2];
        lodestone_api::workers::apply_refresh(&mut store, cand.id, Ok(payload), T + 1);
    }
    // every selected record was stamped and rewritten; the skipped one
    // was not
    for rec in &store.records {
        if rec.id == 4 {
            assert_eq!(rec.last_update, T - HOUR);
        } else {
            assert_eq!(rec.last_update, T + 1);
            assert_eq!(rec.payload.len(), 2);
        }
    }
}
