use std::sync::Arc;

use eventfold_db::dedup::DedupIndex;
use eventfold_db::types::{ProposedEvent, RecordedEvent};
use uuid::Uuid;

fn new_id() -> u128 {
    Uuid::new_v4().as_u128()
}

fn proposed(event_id: u128) -> ProposedEvent {
    ProposedEvent {
        event_id,
        event_type: "TestEvent".to_string(),
        metadata: Vec::new(),
        payload: b"{}".to_vec(),
    }
}

fn recorded(event_id: u128, stream_id: u128, version: u64, position: u64) -> RecordedEvent {
    RecordedEvent {
        event_id,
        stream_id,
        stream_version: version,
        global_position: position,
        recorded_at: 0,
        event_type: "TestEvent".to_string(),
        metadata: Vec::new(),
        payload: b"{}".to_vec(),
    }
}

#[test]
fn check_empty_slice_returns_none() {
    let mut index = DedupIndex::new(4);
    assert!(index.check(&[]).is_none());
}

#[test]
fn record_batch_then_check_returns_same_arc() {
    let mut index = DedupIndex::new(4);
    let stream = new_id();
    let id_a = new_id();
    let id_b = new_id();

    let batch = vec![recorded(id_a, stream, 0, 0), recorded(id_b, stream, 1, 1)];
    index.record(batch);

    let arc_a = index.check(&[proposed(id_a)]).expect("should be Some");
    assert_eq!(arc_a.len(), 2);
    let arc_b = index.check(&[proposed(id_b)]).expect("should be Some");
    assert!(Arc::ptr_eq(&arc_a, &arc_b));
}

#[test]
fn check_unknown_event_id_returns_none() {
    let mut index = DedupIndex::new(4);
    let stream = new_id();
    index.record(vec![recorded(new_id(), stream, 0, 0)]);
    assert!(index.check(&[proposed(new_id())]).is_none());
}

#[test]
fn lru_eviction_drops_oldest_entry() {
    let mut index = DedupIndex::new(2);
    let stream = new_id();
    let id_x = new_id();
    let id_y = new_id();
    let id_z = new_id();

    index.record(vec![recorded(id_x, stream, 0, 0)]);
    index.record(vec![recorded(id_y, stream, 1, 1)]);
    assert!(index.check(&[proposed(id_x)]).is_some());
    assert!(index.check(&[proposed(id_y)]).is_some());

    index.record(vec![recorded(id_z, stream, 2, 2)]);
    assert!(index.check(&[proposed(id_x)]).is_none());
    assert!(index.check(&[proposed(id_y)]).is_some());
    assert!(index.check(&[proposed(id_z)]).is_some());
}

#[test]
fn seed_from_log_evicts_oldest_positions() {
    let mut index = DedupIndex::new(3);
    let stream = new_id();
    let ids: Vec<u128> = (0..5).map(|_| new_id()).collect();
    let events: Vec<RecordedEvent> = ids
        .iter()
        .enumerate()
        .map(|(i, &id)| recorded(id, stream, i as u64, i as u64))
        .collect();
    index.seed_from_log(&events);

    assert!(index.check(&[proposed(ids[0])]).is_none());
    assert!(index.check(&[proposed(ids[1])]).is_none());
    assert!(index.check(&[proposed(ids[2])]).is_some());
    assert!(index.check(&[proposed(ids[3])]).is_some());
    assert!(index.check(&[proposed(ids[4])]).is_some());
}

#[test]
fn seed_from_log_check_returns_correct_event_data() {
    let mut index = DedupIndex::new(8);
    let stream = new_id();
    let id = new_id();
    index.seed_from_log(&[recorded(id, stream, 3, 7)]);

    let result = index.check(&[proposed(id)]).expect("seeded event should be found");
    assert_eq!(result.len(), 1);
    assert_eq!(result[0].event_id, id);
    assert_eq!(result[0].stream_id, stream);
    assert_eq!(result[0].global_position, 7);
    assert_eq!(result[0].stream_version, 3);
}

#[test]
fn recorded_batch_found_by_every_id_at_capacity() {
    // A batch exactly as large as the cache stays whole after recording.
    let mut index = DedupIndex::new(3);
    let stream = new_id();
    index.record(vec![recorded(new_id(), stream, 0, 0)]);
    let ids = [new_id(), new_id(), new_id()];
    let batch: Vec<RecordedEvent> =
        ids.iter().enumerate().map(|(i, &id)| recorded(id, stream, i as u64 + 1, i as u64 + 1)).collect();
    index.record(batch.clone());
    for id in ids {
        let found = index.check(&[proposed(id)]).expect("every id of the batch is cached");
        assert_eq!(*found, batch);
    }
}

#[test]
fn check_refreshes_entry_so_other_is_evicted() {
    let mut index = DedupIndex::new(2);
    let stream = new_id();
    let (a, b, c) = (new_id(), new_id(), new_id());
    index.record(vec![recorded(a, stream, 0, 0)]);
    index.record(vec![recorded(b, stream, 1, 1)]);
    // Looking up `a` makes it the most recently used, so `b` goes first.
    assert!(index.check(&[proposed(a)]).is_some());
    index.record(vec![recorded(c, stream, 2, 2)]);
    assert!(index.check(&[proposed(b)]).is_none());
    assert!(index.check(&[proposed(a)]).is_some());
}
