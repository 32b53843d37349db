use eventfold_db::broker::{catch_up_read_failed, CatchUp, LiveStep, Received, CATCHUP_BATCH_SIZE};
use eventfold_db::dedup::DedupIndex;
use eventfold_db::log::EventLog;
use eventfold_db::types::{ExpectedVersion, ProposedEvent, RecordedEvent};
use eventfold_db::writer::{begin_append, finish_append, validate_batch_unique_ids, WriteStep};
use eventfold_db::Error;
use uuid::Uuid;

fn new_id() -> u128 {
    Uuid::new_v4().as_u128()
}

fn proposed(id: u128, t: &str) -> ProposedEvent {
    ProposedEvent { event_id: id, event_type: t.to_string(), metadata: Vec::new(), payload: b"{}".to_vec() }
}

/// One append through the writer's steps; the write itself is a no-op here.
fn append(
    log: &mut EventLog,
    dedup: &mut DedupIndex,
    stream: u128,
    ev: ExpectedVersion,
    events: &[ProposedEvent],
    written: &mut usize,
) -> Result<Vec<RecordedEvent>, Error> {
    match begin_append(log, dedup, stream, ev, 7, events) {
        WriteStep::Reply(r) => r,
        WriteStep::Write(plan) => {
            *written += 1;
            Ok(finish_append(log, dedup, stream, plan))
        }
    }
}

#[test]
fn validate_accepts_unique_and_trivial_batches() {
    assert!(validate_batch_unique_ids(&[]).is_ok());
    assert!(validate_batch_unique_ids(&[proposed(1, "A")]).is_ok());
    assert!(validate_batch_unique_ids(&[proposed(1, "A"), proposed(2, "B"), proposed(3, "C")]).is_ok());
}

#[test]
fn validate_rejects_duplicate_id_naming_it() {
    let dup = Uuid::new_v4();
    let batch = [proposed(5, "A"), proposed(dup.as_u128(), "B"), proposed(6, "C"), proposed(dup.as_u128(), "D")];
    match validate_batch_unique_ids(&batch) {
        Err(Error::InvalidArgument(m)) => assert_eq!(m, format!("duplicate event_id {dup} within batch")),
        _ => panic!("expected InvalidArgument"),
    }
}

#[test]
fn retried_batch_is_answered_from_cache_without_writing() {
    let mut log = EventLog::new();
    let mut dedup = DedupIndex::new(128);
    let stream = new_id();
    let batch = vec![proposed(new_id(), "A"), proposed(new_id(), "B")];
    let mut written = 0;
    let first = append(&mut log, &mut dedup, stream, ExpectedVersion::NoStream, &batch, &mut written).unwrap();
    // The retry would fail the version check if it were planned again.
    let second = append(&mut log, &mut dedup, stream, ExpectedVersion::NoStream, &batch, &mut written).unwrap();
    assert_eq!(first, second);
    assert_eq!(written, 1);
    assert_eq!(log.global_position(), 2);
    assert_eq!(first[0].recorded_at, 7);
}

#[test]
fn duplicate_ids_are_refused_before_the_cache() {
    let mut log = EventLog::new();
    let mut dedup = DedupIndex::new(16);
    let stream = new_id();
    let id = new_id();
    let mut written = 0;
    append(&mut log, &mut dedup, stream, ExpectedVersion::Any, &[proposed(id, "A")], &mut written).unwrap();
    let r = append(&mut log, &mut dedup, stream, ExpectedVersion::Any, &[proposed(id, "A"), proposed(id, "A")], &mut written);
    assert!(matches!(r, Err(Error::InvalidArgument(_))));
    assert_eq!(written, 1);
}

#[test]
fn failed_append_is_not_cached() {
    let mut log = EventLog::new();
    let mut dedup = DedupIndex::new(16);
    let stream = new_id();
    let batch = [proposed(new_id(), "A")];
    let mut written = 0;
    let r = append(&mut log, &mut dedup, stream, ExpectedVersion::Exact(0), &batch, &mut written);
    assert!(matches!(r, Err(Error::WrongExpectedVersion { .. })));
    assert!(dedup.check(&batch).is_none());
    assert_eq!(written, 0);
}

#[test]
fn catch_up_cursor_advances_past_last_event() {
    let mut c = CatchUp::new(3);
    assert_eq!(c.cursor, 3);
    let mk = |p: u64| RecordedEvent {
        event_id: new_id(),
        stream_id: 1,
        stream_version: p,
        global_position: p,
        recorded_at: 0,
        event_type: "E".into(),
        metadata: vec![],
        payload: vec![],
    };
    assert!(c.advance_all(&[]));
    assert_eq!(c.cursor, 3);
    assert_eq!(c.last, None);
    assert!(c.advance_all(&[mk(3), mk(4)]));
    assert_eq!(c.cursor, 5);
    assert_eq!(c.last, Some(4));
    let full: Vec<RecordedEvent> = (5..5 + CATCHUP_BATCH_SIZE).map(mk).collect();
    assert!(!c.advance_all(&full));
    assert_eq!(c.cursor, 5 + CATCHUP_BATCH_SIZE);
    // Live events already replayed are skipped, later ones forwarded.
    let live = |p: u64| Received::Event { stream_id: 1, stream_version: p, global_position: p };
    assert!(matches!(c.live_step_all(live(4)), LiveStep::Skip));
    assert!(matches!(c.live_step_all(live(4 + CATCHUP_BATCH_SIZE)), LiveStep::Skip));
    assert!(matches!(c.live_step_all(live(5 + CATCHUP_BATCH_SIZE)), LiveStep::Forward));
}

#[test]
fn stream_subscription_filters_by_stream_and_version() {
    let mut c = CatchUp::new(0);
    let ev = |s: u128, v: u64| RecordedEvent {
        event_id: new_id(),
        stream_id: s,
        stream_version: v,
        global_position: 100 + v,
        recorded_at: 0,
        event_type: "E".into(),
        metadata: vec![],
        payload: vec![],
    };
    let live = |s: u128, v: u64| Received::Event { stream_id: s, stream_version: v, global_position: 100 + v };
    assert!(matches!(c.live_step_stream(9, live(9, 0)), LiveStep::Forward));
    assert!(matches!(c.live_step_stream(9, live(8, 0)), LiveStep::Skip));
    assert!(c.advance_stream(&[ev(9, 0), ev(9, 1)]));
    assert_eq!(c.last, Some(1));
    assert!(matches!(c.live_step_stream(9, live(9, 1)), LiveStep::Skip));
    assert!(matches!(c.live_step_stream(9, live(9, 2)), LiveStep::Forward));
}

#[test]
fn catch_up_in_two_batches_equals_one() {
    let mk = |p: u64| RecordedEvent {
        event_id: new_id(),
        stream_id: 1,
        stream_version: p,
        global_position: p,
        recorded_at: 0,
        event_type: "E".into(),
        metadata: vec![],
        payload: vec![],
    };
    let mut split = CatchUp::new(0);
    split.advance_all(&[mk(0), mk(1)]);
    split.advance_all(&[mk(2)]);
    let mut whole = CatchUp::new(0);
    whole.advance_all(&[mk(0), mk(1), mk(2)]);
    assert_eq!((split.cursor, split.last), (whole.cursor, whole.last));
}

#[test]
fn live_steps_forward_beyond_the_replay_and_end_on_lag_or_close() {
    let mut c = CatchUp::new(0);
    let replayed: Vec<RecordedEvent> = (0..3u64)
        .map(|p| RecordedEvent {
            event_id: new_id(),
            stream_id: 5,
            stream_version: p,
            global_position: p,
            recorded_at: 0,
            event_type: "E".into(),
            metadata: vec![],
            payload: vec![],
        })
        .collect();
    c.advance_all(&replayed);
    let at = |p: u64, s: u128, v: u64| Received::Event { stream_id: s, stream_version: v, global_position: p };
    assert!(matches!(c.live_step_all(at(2, 5, 2)), LiveStep::Skip));
    assert!(matches!(c.live_step_all(at(3, 5, 3)), LiveStep::Forward));
    assert!(matches!(c.live_step_stream(5, at(9, 5, 3)), LiveStep::Forward));
    assert!(matches!(c.live_step_stream(5, at(9, 6, 3)), LiveStep::Skip));
    assert!(matches!(c.live_step_stream(5, at(9, 5, 2)), LiveStep::Skip));
    match c.live_step_all(Received::Lagged) {
        LiveStep::Fail(Error::InvalidArgument(m)) => {
            assert_eq!(m, "subscription lagged: re-subscribe from last checkpoint")
        }
        other => panic!("expected the lag error, got {other:?}"),
    }
    assert!(matches!(c.live_step_stream(5, Received::Closed), LiveStep::End));
}

#[test]
fn catch_up_of_a_missing_stream_ends_quietly() {
    assert!(catch_up_read_failed(Error::StreamNotFound { stream_id: 4 }).is_none());
    match catch_up_read_failed(Error::InvalidArgument("x".into())) {
        Some(Error::InvalidArgument(m)) => assert_eq!(m, "x"),
        _ => panic!("expected the error back"),
    }
}

#[test]
fn replay_then_live_delivers_every_position_once() {
    // Replay reads positions 2..6 in batches; the receiver, registered when
    // the log ended at 4, gets positions 4..9 live.
    let mk = |p: u64| RecordedEvent {
        event_id: new_id(),
        stream_id: 1,
        stream_version: p,
        global_position: p,
        recorded_at: 0,
        event_type: "E".into(),
        metadata: vec![],
        payload: vec![],
    };
    let mut c = CatchUp::new(2);
    let mut delivered: Vec<u64> = Vec::new();
    for batch in [vec![mk(2), mk(3)], vec![mk(4), mk(5)]] {
        c.advance_all(&batch);
        delivered.extend(batch.iter().map(|e| e.global_position));
    }
    for p in 4..9u64 {
        let received = Received::Event { stream_id: 1, stream_version: p, global_position: p };
        if let LiveStep::Forward = c.live_step_all(received) {
            delivered.push(p);
        }
    }
    assert_eq!(delivered, vec![2, 3, 4, 5, 6, 7, 8]);
}

#[test]
fn dedup_hit_returns_same_positions() {
    let mut log = EventLog::new();
    let mut dedup = DedupIndex::new(128);
    let stream_id = new_id();
    let event_id = new_id();
    let mut written = 0;
    let first = append(&mut log, &mut dedup, stream_id, ExpectedVersion::Any, &[proposed(event_id, "TestEvent")], &mut written)
        .expect("first append should succeed");
    assert_eq!(first.len(), 1);
    let second = append(&mut log, &mut dedup, stream_id, ExpectedVersion::Any, &[proposed(event_id, "TestEvent")], &mut written)
        .expect("dedup hit should return Ok");
    assert_eq!(first.len(), second.len());
    assert_eq!(first[0].global_position, second[0].global_position);
}

#[test]
fn dedup_hit_does_not_duplicate_events_in_log() {
    let mut log = EventLog::new();
    let mut dedup = DedupIndex::new(128);
    let stream_id = new_id();
    let event_id = new_id();
    let mut written = 0;
    append(&mut log, &mut dedup, stream_id, ExpectedVersion::Any, &[proposed(event_id, "TestEvent")], &mut written)
        .expect("first append should succeed");
    append(&mut log, &mut dedup, stream_id, ExpectedVersion::Any, &[proposed(event_id, "TestEvent")], &mut written)
        .expect("dedup hit should return Ok");
    let all = log.read_all(0, 1000);
    assert_eq!(all.len(), 1, "expected 1 event in log, got {}", all.len());
}

#[test]
fn dedup_hit_does_not_publish_to_broker() {
    // Only a written batch is published; `written` counts them.
    let mut log = EventLog::new();
    let mut dedup = DedupIndex::new(128);
    let stream_id = new_id();
    let event_id = new_id();
    let mut written = 0;
    append(&mut log, &mut dedup, stream_id, ExpectedVersion::Any, &[proposed(event_id, "TestEvent")], &mut written)
        .expect("first append should succeed");
    assert_eq!(written, 1);
    append(&mut log, &mut dedup, stream_id, ExpectedVersion::Any, &[proposed(event_id, "TestEvent")], &mut written)
        .expect("dedup hit should return Ok");
    assert_eq!(written, 1, "broker should have no events from dedup hit");
}

#[test]
fn duplicate_event_id_within_batch_rejected() {
    let mut log = EventLog::new();
    let mut dedup = DedupIndex::new(128);
    let stream_id = new_id();
    let shared_id = new_id();
    let mut written = 0;
    let result = append(
        &mut log,
        &mut dedup,
        stream_id,
        ExpectedVersion::Any,
        &[proposed(shared_id, "EventA"), proposed(shared_id, "EventB")],
        &mut written,
    );
    assert!(
        matches!(result, Err(Error::InvalidArgument(ref msg)) if msg.contains("duplicate event_id")),
        "expected InvalidArgument with 'duplicate event_id', got: {result:?}"
    );
    let ok_result = append(&mut log, &mut dedup, stream_id, ExpectedVersion::Any, &[proposed(new_id(), "ValidEvent")], &mut written);
    assert!(ok_result.is_ok(), "valid append after duplicate rejection should succeed");
}

#[test]
fn dedup_entry_survives_other_appends_until_evicted() {
    let mut log = EventLog::new();
    let mut dedup = DedupIndex::new(3);
    let stream_id = new_id();
    let event_id = new_id();
    let mut written = 0;
    let first = append(&mut log, &mut dedup, stream_id, ExpectedVersion::Any, &[proposed(event_id, "A")], &mut written).unwrap();
    for t in ["B", "C"] {
        append(&mut log, &mut dedup, stream_id, ExpectedVersion::Any, &[proposed(new_id(), t)], &mut written).unwrap();
    }
    let again = append(&mut log, &mut dedup, stream_id, ExpectedVersion::Any, &[proposed(event_id, "A")], &mut written).unwrap();
    assert_eq!(again, first);
    assert_eq!(written, 3);
    // Three more distinct ids push it out of a cache of three entries.
    for t in ["D", "E", "F"] {
        append(&mut log, &mut dedup, stream_id, ExpectedVersion::Any, &[proposed(new_id(), t)], &mut written).unwrap();
    }
    let evicted = append(&mut log, &mut dedup, stream_id, ExpectedVersion::Any, &[proposed(event_id, "A")], &mut written).unwrap();
    assert_eq!(evicted[0].global_position, 6);
    assert_eq!(written, 7);
}
