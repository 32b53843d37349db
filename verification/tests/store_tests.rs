//! The store's behaviour on an in-memory log file: appends through the
//! planned batch and the index, reopening through recovery.

use eventfold_db::codec::{
    decode_batch_footer, decode_batch_header, decode_header, decode_record, encode_batch_footer,
    encode_batch_header, encode_header, encode_record, DecodeOutcome, BATCH_FOOTER_SIZE,
    BATCH_HEADER_SIZE, HEADER_SIZE,
};
use eventfold_db::log::EventLog;
use eventfold_db::recovery::recover;
use eventfold_db::types::{ExpectedVersion, ProposedEvent, RecordedEvent, MAX_EVENT_SIZE, MAX_EVENT_TYPE_LEN};
use eventfold_db::Error;
use uuid::Uuid;

fn new_id() -> u128 {
    Uuid::new_v4().as_u128()
}

/// A log file held in memory, with its index.
struct MemStore {
    file: Vec<u8>,
    log: EventLog,
}

impl MemStore {
    fn create() -> MemStore {
        MemStore { file: encode_header(), log: EventLog::new() }
    }

    fn open(bytes: Vec<u8>) -> Result<MemStore, Error> {
        let rec = recover(&bytes)?;
        let mut file = bytes;
        if let Some(t) = rec.truncate_to {
            file.truncate(t);
        }
        Ok(MemStore { file, log: rec.log })
    }

    fn append(
        &mut self,
        stream_id: u128,
        expected: ExpectedVersion,
        events: Vec<ProposedEvent>,
    ) -> Result<Vec<RecordedEvent>, Error> {
        let plan = self.log.prepare_append(stream_id, expected, 0, &events)?;
        self.file.extend_from_slice(&plan.batch);
        self.log.commit_append(stream_id, &plan.recorded);
        Ok(plan.recorded)
    }

    fn global_position(&self) -> u64 {
        self.log.global_position()
    }

    fn stream_version(&self, id: &u128) -> Option<u64> {
        self.log.stream_version(id)
    }
}

fn make_event(global_position: u64, stream_id: u128, stream_version: u64, event_type: &str, payload: &[u8]) -> RecordedEvent {
    RecordedEvent {
        event_id: new_id(),
        stream_id,
        stream_version,
        global_position,
        recorded_at: 0,
        event_type: event_type.to_string(),
        metadata: Vec::new(),
        payload: payload.to_vec(),
    }
}

fn make_proposed(event_type: &str, payload: &[u8]) -> ProposedEvent {
    ProposedEvent {
        event_id: new_id(),
        event_type: event_type.to_string(),
        metadata: Vec::new(),
        payload: payload.to_vec(),
    }
}

/// The batch envelope of `events`: header, records, footer with the CRC.
fn encode_batch(events: &[RecordedEvent]) -> Vec<u8> {
    let mut body = encode_batch_header(events.len() as u32, events[0].global_position);
    for e in events {
        body.extend_from_slice(&encode_record(e));
    }
    let crc = crc32fast::hash(&body);
    body.extend_from_slice(&encode_batch_footer(crc));
    body
}

fn seed_file(batches: &[&[RecordedEvent]]) -> Vec<u8> {
    let mut file = encode_header();
    for b in batches {
        file.extend_from_slice(&encode_batch(b));
    }
    file
}

#[test]
fn open_creates_file_with_header_and_empty_store() {
    let store = MemStore::create();
    assert_eq!(store.file.len(), HEADER_SIZE);
    assert!(decode_header(&store.file).is_ok());
    assert_eq!(store.global_position(), 0);
}

#[test]
fn global_position_on_empty_store_returns_zero() {
    let store = MemStore::open(encode_header()).expect("open should succeed");
    assert_eq!(store.global_position(), 0);
}

#[test]
fn stream_version_on_empty_store_returns_none() {
    let store = MemStore::create();
    assert_eq!(store.stream_version(&new_id()), None);
}

#[test]
fn recovery_rebuilds_index_from_5_events_across_2_streams() {
    let stream_a = new_id();
    let stream_b = new_id();
    let events = vec![
        make_event(0, stream_a, 0, "TypeA", b"a0"),
        make_event(1, stream_b, 0, "TypeB", b"b0"),
        make_event(2, stream_a, 1, "TypeA", b"a1"),
        make_event(3, stream_b, 1, "TypeB", b"b1"),
        make_event(4, stream_a, 2, "TypeA", b"a2"),
    ];
    let store = MemStore::open(seed_file(&[&events])).expect("recovery should succeed");
    assert_eq!(store.global_position(), 5);
    assert_eq!(store.stream_version(&stream_a), Some(2));
    assert_eq!(store.stream_version(&stream_b), Some(1));
    assert_eq!(store.log.events, events);
}

#[test]
fn recovery_truncates_trailing_garbage_bytes() {
    let stream = new_id();
    let events = vec![
        make_event(0, stream, 0, "Evt", b"p0"),
        make_event(1, stream, 1, "Evt", b"p1"),
        make_event(2, stream, 2, "Evt", b"p2"),
    ];
    let mut data = seed_file(&[&events]);
    let valid_size = data.len();
    data.extend_from_slice(&[0xDE, 0xAD, 0xBE, 0xEF, 0xCA, 0xFE, 0x01, 0x02, 0x03, 0x04]);
    let store = MemStore::open(data).expect("recovery should succeed");
    assert_eq!(store.global_position(), 3);
    assert_eq!(store.stream_version(&stream), Some(2));
    assert_eq!(store.file.len(), valid_size);
}

#[test]
fn recovery_truncates_corrupt_record_in_last_batch() {
    let stream = new_id();
    let batch1 = vec![make_event(0, stream, 0, "Evt", b"payload0"), make_event(1, stream, 1, "Evt", b"payload1")];
    let batch2 = vec![make_event(2, stream, 2, "Evt", b"payload2")];
    let mut data = seed_file(&[&batch1, &batch2]);
    let valid_boundary = HEADER_SIZE + encode_batch(&batch1).len();
    let corrupt_idx = data.len() - 13;
    data[corrupt_idx] ^= 0xFF;
    let store = MemStore::open(data).expect("recovery should succeed");
    assert_eq!(store.global_position(), 2);
    assert_eq!(store.stream_version(&stream), Some(1));
    assert_eq!(store.file.len(), valid_boundary);
}

#[test]
fn recovery_returns_error_on_mid_file_corruption() {
    let stream = new_id();
    let batch1 = vec![make_event(0, stream, 0, "Evt", b"payload0")];
    let batch2 = vec![make_event(1, stream, 1, "Evt", b"payload1")];
    let mut data = seed_file(&[&batch1, &batch2]);
    data[HEADER_SIZE] ^= 0xFF;
    match MemStore::open(data) {
        Err(Error::CorruptRecord { .. }) => {}
        Err(other) => panic!("expected CorruptRecord, got: {other:?}"),
        Ok(_) => panic!("expected CorruptRecord error, but open() succeeded"),
    }
}

#[test]
fn recovery_two_complete_batches_all_events_correct() {
    let stream = new_id();
    let batch1 = vec![make_event(0, stream, 0, "A", b"x"), make_event(1, stream, 1, "B", b"y")];
    let batch2 = vec![make_event(2, stream, 2, "C", b"z")];
    let store = MemStore::open(seed_file(&[&batch1, &batch2])).expect("recovery should succeed");
    assert_eq!(store.global_position(), 3);
    let all = store.log.read_all(0, 10);
    assert_eq!(all[0], batch1[0]);
    assert_eq!(all[1], batch1[1]);
    assert_eq!(all[2], batch2[0]);
}

#[test]
fn recovery_via_append_5_events_across_2_streams() {
    let mut store = MemStore::create();
    let a = new_id();
    let b = new_id();
    store.append(a, ExpectedVersion::NoStream, vec![make_proposed("A0", b"0")]).unwrap();
    store.append(b, ExpectedVersion::NoStream, vec![make_proposed("B0", b"1")]).unwrap();
    store.append(a, ExpectedVersion::Exact(0), vec![make_proposed("A1", b"2"), make_proposed("A2", b"3")]).unwrap();
    store.append(b, ExpectedVersion::Exact(0), vec![make_proposed("B1", b"4")]).unwrap();
    let before = store.log.read_all(0, 100);
    let reopened = MemStore::open(store.file.clone()).expect("reopen");
    assert_eq!(reopened.log.read_all(0, 100), before);
    assert_eq!(reopened.stream_version(&a), Some(2));
    assert_eq!(reopened.stream_version(&b), Some(1));
    assert_eq!(reopened.file, store.file);
}

#[test]
fn open_file_shorter_than_header_is_invalid_header() {
    match MemStore::open(vec![1, 2, 3]) {
        Err(Error::InvalidHeader(m)) => assert_eq!(m, "file too short for header: 3 bytes"),
        _ => panic!("expected InvalidHeader"),
    }
    let mut data = encode_header();
    data[0] ^= 0xFF;
    match MemStore::open(data) {
        Err(Error::InvalidHeader(m)) => assert_eq!(m, "bad magic bytes in file header"),
        _ => panic!("expected InvalidHeader"),
    }
}

#[test]
fn append_single_event_no_stream() {
    let mut store = MemStore::create();
    let stream_id = new_id();
    let recorded = store
        .append(stream_id, ExpectedVersion::NoStream, vec![make_proposed("OrderPlaced", b"{\"qty\":1}")])
        .expect("append should succeed");
    assert_eq!(recorded.len(), 1);
    assert_eq!(recorded[0].stream_version, 0);
    assert_eq!(recorded[0].global_position, 0);
    assert_eq!(recorded[0].stream_id, stream_id);
    assert_eq!(recorded[0].event_type, "OrderPlaced");
    assert_eq!(store.global_position(), 1);
    assert_eq!(store.stream_version(&stream_id), Some(0));
}

#[test]
fn append_batch_three_events() {
    let mut store = MemStore::create();
    let stream_id = new_id();
    let proposed = vec![make_proposed("Evt1", b"p1"), make_proposed("Evt2", b"p2"), make_proposed("Evt3", b"p3")];
    let recorded = store.append(stream_id, ExpectedVersion::NoStream, proposed).expect("append should succeed");
    assert_eq!(recorded.len(), 3);
    for (i, event) in recorded.iter().enumerate() {
        assert_eq!(event.stream_version, i as u64);
        assert_eq!(event.global_position, i as u64);
        assert_eq!(event.stream_id, stream_id);
    }
    assert_eq!(store.global_position(), 3);
    assert_eq!(store.stream_version(&stream_id), Some(2));
}

#[test]
fn append_any_on_nonexistent_stream_succeeds() {
    let mut store = MemStore::create();
    let recorded = store
        .append(new_id(), ExpectedVersion::Any, vec![make_proposed("Created", b"{}")])
        .expect("append with Any on new stream should succeed");
    assert_eq!(recorded.len(), 1);
    assert_eq!(recorded[0].stream_version, 0);
    assert_eq!(recorded[0].global_position, 0);
}

#[test]
fn append_any_on_existing_stream_appends_at_correct_version() {
    let mut store = MemStore::create();
    let stream_id = new_id();
    let first = vec![make_proposed("Evt1", b"p1"), make_proposed("Evt2", b"p2"), make_proposed("Evt3", b"p3")];
    store.append(stream_id, ExpectedVersion::Any, first).expect("first append should succeed");
    assert_eq!(store.stream_version(&stream_id), Some(2));
    let recorded = store
        .append(stream_id, ExpectedVersion::Any, vec![make_proposed("Evt4", b"p4")])
        .expect("second append with Any should succeed");
    assert_eq!(recorded.len(), 1);
    assert_eq!(recorded[0].stream_version, 3);
    assert_eq!(recorded[0].global_position, 3);
}

#[test]
fn append_no_stream_on_nonexistent_stream_succeeds() {
    let mut store = MemStore::create();
    let recorded = store
        .append(new_id(), ExpectedVersion::NoStream, vec![make_proposed("Created", b"{}")])
        .expect("append with NoStream on new stream should succeed");
    assert_eq!(recorded.len(), 1);
    assert_eq!(recorded[0].stream_version, 0);
}

#[test]
fn append_no_stream_on_existing_stream_returns_error() {
    let mut store = MemStore::create();
    let stream_id = new_id();
    store.append(stream_id, ExpectedVersion::NoStream, vec![make_proposed("Created", b"{}")]).unwrap();
    match store.append(stream_id, ExpectedVersion::NoStream, vec![make_proposed("Updated", b"{}")]) {
        Err(Error::WrongExpectedVersion { expected, actual }) => {
            assert_eq!(expected, "NoStream");
            assert_eq!(actual, "0");
        }
        Err(other) => panic!("expected WrongExpectedVersion, got: {other:?}"),
        Ok(_) => panic!("expected WrongExpectedVersion error, but append succeeded"),
    }
}

#[test]
fn append_exact_version_matches_succeeds() {
    let mut store = MemStore::create();
    let stream_id = new_id();
    store.append(stream_id, ExpectedVersion::NoStream, vec![make_proposed("Created", b"{}")]).unwrap();
    let recorded = store
        .append(stream_id, ExpectedVersion::Exact(0), vec![make_proposed("Updated", b"{}")])
        .expect("append with Exact(0) should succeed");
    assert_eq!(recorded.len(), 1);
    assert_eq!(recorded[0].stream_version, 1);
}

#[test]
fn append_exact_version_mismatch_returns_error() {
    let mut store = MemStore::create();
    let stream_id = new_id();
    let events = vec![make_proposed("Evt1", b"p1"), make_proposed("Evt2", b"p2"), make_proposed("Evt3", b"p3"), make_proposed("Evt4", b"p4")];
    store.append(stream_id, ExpectedVersion::NoStream, events).unwrap();
    assert_eq!(store.stream_version(&stream_id), Some(3));
    match store.append(stream_id, ExpectedVersion::Exact(5), vec![make_proposed("Evt5", b"p5")]) {
        Err(Error::WrongExpectedVersion { expected, actual }) => {
            assert_eq!(expected, "5");
            assert_eq!(actual, "3");
        }
        Err(other) => panic!("expected WrongExpectedVersion, got: {other:?}"),
        Ok(_) => panic!("expected WrongExpectedVersion error, but append succeeded"),
    }
}

#[test]
fn append_exact_on_nonexistent_stream_returns_error() {
    let mut store = MemStore::create();
    match store.append(new_id(), ExpectedVersion::Exact(0), vec![make_proposed("Created", b"{}")]) {
        Err(Error::WrongExpectedVersion { expected, actual }) => {
            assert_eq!(expected, "0");
            assert_eq!(actual, "NoStream");
        }
        Err(other) => panic!("expected WrongExpectedVersion, got: {other:?}"),
        Ok(_) => panic!("expected WrongExpectedVersion error, but append succeeded"),
    }
}

#[test]
fn append_oversized_payload_returns_event_too_large() {
    let mut store = MemStore::create();
    let file_size_before = store.file.len();
    let proposed = vec![ProposedEvent {
        event_id: new_id(),
        event_type: "BigEvent".to_string(),
        metadata: Vec::new(),
        payload: vec![0xAA; MAX_EVENT_SIZE],
    }];
    match store.append(new_id(), ExpectedVersion::Any, proposed) {
        Err(Error::EventTooLarge { size, max }) => {
            assert_eq!(max, MAX_EVENT_SIZE);
            assert!(size > MAX_EVENT_SIZE);
        }
        Err(other) => panic!("expected EventTooLarge, got: {other:?}"),
        Ok(_) => panic!("expected EventTooLarge error, but append succeeded"),
    }
    assert_eq!(store.file.len(), file_size_before);
    assert_eq!(store.global_position(), 0);
}

#[test]
fn append_event_type_too_long_returns_invalid_argument() {
    let mut store = MemStore::create();
    let long_type = "A".repeat(MAX_EVENT_TYPE_LEN + 1);
    match store.append(new_id(), ExpectedVersion::Any, vec![make_proposed(&long_type, b"{}")]) {
        Err(Error::InvalidArgument(msg)) => {
            assert_eq!(msg, "event type exceeds 256 byte limit: 257 bytes");
        }
        Err(other) => panic!("expected InvalidArgument, got: {other:?}"),
        Ok(_) => panic!("expected InvalidArgument error, but append succeeded"),
    }
}

#[test]
fn append_empty_event_type_returns_invalid_argument() {
    let mut store = MemStore::create();
    match store.append(new_id(), ExpectedVersion::Any, vec![make_proposed("", b"{}")]) {
        Err(Error::InvalidArgument(msg)) => assert!(msg.contains("event type"), "got: {msg}"),
        Err(other) => panic!("expected InvalidArgument, got: {other:?}"),
        Ok(_) => panic!("expected InvalidArgument error, but append succeeded"),
    }
}

#[test]
fn multi_stream_interleaved_reads() {
    let mut store = MemStore::create();
    let (a, b, c) = (new_id(), new_id(), new_id());
    store.append(a, ExpectedVersion::NoStream, vec![make_proposed("A0", b"a0")]).unwrap();
    store.append(b, ExpectedVersion::NoStream, vec![make_proposed("B0", b"b0")]).unwrap();
    store.append(a, ExpectedVersion::Exact(0), vec![make_proposed("A1", b"a1")]).unwrap();
    store.append(c, ExpectedVersion::NoStream, vec![make_proposed("C0", b"c0")]).unwrap();
    store.append(b, ExpectedVersion::Exact(0), vec![make_proposed("B1", b"b1")]).unwrap();

    let all = store.log.read_all(0, 100);
    let types: Vec<&str> = all.iter().map(|e| e.event_type.as_str()).collect();
    assert_eq!(types, vec!["A0", "B0", "A1", "C0", "B1"]);
    for (i, e) in all.iter().enumerate() {
        assert_eq!(e.global_position, i as u64);
    }
    let a_events = store.log.read_stream(a, 0, 100).expect("read_stream A");
    assert_eq!(a_events.len(), 2);
    assert_eq!(a_events[1].event_type, "A1");
    assert_eq!(a_events[1].stream_version, 1);
    let c_events = store.log.read_stream(c, 0, 100).expect("read_stream C");
    assert_eq!(c_events.len(), 1);
    assert_eq!(c_events[0].event_type, "C0");
}

#[test]
fn read_all_empty_log_returns_empty() {
    let store = MemStore::create();
    assert!(store.log.read_all(0, 100).is_empty());
}

#[test]
fn read_all_partial_range() {
    let mut store = MemStore::create();
    let s = new_id();
    let events: Vec<ProposedEvent> = (0..5).map(|i| make_proposed("E", &[i])).collect();
    store.append(s, ExpectedVersion::Any, events).unwrap();
    let part = store.log.read_all(1, 2);
    assert_eq!(part.len(), 2);
    assert_eq!(part[0].global_position, 1);
    assert_eq!(part[1].global_position, 2);
    assert!(store.log.read_all(10, 5).is_empty());
    assert_eq!(store.log.read_all(3, u64::MAX).len(), 2);
}

#[test]
fn read_stream_partial_range_and_beyond_end() {
    let mut store = MemStore::create();
    let s = new_id();
    let events: Vec<ProposedEvent> = (0..4).map(|i| make_proposed("E", &[i])).collect();
    store.append(s, ExpectedVersion::Any, events).unwrap();
    let part = store.log.read_stream(s, 1, 2).unwrap();
    assert_eq!(part.iter().map(|e| e.stream_version).collect::<Vec<_>>(), vec![1, 2]);
    assert!(store.log.read_stream(s, 9, 2).unwrap().is_empty());
}

#[test]
fn reader_read_stream_nonexistent_returns_stream_not_found() {
    let store = MemStore::create();
    let unknown = new_id();
    match store.log.read_stream(unknown, 0, 100) {
        Err(Error::StreamNotFound { stream_id }) => assert_eq!(stream_id, unknown),
        Err(other) => panic!("expected StreamNotFound, got: {other:?}"),
        Ok(_) => panic!("expected StreamNotFound error, but read_stream succeeded"),
    }
}

#[test]
fn list_streams_of_many_streams_follow_their_text_order() {
    let mut store = MemStore::create();
    let mut ids: Vec<u128> = (0..6).map(|_| new_id()).collect();
    for (n, id) in ids.iter().enumerate() {
        let events: Vec<ProposedEvent> = (0..=n).map(|_| make_proposed("E", b"")).collect();
        store.append(*id, ExpectedVersion::NoStream, events).unwrap();
    }
    let listed = store.log.list_streams();
    assert_eq!(listed.len(), 6);
    let texts: Vec<String> = listed.iter().map(|s| Uuid::from_u128(s.stream_id).to_string()).collect();
    let mut sorted = texts.clone();
    sorted.sort();
    assert_eq!(texts, sorted);
    for info in &listed {
        let n = ids.iter().position(|i| *i == info.stream_id).unwrap() as u64;
        assert_eq!(info.event_count, n + 1);
        assert_eq!(info.latest_version, n);
    }
    ids.sort();
    assert_eq!(listed.iter().map(|s| s.stream_id).collect::<Vec<_>>(), ids);
}

#[test]
fn list_streams_empty_store_returns_empty_vec() {
    assert!(MemStore::create().log.list_streams().is_empty());
}

#[test]
fn reopening_a_truncated_file_is_clean_and_identical() {
    let stream = new_id();
    let events = vec![make_event(0, stream, 0, "Evt", b"p0"), make_event(1, stream, 1, "Evt", b"p1")];
    let mut data = seed_file(&[&events]);
    data.extend_from_slice(&encode_batch_header(1, 2));
    let first = MemStore::open(data).expect("recovery should succeed");
    let rec = recover(&first.file).expect("reopen should succeed");
    assert!(rec.truncate_to.is_none());
    assert_eq!(rec.log.events, first.log.events);
    assert_eq!(rec.log.list_streams(), first.log.list_streams());
}

/// A store with `count` events appended in one batch to a new stream.
fn open_and_append_to_stream(count: usize) -> (u128, MemStore) {
    let mut store = MemStore::create();
    let stream_id = new_id();
    let proposed: Vec<ProposedEvent> = (0..count)
        .map(|i| make_proposed(&format!("Evt{i}"), format!("p{i}").as_bytes()))
        .collect();
    store.append(stream_id, ExpectedVersion::NoStream, proposed).expect("append should succeed");
    (stream_id, store)
}

fn header_bytes(magic: [u8; 4], version: u32) -> Vec<u8> {
    let mut header = magic.to_vec();
    header.extend_from_slice(&version.to_le_bytes());
    header
}

#[test]
fn stream_version_with_events_returns_last_version() {
    let (stream_id, store) = open_and_append_to_stream(3);
    assert_eq!(store.stream_version(&stream_id), Some(2));
}

#[test]
fn global_position_after_five_appends_returns_five() {
    let (_stream_id, store) = open_and_append_to_stream(5);
    assert_eq!(store.global_position(), 5);
}

#[test]
fn read_all_returns_all_events() {
    let (_stream_id, store) = open_and_append_to_stream(5);
    let events = store.log.read_all(0, 100);
    assert_eq!(events.len(), 5);
    for (i, event) in events.iter().enumerate() {
        assert_eq!(event.global_position, i as u64);
    }
}

#[test]
fn read_all_beyond_end_returns_empty() {
    let (_stream_id, store) = open_and_append_to_stream(5);
    assert!(store.log.read_all(100, 10).is_empty(), "expected empty vec for out-of-range position");
}

#[test]
fn read_stream_all_events_from_start() {
    let (stream_id, store) = open_and_append_to_stream(5);
    let events = store.log.read_stream(stream_id, 0, 100).expect("read_stream should succeed");
    assert_eq!(events.len(), 5);
    for (i, event) in events.iter().enumerate() {
        assert_eq!(event.stream_version, i as u64);
        assert_eq!(event.stream_id, stream_id);
    }
}

#[test]
fn read_stream_partial_range() {
    let (stream_id, store) = open_and_append_to_stream(5);
    let events = store.log.read_stream(stream_id, 2, 2).expect("read_stream should succeed");
    assert_eq!(events.len(), 2);
    assert_eq!(events[0].stream_version, 2);
    assert_eq!(events[1].stream_version, 3);
}

#[test]
fn read_stream_beyond_end_returns_empty() {
    let (stream_id, store) = open_and_append_to_stream(5);
    let events = store.log.read_stream(stream_id, 10, 100).expect("read_stream should succeed");
    assert!(events.is_empty(), "expected empty vec for out-of-range version");
}

#[test]
fn store_read_stream_nonexistent_returns_stream_not_found() {
    let store = MemStore::create();
    let unknown = new_id();
    match store.log.read_stream(unknown, 0, 100) {
        Err(Error::StreamNotFound { stream_id }) => assert_eq!(stream_id, unknown),
        Err(other) => panic!("expected StreamNotFound, got: {other:?}"),
        Ok(_) => panic!("expected StreamNotFound error, but read_stream succeeded"),
    }
}

#[test]
fn recovery_rejects_invalid_header_magic() {
    match MemStore::open(vec![0x00, 0x00, 0x00, 0x00, 0x01, 0x00, 0x00, 0x00]) {
        Err(Error::InvalidHeader(msg)) => assert!(msg.contains("magic"), "error should mention 'magic', got: {msg}"),
        Err(other) => panic!("expected InvalidHeader, got: {other:?}"),
        Ok(_) => panic!("expected InvalidHeader, but open() succeeded"),
    }
}

#[test]
fn recovery_rejects_invalid_header_version() {
    match MemStore::open(header_bytes([0x45, 0x46, 0x44, 0x42], 99)) {
        Err(Error::InvalidHeader(msg)) => {
            assert!(msg.contains("version"), "error should mention 'version', got: {msg}");
            assert_eq!(msg, "unsupported format version in file header");
        }
        Err(other) => panic!("expected InvalidHeader, got: {other:?}"),
        Ok(_) => panic!("expected InvalidHeader, but open() succeeded"),
    }
}

#[test]
fn recovery_rejects_version_1_file() {
    match MemStore::open(header_bytes([0x45, 0x46, 0x44, 0x42], 1)) {
        Err(Error::InvalidHeader(msg)) => assert!(msg.contains("version"), "error should mention 'version', got: {msg}"),
        Err(other) => panic!("expected InvalidHeader, got: {other:?}"),
        Ok(_) => panic!("expected InvalidHeader, but open() succeeded"),
    }
}

#[test]
fn recovery_rejects_file_too_short_for_header() {
    match MemStore::open(vec![0x45, 0x46, 0x44, 0x42]) {
        Err(Error::InvalidHeader(msg)) => assert!(msg.contains("short"), "error should mention 'short', got: {msg}"),
        Err(other) => panic!("expected InvalidHeader, got: {other:?}"),
        Ok(_) => panic!("expected InvalidHeader, but open() succeeded"),
    }
}

#[test]
fn recovery_via_append_truncates_garbage_after_real_appends() {
    let stream_id = new_id();
    let mut store = MemStore::create();
    let proposed = vec![make_proposed("Evt0", b"p0"), make_proposed("Evt1", b"p1"), make_proposed("Evt2", b"p2")];
    store.append(stream_id, ExpectedVersion::NoStream, proposed).expect("append should succeed");
    assert_eq!(store.global_position(), 3);
    let valid_size = store.file.len();
    let mut data = store.file.clone();
    data.extend_from_slice(&[0xDE, 0xAD, 0xBE, 0xEF, 0xCA, 0xFE, 0x01, 0x02, 0x03, 0x04]);
    assert!(data.len() > valid_size);

    let mut store = MemStore::open(data).expect("reopen should succeed");
    assert_eq!(store.global_position(), 3);
    assert_eq!(store.stream_version(&stream_id), Some(2));
    assert_eq!(store.file.len(), valid_size, "file should be truncated to valid boundary");
    let all = store.log.read_all(0, 100);
    assert_eq!(all.len(), 3);
    for (i, event) in all.iter().enumerate() {
        assert_eq!(event.global_position, i as u64);
        assert_eq!(event.stream_version, i as u64);
        assert_eq!(event.stream_id, stream_id);
    }
    let recorded = store
        .append(stream_id, ExpectedVersion::Exact(2), vec![make_proposed("Evt3", b"p3")])
        .expect("post-recovery append should succeed");
    assert_eq!(recorded.len(), 1);
    assert_eq!(recorded[0].global_position, 3);
    assert_eq!(recorded[0].stream_version, 3);
    assert_eq!(store.global_position(), 4);
}

#[test]
fn log_accessor_returns_empty_event_log_on_new_store() {
    let store = MemStore::create();
    assert_eq!(store.log.events.len(), 0);
    assert_eq!(store.log.streams.len(), 0);
}

#[test]
fn log_accessor_reflects_appended_event() {
    let mut store = MemStore::create();
    let stream_id = new_id();
    store.append(stream_id, ExpectedVersion::NoStream, vec![make_proposed("Created", b"{}")]).expect("append should succeed");
    assert_eq!(store.log.events.len(), 1);
    assert!(store.log.streams.contains_key(&stream_id), "streams should contain the appended stream's id");
}

/// Decodes one batch envelope at the start of `data`; its header, its
/// records and the bytes it takes, checking the footer's CRC.
fn decode_envelope(data: &[u8]) -> (u32, u64, Vec<RecordedEvent>, usize) {
    let header = match decode_batch_header(&data[..BATCH_HEADER_SIZE]).expect("decode batch header should not error") {
        DecodeOutcome::Complete { value, consumed } => {
            assert_eq!(consumed, BATCH_HEADER_SIZE);
            value
        }
        DecodeOutcome::Incomplete => panic!("batch header should be complete"),
    };
    let mut offset = BATCH_HEADER_SIZE;
    let mut records = Vec::new();
    for i in 0..header.record_count {
        match decode_record(&data[offset..]).unwrap_or_else(|e| panic!("decode record {i} should succeed: {e:?}")) {
            DecodeOutcome::Complete { value, consumed } => {
                records.push(value);
                offset += consumed;
            }
            DecodeOutcome::Incomplete => panic!("record {i} should be complete"),
        }
    }
    let footer = match decode_batch_footer(&data[offset..]).expect("decode batch footer should not error") {
        DecodeOutcome::Complete { value, consumed } => {
            assert_eq!(consumed, BATCH_FOOTER_SIZE);
            value
        }
        DecodeOutcome::Incomplete => panic!("batch footer should be complete"),
    };
    assert_eq!(footer.batch_crc, crc32fast::hash(&data[..offset]), "batch footer CRC should match recomputed value");
    (header.record_count, header.first_global_pos, records, offset + BATCH_FOOTER_SIZE)
}

#[test]
fn batch_envelope_raw_bytes_three_events() {
    let mut store = MemStore::create();
    let stream_id = new_id();
    let proposed = vec![make_proposed("Evt0", b"p0"), make_proposed("Evt1", b"p1"), make_proposed("Evt2", b"p2")];
    store.append(stream_id, ExpectedVersion::NoStream, proposed).expect("append should succeed");
    let batch_data = &store.file[HEADER_SIZE..];
    let (count, first, records, used) = decode_envelope(batch_data);
    assert_eq!(count, 3);
    assert_eq!(first, 0);
    for (i, r) in records.iter().enumerate() {
        assert_eq!(r.global_position, i as u64, "record {i} global_position");
    }
    assert_eq!(used, batch_data.len(), "no extra bytes should remain after batch footer");
}

#[test]
fn batch_envelope_two_consecutive_batches() {
    let mut store = MemStore::create();
    let stream_id = new_id();
    store.append(stream_id, ExpectedVersion::NoStream, vec![make_proposed("Evt0", b"p0"), make_proposed("Evt1", b"p1")]).expect("first append should succeed");
    store.append(stream_id, ExpectedVersion::Exact(1), vec![make_proposed("Evt2", b"p2")]).expect("second append should succeed");
    let batch_data = &store.file[HEADER_SIZE..];
    let (c1, f1, _, used1) = decode_envelope(batch_data);
    assert_eq!(c1, 2);
    assert_eq!(f1, 0);
    let (c2, f2, _, used2) = decode_envelope(&batch_data[used1..]);
    assert_eq!(c2, 1);
    assert_eq!(f2, 2);
    assert_eq!(used1 + used2, batch_data.len(), "no extra bytes after second batch");
}

#[test]
fn batch_envelope_append_returns_correct_recorded_events() {
    let mut store = MemStore::create();
    let stream_id = new_id();
    let recorded1 = store
        .append(stream_id, ExpectedVersion::NoStream, vec![make_proposed("OrderPlaced", b"{\"qty\":1}"), make_proposed("OrderConfirmed", b"{\"status\":\"ok\"}")])
        .expect("first append should succeed");
    assert_eq!(recorded1.len(), 2);
    assert_eq!(recorded1[0].global_position, 0);
    assert_eq!(recorded1[0].stream_version, 0);
    assert_eq!(recorded1[0].stream_id, stream_id);
    assert_eq!(recorded1[0].event_type, "OrderPlaced");
    assert_eq!(recorded1[1].global_position, 1);
    assert_eq!(recorded1[1].stream_version, 1);
    assert_eq!(recorded1[1].stream_id, stream_id);
    assert_eq!(recorded1[1].event_type, "OrderConfirmed");
    let recorded2 = store
        .append(stream_id, ExpectedVersion::Exact(1), vec![make_proposed("OrderShipped", b"{\"carrier\":\"ups\"}")])
        .expect("second append should succeed");
    assert_eq!(recorded2.len(), 1);
    assert_eq!(recorded2[0].global_position, 2);
    assert_eq!(recorded2[0].stream_version, 2);
    assert_eq!(recorded2[0].stream_id, stream_id);
    assert_eq!(recorded2[0].event_type, "OrderShipped");
    assert_eq!(store.global_position(), 3);
    assert_eq!(store.stream_version(&stream_id), Some(2));
}

#[test]
fn batch_envelope_read_all_after_three_event_append() {
    let (stream_id, store) = open_and_append_to_stream(3);
    let events = store.log.read_all(0, 100);
    assert_eq!(events.len(), 3);
    for (i, event) in events.iter().enumerate() {
        assert_eq!(event.global_position, i as u64, "global_position for event {i}");
        assert_eq!(event.stream_version, i as u64, "stream_version for event {i}");
        assert_eq!(event.stream_id, stream_id);
    }
}

#[test]
fn recovery_truncates_batch_missing_footer() {
    let stream = new_id();
    let events = vec![make_event(0, stream, 0, "Evt", b"p0"), make_event(1, stream, 1, "Evt", b"p1")];
    let mut data = seed_file(&[&events]);
    data.truncate(data.len() - BATCH_FOOTER_SIZE);
    let store = MemStore::open(data).expect("recovery should succeed");
    assert_eq!(store.global_position(), 0);
    assert!(store.log.read_all(0, 100).is_empty());
    assert_eq!(store.file.len(), HEADER_SIZE, "file should be truncated to file header (batch start offset)");
}

#[test]
fn recovery_truncates_batch_mid_record_truncation() {
    let stream = new_id();
    let events = [make_event(0, stream, 0, "Evt", b"p0"), make_event(1, stream, 1, "Evt", b"p1")];
    let mut data = encode_header();
    data.extend_from_slice(&encode_batch_header(2, 0));
    data.extend_from_slice(&encode_record(&events[0]));
    data.extend_from_slice(&encode_record(&events[1])[..4]);
    let store = MemStore::open(data).expect("recovery should succeed");
    assert_eq!(store.global_position(), 0);
    assert!(store.log.read_all(0, 100).is_empty());
    assert_eq!(store.file.len(), HEADER_SIZE, "file should be truncated to file header (batch start offset)");
}

#[test]
fn recovery_two_complete_batches_plus_partial_third() {
    let stream = new_id();
    let batch1 = vec![make_event(0, stream, 0, "Evt", b"p0"), make_event(1, stream, 1, "Evt", b"p1")];
    let batch2 = vec![make_event(2, stream, 2, "Evt", b"p2")];
    let batch3_event = make_event(3, stream, 3, "Evt", b"p3");
    let mut data = seed_file(&[&batch1, &batch2]);
    data.extend_from_slice(&encode_batch_header(2, 3));
    data.extend_from_slice(&encode_record(&batch3_event));
    let store = MemStore::open(data).expect("recovery should succeed");
    assert_eq!(store.global_position(), 3);
    let all = store.log.read_all(0, 100);
    assert_eq!(all.len(), 3);
    for (i, event) in all.iter().enumerate() {
        assert_eq!(event.global_position, i as u64);
    }
}

#[test]
fn log_file_len_fresh_store_returns_at_least_header_size() {
    let store = MemStore::create();
    assert!(store.file.len() >= 8, "fresh store log file length should be >= 8 (header size)");
}

#[test]
fn log_file_len_grows_after_append() {
    let mut store = MemStore::create();
    let before = store.file.len();
    store.append(new_id(), ExpectedVersion::Any, vec![make_proposed("TestEvent", b"{}")]).expect("append should succeed");
    assert!(store.file.len() > before, "log file should grow after append");
}

#[test]
fn recovery_reports_corrupt_record_followed_by_a_valid_batch() {
    let stream = new_id();
    let batch1 = vec![make_event(0, stream, 0, "Evt", b"payload0")];
    let batch2 = vec![make_event(1, stream, 1, "Evt", b"payload1")];
    let batch3 = vec![make_event(2, stream, 2, "Evt", b"payload2")];
    let mut data = seed_file(&[&batch1, &batch2, &batch3]);
    let original = data.clone();
    // A byte inside the payload of batch 2's record: its record CRC fails.
    let corrupt_idx = HEADER_SIZE + encode_batch(&batch1).len() + encode_batch(&batch2).len() - 13;
    data[corrupt_idx] ^= 0xFF;
    assert_ne!(data, original);
    match recover(&data) {
        Err(Error::CorruptRecord { position, detail }) => {
            assert_eq!(position, 1);
            assert_eq!(detail, "mid-file corruption: valid batch follows corrupt data");
        }
        Err(other) => panic!("expected CorruptRecord, got: {other:?}"),
        Ok(_) => panic!("expected CorruptRecord error, but recovery succeeded"),
    }
}

#[test]
fn recovery_reports_batch_crc_mismatch_followed_by_a_valid_batch() {
    let stream = new_id();
    let batch1 = vec![make_event(0, stream, 0, "Evt", b"payload0")];
    let batch2 = vec![make_event(1, stream, 1, "Evt", b"payload1")];
    let mut data = seed_file(&[&batch1, &batch2]);
    // The last byte of batch 1's footer: its batch CRC no longer matches.
    let idx = HEADER_SIZE + encode_batch(&batch1).len() - 1;
    data[idx] ^= 0xFF;
    match recover(&data) {
        Err(Error::CorruptRecord { position, .. }) => assert_eq!(position, 0),
        Err(other) => panic!("expected CorruptRecord, got: {other:?}"),
        Ok(_) => panic!("expected CorruptRecord error, but recovery succeeded"),
    }
}

#[test]
fn recovery_truncates_batch_crc_mismatch_in_last_batch() {
    let stream = new_id();
    let batch1 = vec![make_event(0, stream, 0, "Evt", b"payload0")];
    let batch2 = vec![make_event(1, stream, 1, "Evt", b"payload1")];
    let mut data = seed_file(&[&batch1, &batch2]);
    let last = data.len() - 1;
    data[last] ^= 0xFF;
    let store = MemStore::open(data).expect("recovery should succeed");
    assert_eq!(store.global_position(), 1);
    assert_eq!(store.file.len(), HEADER_SIZE + encode_batch(&batch1).len());
}

/// A store with `n` events appended one by one to a new stream.
fn store_with_events(n: usize) -> (u128, MemStore) {
    let mut store = MemStore::create();
    let stream_id = new_id();
    for i in 0..n {
        let expected = if i == 0 { ExpectedVersion::NoStream } else { ExpectedVersion::Exact(i as u64 - 1) };
        store.append(stream_id, expected, vec![make_proposed("TestEvent", b"{}")]).expect("append should succeed");
    }
    (stream_id, store)
}

fn parse_id(text: &str) -> u128 {
    Uuid::parse_str(text).expect("valid uuid").as_u128()
}

#[test]
fn read_all_returns_all_events_from_store() {
    let (_stream_id, store) = store_with_events(3);
    let events = store.log.read_all(0, 100);
    assert_eq!(events.len(), 3);
    for (i, event) in events.iter().enumerate() {
        assert_eq!(event.global_position, i as u64);
    }
}

#[test]
fn stream_version_returns_correct_version() {
    let (stream_id, store) = store_with_events(3);
    assert_eq!(store.log.stream_version(&stream_id), Some(2));
}

#[test]
fn stream_version_returns_none_for_nonexistent() {
    let store = MemStore::create();
    assert_eq!(store.log.stream_version(&new_id()), None);
}

#[test]
fn global_position_returns_event_count() {
    let (_stream_id, store) = store_with_events(5);
    assert_eq!(store.log.global_position(), 5);
}

#[test]
fn global_position_on_empty_returns_zero() {
    let store = MemStore::create();
    assert_eq!(store.log.global_position(), 0);
}

#[test]
fn two_clones_observe_same_data_after_append() {
    let mut store = MemStore::create();
    assert_eq!(store.log.global_position(), 0);
    let stream_id = new_id();
    store.append(stream_id, ExpectedVersion::NoStream, vec![make_proposed("Created", b"{}")]).expect("append should succeed");
    let index_a = &store.log;
    let index_b = &store.log;
    assert_eq!(index_a.global_position(), 1);
    assert_eq!(index_b.global_position(), 1);
    assert_eq!(index_a.read_all(0, 100).len(), 1);
    assert_eq!(index_b.read_all(0, 100).len(), 1);
}

#[test]
fn list_streams_returns_correct_counts_and_versions() {
    let mut store = MemStore::create();
    let stream_a = new_id();
    let stream_b = new_id();
    store.append(stream_a, ExpectedVersion::NoStream, vec![make_proposed("E1", b"{}")]).expect("append should succeed");
    store.append(stream_a, ExpectedVersion::Exact(0), vec![make_proposed("E2", b"{}")]).expect("append should succeed");
    store.append(stream_a, ExpectedVersion::Exact(1), vec![make_proposed("E3", b"{}")]).expect("append should succeed");
    store.append(stream_b, ExpectedVersion::NoStream, vec![make_proposed("E4", b"{}")]).expect("append should succeed");
    let streams = store.log.list_streams();
    assert_eq!(streams.len(), 2);
    let info_a = streams.iter().find(|s| s.stream_id == stream_a).expect("stream A missing");
    let info_b = streams.iter().find(|s| s.stream_id == stream_b).expect("stream B missing");
    assert_eq!(info_a.event_count, 3);
    assert_eq!(info_a.latest_version, 2);
    assert_eq!(info_b.event_count, 1);
    assert_eq!(info_b.latest_version, 0);
}

#[test]
fn list_streams_sorted_lexicographically_by_stream_id() {
    let mut store = MemStore::create();
    let uuid_a = parse_id("10000000-0000-4000-8000-000000000000");
    let uuid_b = parse_id("50000000-0000-4000-8000-000000000000");
    let uuid_c = parse_id("90000000-0000-4000-8000-000000000000");
    assert!(Uuid::from_u128(uuid_c).to_string() > Uuid::from_u128(uuid_a).to_string());
    assert!(Uuid::from_u128(uuid_c).to_string() > Uuid::from_u128(uuid_b).to_string());
    assert!(Uuid::from_u128(uuid_a).to_string() < Uuid::from_u128(uuid_b).to_string());
    store.append(uuid_c, ExpectedVersion::NoStream, vec![make_proposed("E1", b"{}")]).expect("append should succeed");
    store.append(uuid_a, ExpectedVersion::NoStream, vec![make_proposed("E2", b"{}")]).expect("append should succeed");
    store.append(uuid_b, ExpectedVersion::NoStream, vec![make_proposed("E3", b"{}")]).expect("append should succeed");
    let streams = store.log.list_streams();
    assert_eq!(streams.len(), 3);
    assert_eq!(streams[0].stream_id, uuid_a);
    assert_eq!(streams[1].stream_id, uuid_b);
    assert_eq!(streams[2].stream_id, uuid_c);
}

#[test]
fn list_streams_shared_state_consistency() {
    let mut store = MemStore::create();
    assert!(store.log.list_streams().is_empty());
    let stream_id = new_id();
    store.append(stream_id, ExpectedVersion::NoStream, vec![make_proposed("Created", b"{}")]).expect("append should succeed");
    store.append(stream_id, ExpectedVersion::Exact(0), vec![make_proposed("Updated", b"{}")]).expect("append should succeed");
    let streams_a = store.log.list_streams();
    let streams_b = store.log.list_streams();
    assert_eq!(streams_a, streams_b);
    assert_eq!(streams_a.len(), 1);
    assert_eq!(streams_a[0].stream_id, stream_id);
    assert_eq!(streams_a[0].event_count, 2);
    assert_eq!(streams_a[0].latest_version, 1);
}

#[test]
fn read_stream_returns_correct_events_in_version_order() {
    let (stream_id, store) = store_with_events(3);
    let events = store.log.read_stream(stream_id, 0, 100).expect("read_stream should succeed");
    assert_eq!(events.len(), 3);
    for (i, event) in events.iter().enumerate() {
        assert_eq!(event.stream_version, i as u64);
        assert_eq!(event.stream_id, stream_id);
    }
}
