use eventfold_db::proto;
use eventfold_db::service::{
    append_response, error_to_status, events_to_proto, parse_append_request, parse_uuid,
    proto_to_expected_version, proto_to_proposed_event, recorded_to_proto, stream_info_to_proto,
    subscription_to_proto, Code,
};
use eventfold_db::types::{ExpectedVersion, RecordedEvent, StreamInfo, SubscriptionMessage};
use eventfold_db::Error;
use std::sync::Arc;
use uuid::Uuid;

fn domain_event(recorded_at: u64) -> RecordedEvent {
    RecordedEvent {
        event_id: Uuid::new_v4().as_u128(),
        stream_id: Uuid::new_v4().as_u128(),
        stream_version: 5,
        global_position: 42,
        recorded_at,
        event_type: "PaymentReceived".to_string(),
        metadata: b"meta".to_vec(),
        payload: b"payload".to_vec(),
    }
}

#[test]
fn error_to_status_wrong_expected_version() {
    let status = error_to_status(Error::WrongExpectedVersion { expected: "0".into(), actual: "1".into() });
    assert_eq!(status.code, Code::FailedPrecondition);
    assert_eq!(status.message, "wrong expected version: expected 0, actual 1");
}

#[test]
fn error_to_status_stream_not_found() {
    let id = Uuid::new_v4();
    let status = error_to_status(Error::StreamNotFound { stream_id: id.as_u128() });
    assert_eq!(status.code, Code::NotFound);
    assert!(status.message.contains(&id.to_string()));
}

#[test]
fn error_to_status_io() {
    let err = Error::Io(std::io::Error::new(std::io::ErrorKind::NotFound, "file missing"));
    let status = error_to_status(err);
    assert_eq!(status.code, Code::Internal);
    assert!(status.message.contains("I/O error"));
    assert!(status.message.contains("file missing"));
}

#[test]
fn error_to_status_corrupt_record() {
    let status = error_to_status(Error::CorruptRecord { position: 42, detail: "bad crc".into() });
    assert_eq!(status.code, Code::DataLoss);
    assert!(status.message.contains("42"));
}

#[test]
fn error_to_status_invalid_header() {
    let status = error_to_status(Error::InvalidHeader("bad magic".into()));
    assert_eq!(status.code, Code::DataLoss);
    assert!(status.message.contains("bad magic"));
}

#[test]
fn error_to_status_event_too_large() {
    let status = error_to_status(Error::EventTooLarge { size: 70000, max: 65536 });
    assert_eq!(status.code, Code::InvalidArgument);
    assert_eq!(status.message, "event too large: 70000 bytes exceeds 65536 byte limit");
}

#[test]
fn error_to_status_invalid_argument() {
    let status = error_to_status(Error::InvalidArgument("bad".into()));
    assert_eq!(status.code, Code::InvalidArgument);
    assert_eq!(status.message, "invalid argument: bad");
}

#[test]
fn parse_uuid_valid() {
    let id = Uuid::new_v4();
    let result = parse_uuid(&id.to_string(), "event_id");
    assert_eq!(result.unwrap(), id.as_u128());
}

#[test]
fn parse_uuid_invalid() {
    let status = parse_uuid("not-a-uuid", "stream_id").unwrap_err();
    assert_eq!(status.code, Code::InvalidArgument);
    assert!(status.message.starts_with("invalid stream_id: "), "got: {}", status.message);
}

#[test]
fn proto_to_expected_version_none() {
    let status = proto_to_expected_version(None).unwrap_err();
    assert_eq!(status.code, Code::InvalidArgument);
    assert_eq!(status.message, "expected_version is required");
    let status = proto_to_expected_version(Some(proto::ExpectedVersion { kind: None })).unwrap_err();
    assert_eq!(status.message, "expected_version.kind is required");
}

#[test]
fn proto_to_expected_version_any() {
    let ev = Some(proto::ExpectedVersion { kind: Some(proto::expected_version::Kind::Any(proto::Empty {})) });
    assert_eq!(proto_to_expected_version(ev).unwrap(), ExpectedVersion::Any);
}

#[test]
fn proto_to_expected_version_no_stream() {
    let ev = Some(proto::ExpectedVersion { kind: Some(proto::expected_version::Kind::NoStream(proto::Empty {})) });
    assert_eq!(proto_to_expected_version(ev).unwrap(), ExpectedVersion::NoStream);
}

#[test]
fn proto_to_expected_version_exact() {
    let ev = Some(proto::ExpectedVersion { kind: Some(proto::expected_version::Kind::Exact(42)) });
    assert_eq!(proto_to_expected_version(ev).unwrap(), ExpectedVersion::Exact(42));
}

#[test]
fn proto_to_proposed_event_invalid_uuid() {
    let p = proto::ProposedEvent {
        event_id: "not-a-uuid".to_string(),
        event_type: "TestEvent".to_string(),
        metadata: vec![],
        payload: vec![1, 2, 3],
    };
    let status = proto_to_proposed_event(p).unwrap_err();
    assert_eq!(status.code, Code::InvalidArgument);
    assert!(status.message.contains("event_id"), "got: {}", status.message);
}

#[test]
fn proto_to_proposed_event_valid() {
    let event_id = Uuid::new_v4();
    let p = proto::ProposedEvent {
        event_id: event_id.to_string(),
        event_type: "OrderPlaced".to_string(),
        metadata: vec![1, 2],
        payload: vec![3, 4, 5],
    };
    let result = proto_to_proposed_event(p).unwrap();
    assert_eq!(result.event_id, event_id.as_u128());
    assert_eq!(result.event_type, "OrderPlaced");
    assert_eq!(result.metadata, vec![1u8, 2]);
    assert_eq!(result.payload, vec![3u8, 4, 5]);
}

#[test]
fn recorded_to_proto_round_trip() {
    let domain = domain_event(0);
    let p = recorded_to_proto(&domain);
    assert_eq!(p.event_id, Uuid::from_u128(domain.event_id).to_string());
    assert_eq!(p.stream_id, Uuid::from_u128(domain.stream_id).to_string());
    assert_eq!(p.stream_version, 5);
    assert_eq!(p.global_position, 42);
    assert_eq!(p.event_type, "PaymentReceived");
    assert_eq!(p.metadata, b"meta");
    assert_eq!(p.payload, b"payload");
}

#[test]
fn recorded_to_proto_maps_recorded_at() {
    let p = recorded_to_proto(&domain_event(1_700_000_000_000));
    assert_eq!(p.recorded_at, 1_700_000_000_000);
}

#[test]
fn recorded_to_proto_uses_hyphenated_lowercase_text() {
    let mut e = domain_event(0);
    e.event_id = 0x67e5_5044_10b1_426f_9247_bb68_0e5f_e0c8;
    assert_eq!(recorded_to_proto(&e).event_id, "67e55044-10b1-426f-9247-bb680e5fe0c8");
}

#[test]
fn events_to_proto_keeps_order() {
    let a = domain_event(1);
    let b = domain_event(2);
    let out = events_to_proto(&vec![a.clone(), b.clone()]);
    assert_eq!(out.len(), 2);
    assert_eq!(out[0].recorded_at, 1);
    assert_eq!(out[1].recorded_at, 2);
}

fn valid_request() -> proto::AppendRequest {
    proto::AppendRequest {
        stream_id: Uuid::new_v4().to_string(),
        expected_version: Some(proto::ExpectedVersion { kind: Some(proto::expected_version::Kind::Exact(3)) }),
        events: vec![
            proto::ProposedEvent { event_id: Uuid::new_v4().to_string(), event_type: "A".into(), metadata: vec![], payload: vec![1] },
            proto::ProposedEvent { event_id: Uuid::new_v4().to_string(), event_type: "B".into(), metadata: vec![2], payload: vec![] },
        ],
    }
}

#[test]
fn parse_append_request_valid() {
    let req = valid_request();
    let sid = Uuid::parse_str(&req.stream_id).unwrap().as_u128();
    let parts = parse_append_request(req).unwrap();
    assert_eq!(parts.stream_id, sid);
    assert_eq!(parts.expected_version, ExpectedVersion::Exact(3));
    assert_eq!(parts.events.len(), 2);
    assert_eq!(parts.events[1].event_type, "B");
    assert_eq!(parts.events[1].metadata, vec![2]);
}

#[test]
fn parse_append_request_errors_in_order() {
    let mut req = valid_request();
    req.stream_id = "nope".into();
    req.expected_version = None;
    let s = parse_append_request(req).unwrap_err();
    assert!(s.message.starts_with("invalid stream_id: "));

    let mut req = valid_request();
    req.expected_version = None;
    req.events.clear();
    assert_eq!(parse_append_request(req).unwrap_err().message, "expected_version is required");

    let mut req = valid_request();
    req.events.clear();
    assert_eq!(parse_append_request(req).unwrap_err().message, "events must not be empty");

    let mut req = valid_request();
    req.events[1].event_id = "bad".into();
    let s = parse_append_request(req).unwrap_err();
    assert_eq!(s.code, Code::InvalidArgument);
    assert!(s.message.starts_with("invalid event_id: "));
}

#[test]
fn append_response_reports_first_and_last() {
    let mut a = domain_event(0);
    a.stream_version = 3;
    a.global_position = 10;
    let mut b = domain_event(0);
    b.stream_version = 4;
    b.global_position = 11;
    let r = append_response(&vec![a, b]);
    assert_eq!(r.first_stream_version, 3);
    assert_eq!(r.last_stream_version, 4);
    assert_eq!(r.first_global_position, 10);
    assert_eq!(r.last_global_position, 11);
}

#[test]
fn subscription_to_proto_maps_both_kinds() {
    let e = domain_event(9);
    let r = subscription_to_proto(&SubscriptionMessage::Event(Arc::new(e)));
    match r.content {
        Some(proto::subscribe_response::Content::Event(p)) => assert_eq!(p.recorded_at, 9),
        _ => panic!("expected an event"),
    }
    let r = subscription_to_proto(&SubscriptionMessage::CaughtUp);
    assert!(matches!(r.content, Some(proto::subscribe_response::Content::CaughtUp(_))));
}

#[test]
fn stream_info_to_proto_uses_uuid_text() {
    let id = Uuid::new_v4();
    let p = stream_info_to_proto(&StreamInfo { stream_id: id.as_u128(), event_count: 5, latest_version: 4 });
    assert_eq!(p.stream_id, id.to_string());
    assert_eq!(p.event_count, 5);
    assert_eq!(p.latest_version, 4);
}
