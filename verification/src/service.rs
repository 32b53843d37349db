//! The protocol side of the service: validation and conversion of requests,
//! conversion of results, and the status that reports each error.
//!
//! A status is held as its code and message; the transport layer turns it
//! into a `tonic::Status`.

use vstd::prelude::*;
use vstd::string::*;

use crate::error::{describes, Error};
use crate::ids::{uuid_from_str, uuid_hyphenated, uuid_parse, uuid_parse_error, uuid_to_string};
use crate::proto;
use crate::types::{
    ExpectedVersion, ProposedEvent, ProposedEventView, RecordedEvent,
    RecordedEventView, StreamInfo, SubscriptionMessage,
};

verus! {

/// The gRPC status codes the service answers with.
#[derive(Debug, Clone, Copy, PartialEq, Eq, Structural)]
pub enum Code {
    /// The request is malformed or refused as such.
    InvalidArgument,
    /// The requested stream does not exist.
    NotFound,
    /// The optimistic concurrency check failed.
    FailedPrecondition,
    /// An internal (I/O) failure.
    Internal,
    /// Stored data is corrupt.
    DataLoss,
}

/// A gRPC status: a code and a message.
#[derive(Debug, Clone)]
pub struct Status {
    /// The status code.
    pub code: Code,
    /// The human-readable message.
    pub message: String,
}

impl Status {
    /// An `InvalidArgument` status with the given message.
    pub fn invalid_argument(message: String) -> (s: Status)
        ensures
            s.code == Code::InvalidArgument,
            s.message@ == message@,
    {
        Status { code: Code::InvalidArgument, message }
    }
}

/// The status code that reports error `e`.
pub open spec fn status_code_of(e: Error) -> Code {
    match e {
        Error::WrongExpectedVersion { .. } => Code::FailedPrecondition,
        Error::StreamNotFound { .. } => Code::NotFound,
        Error::Io(_) => Code::Internal,
        Error::CorruptRecord { .. } => Code::DataLoss,
        Error::InvalidHeader(_) => Code::DataLoss,
        Error::EventTooLarge { .. } => Code::InvalidArgument,
        Error::InvalidArgument(_) => Code::InvalidArgument,
    }
}

/// `r` is an `InvalidArgument` status with message `m`.
pub open spec fn refused<T>(r: Result<T, Status>, m: Seq<char>) -> bool {
    r matches Err(s) && s.code == Code::InvalidArgument && s.message@ == m
}

/// The status that reports an error: its code by the error's kind, its
/// message the error's message.
pub fn error_to_status(err: Error) -> (s: Status)
    ensures
        s.code == status_code_of(err),
        describes(err, s.message@),
{
    let message = err.message();
    let code = match err {
        Error::WrongExpectedVersion { .. } => Code::FailedPrecondition,
        Error::StreamNotFound { .. } => Code::NotFound,
        Error::Io(_) => Code::Internal,
        Error::CorruptRecord { .. } => Code::DataLoss,
        Error::InvalidHeader(_) => Code::DataLoss,
        Error::EventTooLarge { .. } => Code::InvalidArgument,
        Error::InvalidArgument(_) => Code::InvalidArgument,
    };
    Status { code, message }
}

/// The message that refuses field `field` holding `text`, which is no UUID.
pub open spec fn invalid_field_message(field: Seq<char>, text: Seq<char>) -> Seq<char> {
    "invalid "@ + field + ": "@ + uuid_parse_error(text)
}

/// Parses UUID text from a request field; a text that is no UUID is refused
/// with `InvalidArgument` naming the field and the parse error.
pub fn parse_uuid(s: &str, field_name: &str) -> (r: Result<u128, Status>)
    ensures
        match uuid_parse(s@) {
            Some(v) => r matches Ok(x) && x == v,
            None => refused(r, invalid_field_message(field_name@, s@)),
        },
{
    match uuid_from_str(s) {
        Ok(v) => Ok(v),
        Err(e) => {
            let mut m = String::from_str("invalid ");
            m.append(field_name);
            m.append(": ");
            m.append(e.as_str());
            Err(Status::invalid_argument(m))
        },
    }
}

/// The expected-version check that a request field asks for.
pub open spec fn spec_expected_version(ev: Option<proto::ExpectedVersion>) -> Result<
    ExpectedVersion,
    Seq<char>,
> {
    match ev {
        None => Err("expected_version is required"@),
        Some(p) => match p.kind {
            Some(proto::expected_version::Kind::Any(_)) => Ok(ExpectedVersion::Any),
            Some(proto::expected_version::Kind::NoStream(_)) => Ok(ExpectedVersion::NoStream),
            Some(proto::expected_version::Kind::Exact(v)) => Ok(ExpectedVersion::Exact(v)),
            None => Err("expected_version.kind is required"@),
        },
    }
}

/// Converts the expected-version field of a request; a missing field or a
/// missing kind is refused with `InvalidArgument`.
pub fn proto_to_expected_version(ev: Option<proto::ExpectedVersion>) -> (r: Result<
    ExpectedVersion,
    Status,
>)
    ensures
        match spec_expected_version(ev) {
            Ok(v) => r matches Ok(x) && x == v,
            Err(m) => refused(r, m),
        },
{
    match ev {
        None => Err(Status::invalid_argument(String::from_str("expected_version is required"))),
        Some(p) => match p.kind {
            Some(proto::expected_version::Kind::Any(_)) => Ok(ExpectedVersion::Any),
            Some(proto::expected_version::Kind::NoStream(_)) => Ok(ExpectedVersion::NoStream),
            Some(proto::expected_version::Kind::Exact(v)) => Ok(ExpectedVersion::Exact(v)),
            None => Err(
                Status::invalid_argument(String::from_str("expected_version.kind is required")),
            ),
        },
    }
}

/// `p` is the protocol form of the recorded event `e`.
pub open spec fn proto_of_recorded(e: RecordedEventView, p: proto::RecordedEvent) -> bool {
    &&& p.event_id@ == uuid_hyphenated(e.event_id)
    &&& p.stream_id@ == uuid_hyphenated(e.stream_id)
    &&& p.stream_version == e.stream_version
    &&& p.global_position == e.global_position
    &&& p.event_type@ == e.event_type
    &&& p.metadata@ == e.metadata
    &&& p.payload@ == e.payload
    &&& p.recorded_at == e.recorded_at
}

/// The protocol form of a recorded event: identifiers as hyphenated UUID text.
pub fn recorded_to_proto(e: &RecordedEvent) -> (p: proto::RecordedEvent)
    ensures
        proto_of_recorded(e@, p),
{
    proto::RecordedEvent {
        event_id: uuid_to_string(e.event_id),
        stream_id: uuid_to_string(e.stream_id),
        stream_version: e.stream_version,
        global_position: e.global_position,
        event_type: e.event_type.clone(),
        metadata: e.metadata.clone(),
        payload: e.payload.clone(),
        recorded_at: e.recorded_at,
    }
}

/// The protocol forms of a sequence of recorded events, in order.
pub fn events_to_proto(events: &Vec<RecordedEvent>) -> (r: Vec<proto::RecordedEvent>)
    ensures
        r@.len() == events@.len(),
        forall|i: int| 0 <= i < r@.len() ==> proto_of_recorded(events@[i]@, #[trigger] r@[i]),
{
    let mut out: Vec<proto::RecordedEvent> = Vec::new();
    let mut i: usize = 0;
    while i < events.len()
        invariant
            0 <= i <= events@.len(),
            out@.len() == i,
            forall|k: int| 0 <= k < i ==> proto_of_recorded(events@[k]@, #[trigger] out@[k]),
        decreases events@.len() - i,
    {
        let p = recorded_to_proto(&events[i]);
        out.push(p);
        i = i + 1;
    }
    out
}

/// The proposed event that the protocol event `p` carries, once its id is read as `id`.
pub open spec fn proposed_of_proto(p: proto::ProposedEvent, id: u128) -> ProposedEventView {
    ProposedEventView {
        event_id: id,
        event_type: p.event_type@,
        metadata: p.metadata@,
        payload: p.payload@,
    }
}

/// Converts a protocol event to a proposed event; an event id that is no
/// UUID is refused with `InvalidArgument`.
pub fn proto_to_proposed_event(p: proto::ProposedEvent) -> (r: Result<ProposedEvent, Status>)
    ensures
        match uuid_parse(p.event_id@) {
            Some(id) => r matches Ok(e) && e@ == proposed_of_proto(p, id),
            None => refused(r, invalid_field_message("event_id"@, p.event_id@)),
        },
{
    let event_id = match parse_uuid(p.event_id.as_str(), "event_id") {
        Ok(v) => v,
        Err(s) => return Err(s),
    };
    Ok(ProposedEvent {
        event_id,
        event_type: p.event_type,
        metadata: p.metadata,
        payload: p.payload,
    })
}

/// Every protocol event of `ps` has a UUID id, and `es` holds them converted.
pub open spec fn all_converted(ps: Seq<proto::ProposedEvent>, es: Seq<ProposedEventView>) -> bool {
    &&& es.len() == ps.len()
    &&& forall|i: int|
        #![trigger ps[i]]
        0 <= i < ps.len() ==> uuid_parse(ps[i].event_id@) is Some && es[i] == proposed_of_proto(
            ps[i],
            uuid_parse(ps[i].event_id@).unwrap(),
        )
}

/// `i` is the first protocol event of `ps` whose id is no UUID.
pub open spec fn first_bad_id(ps: Seq<proto::ProposedEvent>, i: int) -> bool {
    &&& 0 <= i < ps.len()
    &&& uuid_parse(ps[i].event_id@) is None
    &&& forall|j: int| 0 <= j < i ==> uuid_parse(#[trigger] ps[j].event_id@) is Some
}

/// A validated append request: the stream, the check and the events.
#[derive(Debug)]
pub struct AppendParts {
    /// The target stream.
    pub stream_id: u128,
    /// The optimistic concurrency check.
    pub expected_version: ExpectedVersion,
    /// The events to append, in order.
    pub events: Vec<ProposedEvent>,
}

/// Validates an append request, in this order: the stream id must be a
/// UUID, the expected version must be given, the events must not be empty,
/// and each event id must be a UUID (the first that is not is reported).
pub fn parse_append_request(req: proto::AppendRequest) -> (r: Result<AppendParts, Status>)
    ensures
        ({
            let ps = req.events@;
            match uuid_parse(req.stream_id@) {
                None => refused(r, invalid_field_message("stream_id"@, req.stream_id@)),
                Some(sid) => match spec_expected_version(req.expected_version) {
                    Err(m) => refused(r, m),
                    Ok(ev) => if ps.len() == 0 {
                        refused(r, "events must not be empty"@)
                    } else {
                        match r {
                            Ok(parts) => {
                                &&& parts.stream_id == sid
                                &&& parts.expected_version == ev
                                &&& all_converted(ps, parts.events@.map_values(|e: ProposedEvent| e@))
                            },
                            Err(s) => exists|i: int|
                                first_bad_id(ps, i) && s.code == Code::InvalidArgument
                                    && s.message@ == invalid_field_message(
                                    "event_id"@,
                                    #[trigger] ps[i].event_id@,
                                ),
                        }
                    },
                },
            }
        }),
{
    let stream_id = match parse_uuid(req.stream_id.as_str(), "stream_id") {
        Ok(v) => v,
        Err(s) => return Err(s),
    };
    let expected_version = match proto_to_expected_version(req.expected_version) {
        Ok(v) => v,
        Err(s) => return Err(s),
    };
    if req.events.len() == 0 {
        return Err(Status::invalid_argument(String::from_str("events must not be empty")));
    }
    let ghost ps = req.events@;
    let mut events: Vec<ProposedEvent> = Vec::new();
    let mut i: usize = 0;
    while i < req.events.len()
        invariant
            0 <= i <= ps.len(),
            ps == req.events@,
            ps.len() > 0,
            uuid_parse(req.stream_id@) == Some(stream_id),
            spec_expected_version(req.expected_version) == Ok::<ExpectedVersion, Seq<char>>(
                expected_version,
            ),
            all_converted(ps.take(i as int), events@.map_values(|e: ProposedEvent| e@)),
        decreases ps.len() - i,
    {
        let src = &req.events[i];
        let p = proto::ProposedEvent {
            event_id: src.event_id.clone(),
            event_type: src.event_type.clone(),
            metadata: src.metadata.clone(),
            payload: src.payload.clone(),
        };
        assert(p.event_id@ == ps[i as int].event_id@);
        match proto_to_proposed_event(p) {
            Ok(e) => {
                proof {
                    let before = events@.map_values(|x: ProposedEvent| x@);
                    assert(events@.push(e).map_values(|x: ProposedEvent| x@) =~= before.push(e@));
                    assert(ps.take(i + 1) =~= ps.take(i as int).push(ps[i as int]));
                    assert forall|k: int| 0 <= k < i implies #[trigger] ps.take(i as int)[k]
                        == ps.take(i + 1)[k] by {}
                }
                events.push(e);
            },
            Err(s) => {
                proof {
                    assert forall|j: int| 0 <= j < i implies uuid_parse(
                        #[trigger] ps[j].event_id@,
                    ) is Some by {
                        assert(ps.take(i as int)[j] == ps[j]);
                    }
                    assert(first_bad_id(ps, i as int));
                    assert(s.code == Code::InvalidArgument && s.message@ == invalid_field_message(
                        "event_id"@,
                        ps[i as int].event_id@,
                    ));
                }
                return Err(s);
            },
        }
        i = i + 1;
    }
    assert(ps.take(ps.len() as int) =~= ps);
    Ok(AppendParts { stream_id, expected_version, events })
}

/// The positions an append reports: those of its first and last events.
pub fn append_response(recorded: &Vec<RecordedEvent>) -> (r: proto::AppendResponse)
    requires
        recorded@.len() > 0,
    ensures
        r.first_stream_version == recorded@[0].stream_version,
        r.last_stream_version == recorded@.last().stream_version,
        r.first_global_position == recorded@[0].global_position,
        r.last_global_position == recorded@.last().global_position,
{
    let first = &recorded[0];
    let last = &recorded[recorded.len() - 1];
    proto::AppendResponse {
        first_stream_version: first.stream_version,
        last_stream_version: last.stream_version,
        first_global_position: first.global_position,
        last_global_position: last.global_position,
    }
}

/// The protocol form of a subscription message.
pub fn subscription_to_proto(msg: &SubscriptionMessage) -> (r: proto::SubscribeResponse)
    ensures
        match msg {
            SubscriptionMessage::Event(e) => r.content matches Some(
                proto::subscribe_response::Content::Event(p),
            ) && proto_of_recorded((**e)@, p),
            SubscriptionMessage::CaughtUp => r.content matches Some(
                proto::subscribe_response::Content::CaughtUp(_),
            ),
        },
{
    match msg {
        SubscriptionMessage::Event(e) => proto::SubscribeResponse {
            content: Some(proto::subscribe_response::Content::Event(recorded_to_proto(&**e))),
        },
        SubscriptionMessage::CaughtUp => proto::SubscribeResponse {
            content: Some(proto::subscribe_response::Content::CaughtUp(proto::Empty {})),
        },
    }
}

/// The protocol form of a stream summary.
pub fn stream_info_to_proto(info: &StreamInfo) -> (r: proto::StreamInfo)
    ensures
        r.stream_id@ == uuid_hyphenated(info.stream_id),
        r.event_count == info.event_count,
        r.latest_version == info.latest_version,
{
    proto::StreamInfo {
        stream_id: uuid_to_string(info.stream_id),
        event_count: info.event_count,
        latest_version: info.latest_version,
    }
}

} // verus!
