//! The messages of the gRPC protocol, as plain values.
//!
//! Identifiers travel as UUID text, byte buffers as `Vec<u8>`. The service
//! layer converts them to and from the domain types.

use vstd::prelude::*;

pub mod expected_version;
pub mod subscribe_response;

verus! {

/// The empty message.
#[derive(Debug, Clone, Copy, PartialEq, Eq, Default)]
pub struct Empty {}

/// Optimistic concurrency check of an append request.
#[derive(Debug, Clone, Copy, PartialEq, Eq, Default)]
pub struct ExpectedVersion {
    /// Which check; required.
    pub kind: Option<expected_version::Kind>,
}

/// An event proposed by a client.
#[derive(Debug, Clone, PartialEq, Eq, Default)]
pub struct ProposedEvent {
    /// Client-assigned UUID, as text.
    pub event_id: String,
    /// Event type tag.
    pub event_type: String,
    /// Opaque metadata.
    pub metadata: Vec<u8>,
    /// Opaque payload.
    pub payload: Vec<u8>,
}

/// A recorded event as sent to clients.
#[derive(Debug, Clone, PartialEq, Eq, Default)]
pub struct RecordedEvent {
    /// Event UUID, as text.
    pub event_id: String,
    /// Stream UUID, as text.
    pub stream_id: String,
    /// Zero-based version within the stream.
    pub stream_version: u64,
    /// Zero-based position in the global log.
    pub global_position: u64,
    /// Event type tag.
    pub event_type: String,
    /// Opaque metadata.
    pub metadata: Vec<u8>,
    /// Opaque payload.
    pub payload: Vec<u8>,
    /// Milliseconds since the Unix epoch at which the event was recorded.
    pub recorded_at: u64,
}

/// Request to append events to a stream.
#[derive(Debug, Clone, PartialEq, Eq, Default)]
pub struct AppendRequest {
    /// Target stream UUID, as text.
    pub stream_id: String,
    /// Optimistic concurrency check; required.
    pub expected_version: Option<ExpectedVersion>,
    /// Events to append; must not be empty.
    pub events: Vec<ProposedEvent>,
}

/// Positions assigned by a successful append.
#[derive(Debug, Clone, Copy, PartialEq, Eq, Default)]
pub struct AppendResponse {
    /// Stream version of the first appended event.
    pub first_stream_version: u64,
    /// Stream version of the last appended event.
    pub last_stream_version: u64,
    /// Global position of the first appended event.
    pub first_global_position: u64,
    /// Global position of the last appended event.
    pub last_global_position: u64,
}

/// Request to read a range of one stream.
#[derive(Debug, Clone, PartialEq, Eq, Default)]
pub struct ReadStreamRequest {
    /// Stream UUID, as text.
    pub stream_id: String,
    /// First stream version to read.
    pub from_version: u64,
    /// Maximum number of events to return.
    pub max_count: u64,
}

/// Events of one stream.
#[derive(Debug, Clone, PartialEq, Eq, Default)]
pub struct ReadStreamResponse {
    /// The events read, in version order.
    pub events: Vec<RecordedEvent>,
}

/// Request to read a range of the global log.
#[derive(Debug, Clone, Copy, PartialEq, Eq, Default)]
pub struct ReadAllRequest {
    /// First global position to read.
    pub from_position: u64,
    /// Maximum number of events to return.
    pub max_count: u64,
}

/// Events of the global log.
#[derive(Debug, Clone, PartialEq, Eq, Default)]
pub struct ReadAllResponse {
    /// The events read, in position order.
    pub events: Vec<RecordedEvent>,
}

/// Request to subscribe to the global log.
#[derive(Debug, Clone, Copy, PartialEq, Eq, Default)]
pub struct SubscribeAllRequest {
    /// Global position where the catch-up replay starts.
    pub from_position: u64,
}

/// Request to subscribe to one stream.
#[derive(Debug, Clone, PartialEq, Eq, Default)]
pub struct SubscribeStreamRequest {
    /// Stream UUID, as text.
    pub stream_id: String,
    /// Stream version where the catch-up replay starts.
    pub from_version: u64,
}

/// One message of a subscription.
#[derive(Debug, Clone, PartialEq, Eq, Default)]
pub struct SubscribeResponse {
    /// An event or the end-of-catch-up marker.
    pub content: Option<subscribe_response::Content>,
}

/// Summary of one stream.
#[derive(Debug, Clone, PartialEq, Eq, Default)]
pub struct StreamInfo {
    /// Stream UUID, as text.
    pub stream_id: String,
    /// Number of events in the stream.
    pub event_count: u64,
    /// Zero-based version of the stream's last event.
    pub latest_version: u64,
}

/// Request to list the streams.
#[derive(Debug, Clone, Copy, PartialEq, Eq, Default)]
pub struct ListStreamsRequest {}

/// The streams of the store.
#[derive(Debug, Clone, PartialEq, Eq, Default)]
pub struct ListStreamsResponse {
    /// One summary per stream.
    pub streams: Vec<StreamInfo>,
}

} // verus!
