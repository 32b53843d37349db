//! Core domain types: proposed and recorded events, expected-version
//! semantics for optimistic concurrency, and the size limits.
//!
//! Identifiers (event and stream UUIDs) are held as their 128-bit value;
//! opaque byte buffers are held as `Vec<u8>`.

use std::sync::Arc;
use vstd::prelude::*;

verus! {

/// Maximum size of a single encoded event record in bytes.
pub const MAX_EVENT_SIZE: usize = 65536;

/// Maximum length of an event type tag in bytes.
pub const MAX_EVENT_TYPE_LEN: usize = 256;

/// Controls optimistic concurrency on append.
#[derive(Debug, Clone, Copy, PartialEq, Eq, Structural)]
pub enum ExpectedVersion {
    /// No concurrency check: the append succeeds whatever the stream state.
    Any,
    /// The stream must not exist yet.
    NoStream,
    /// The stream must be at exactly this (zero-based) version.
    Exact(u64),
}

/// An event a client wants to append to a stream.
#[derive(Debug, Clone, PartialEq)]
pub struct ProposedEvent {
    /// Client-assigned unique ID (the UUID's 128-bit value).
    pub event_id: u128,
    /// Event type tag (UTF-8, at most `MAX_EVENT_TYPE_LEN` bytes).
    pub event_type: String,
    /// Opaque infrastructure context.
    pub metadata: Vec<u8>,
    /// Opaque domain event body.
    pub payload: Vec<u8>,
}

/// Mathematical model of a proposed event.
pub struct ProposedEventView {
    pub event_id: u128,
    pub event_type: Seq<char>,
    pub metadata: Seq<u8>,
    pub payload: Seq<u8>,
}

impl View for ProposedEvent {
    type V = ProposedEventView;

    open spec fn view(&self) -> ProposedEventView {
        ProposedEventView {
            event_id: self.event_id,
            event_type: self.event_type@,
            metadata: self.metadata@,
            payload: self.payload@,
        }
    }
}

/// A persisted event with server-assigned positions.
#[derive(Debug, Clone, PartialEq)]
pub struct RecordedEvent {
    /// Client-assigned unique ID.
    pub event_id: u128,
    /// Stream this event belongs to.
    pub stream_id: u128,
    /// Zero-based version within the stream.
    pub stream_version: u64,
    /// Zero-based position in the global log.
    pub global_position: u64,
    /// Milliseconds since the Unix epoch at which the writer recorded the event.
    pub recorded_at: u64,
    /// Event type tag.
    pub event_type: String,
    /// Opaque metadata bytes.
    pub metadata: Vec<u8>,
    /// Opaque payload bytes.
    pub payload: Vec<u8>,
}

/// Mathematical model of a recorded event.
pub struct RecordedEventView {
    pub event_id: u128,
    pub stream_id: u128,
    pub stream_version: u64,
    pub global_position: u64,
    pub recorded_at: u64,
    pub event_type: Seq<char>,
    pub metadata: Seq<u8>,
    pub payload: Seq<u8>,
}

impl View for RecordedEvent {
    type V = RecordedEventView;

    open spec fn view(&self) -> RecordedEventView {
        RecordedEventView {
            event_id: self.event_id,
            stream_id: self.stream_id,
            stream_version: self.stream_version,
            global_position: self.global_position,
            recorded_at: self.recorded_at,
            event_type: self.event_type@,
            metadata: self.metadata@,
            payload: self.payload@,
        }
    }
}

/// The models of a sequence of recorded events.
pub open spec fn events_view(events: Seq<RecordedEvent>) -> Seq<RecordedEventView> {
    events.map_values(|e: RecordedEvent| e@)
}

/// Pushing an event pushes its model.
pub proof fn lemma_events_view_push(s: Seq<RecordedEvent>, e: RecordedEvent)
    ensures
        events_view(s.push(e)) == events_view(s).push(e@),
{
    assert(events_view(s.push(e)) =~= events_view(s).push(e@));
}

impl RecordedEvent {
    /// A field-by-field copy of this event.
    pub fn duplicate(&self) -> (r: RecordedEvent)
        ensures
            r@ == self@,
    {
        RecordedEvent {
            event_id: self.event_id,
            stream_id: self.stream_id,
            stream_version: self.stream_version,
            global_position: self.global_position,
            recorded_at: self.recorded_at,
            event_type: self.event_type.clone(),
            metadata: self.metadata.clone(),
            payload: self.payload.clone(),
        }
    }
}

impl ProposedEvent {
    /// A field-by-field copy of this event.
    pub fn duplicate(&self) -> (r: ProposedEvent)
        ensures
            r@ == self@,
    {
        ProposedEvent {
            event_id: self.event_id,
            event_type: self.event_type.clone(),
            metadata: self.metadata.clone(),
            payload: self.payload.clone(),
        }
    }
}

/// Summary of one stream: how many events it holds and its latest version.
#[derive(Debug, Clone, Copy, PartialEq, Eq, Structural)]
pub struct StreamInfo {
    /// The stream's UUID value.
    pub stream_id: u128,
    /// Number of events in the stream.
    pub event_count: u64,
    /// Zero-based version of the stream's last event.
    pub latest_version: u64,
}

/// A message yielded by a subscription.
#[derive(Debug, Clone)]
pub enum SubscriptionMessage {
    /// A recorded event, shared between subscribers.
    Event(Arc<RecordedEvent>),
    /// The catch-up phase is over; what follows is live.
    CaughtUp,
}

} // verus!
