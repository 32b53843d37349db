//! EventfoldDB: a lightweight, single-node event store for event sourcing and CQRS.
//!
//! The library holds the verified core of the store: the domain types, the
//! on-disk record format, the in-memory index with its append and read
//! operations, crash recovery, the idempotency cache, the subscription
//! filters, the protocol conversions and the console's state machine.

pub mod append;
pub mod broker;
pub mod codec;
pub mod dedup;
pub mod console;
pub mod crc;
pub mod error;
pub mod ids;
pub mod lex;
pub mod log;
pub mod metrics;
pub mod proto;
pub mod recovery;
pub mod service;
pub mod text;
pub mod types;
pub mod writer;

pub use codec::DecodeOutcome;
pub use error::Error;
pub use types::{
    ExpectedVersion, ProposedEvent, RecordedEvent, StreamInfo, SubscriptionMessage,
    MAX_EVENT_SIZE, MAX_EVENT_TYPE_LEN,
};
