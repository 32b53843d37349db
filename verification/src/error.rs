//! The unified error type of the store.

use vstd::prelude::*;
use vstd::string::*;

use crate::ids::{uuid_hyphenated, uuid_to_string};
use crate::text::{decimal, u64_decimal, usize_decimal};

verus! {

/// An I/O failure reported by the operating system; carried, never inspected.
#[verifier::external_type_specification]
#[verifier::external_body]
pub struct ExIoError(std::io::Error);

/// Unified error type for all EventfoldDB operations.
#[derive(Debug)]
pub enum Error {
    /// The stream's current version does not match the caller's expectation.
    WrongExpectedVersion {
        /// The version the caller expected the stream to be at.
        expected: String,
        /// The version the stream is actually at.
        actual: String,
    },
    /// The requested stream does not exist.
    StreamNotFound {
        /// UUID value of the stream that was not found.
        stream_id: u128,
    },
    /// An I/O error occurred during a file operation.
    Io(std::io::Error),
    /// A record on disk is corrupt or inconsistent.
    CorruptRecord {
        /// Global position of the corrupt record.
        position: u64,
        /// Human-readable description of the corruption.
        detail: String,
    },
    /// The file header is invalid or unrecognized.
    InvalidHeader(String),
    /// The event exceeds the maximum allowed size.
    EventTooLarge {
        /// Actual encoded size of the event in bytes.
        size: usize,
        /// Maximum allowed size in bytes.
        max: usize,
    },
    /// A request argument is invalid.
    InvalidArgument(String),
}

/// `m` is the message of error `e`. An I/O error's message carries the
/// operating system's description after its prefix.
pub open spec fn describes(e: Error, m: Seq<char>) -> bool {
    match e {
        Error::WrongExpectedVersion { expected, actual } => m == "wrong expected version: expected "@
            + expected@ + ", actual "@ + actual@,
        Error::StreamNotFound { stream_id } => m == "stream not found: "@ + uuid_hyphenated(
            stream_id,
        ),
        Error::Io(_) => "I/O error: "@.is_prefix_of(m),
        Error::CorruptRecord { position, detail } => m == "corrupt record at position "@ + decimal(
            position as nat,
        ) + ": "@ + detail@,
        Error::InvalidHeader(detail) => m == "invalid file header: "@ + detail@,
        Error::EventTooLarge { size, max } => m == "event too large: "@ + decimal(size as nat)
            + " bytes exceeds "@ + decimal(max as nat) + " byte limit"@,
        Error::InvalidArgument(detail) => m == "invalid argument: "@ + detail@,
    }
}

/// Calls `to_string` on an I/O error: the operating system's description.
#[verifier::external_body]
fn io_error_text(e: &std::io::Error) -> String {
    e.to_string()
}

impl Error {
    /// The human-readable message of the error.
    pub fn message(&self) -> (r: String)
        ensures
            describes(*self, r@),
    {
        match self {
            Error::WrongExpectedVersion { expected, actual } => {
                let mut m = String::from_str("wrong expected version: expected ");
                m.append(expected.as_str());
                m.append(", actual ");
                m.append(actual.as_str());
                m
            },
            Error::StreamNotFound { stream_id } => {
                let mut m = String::from_str("stream not found: ");
                m.append(uuid_to_string(*stream_id).as_str());
                m
            },
            Error::Io(e) => {
                let mut m = String::from_str("I/O error: ");
                let ghost prefix = m@;
                m.append(io_error_text(e).as_str());
                assert(m@.subrange(0, prefix.len() as int) =~= prefix);
                m
            },
            Error::CorruptRecord { position, detail } => {
                let mut m = String::from_str("corrupt record at position ");
                m.append(u64_decimal(*position).as_str());
                m.append(": ");
                m.append(detail.as_str());
                m
            },
            Error::InvalidHeader(detail) => {
                let mut m = String::from_str("invalid file header: ");
                m.append(detail.as_str());
                m
            },
            Error::EventTooLarge { size, max } => {
                let mut m = String::from_str("event too large: ");
                m.append(usize_decimal(*size).as_str());
                m.append(" bytes exceeds ");
                m.append(usize_decimal(*max).as_str());
                m.append(" byte limit");
                m
            },
            Error::InvalidArgument(detail) => {
                let mut m = String::from_str("invalid argument: ");
                m.append(detail.as_str());
                m
            },
        }
    }
}

} // verus!
