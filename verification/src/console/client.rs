//! Messages between the subscription task and the render loop, and the
//! conversion of protocol events to what the console shows.

use vstd::prelude::*;
use vstd::string::*;

use crate::console::app::EventRecord;
use crate::proto;

verus! {

/// A message from the live subscription task to the render loop.
#[derive(Debug)]
pub enum SubscriptionMsg {
    /// A live event.
    Event(EventRecord),
    /// The subscription has caught up with the log.
    CaughtUp,
    /// The subscription failed; the text of the error.
    Error(String),
}

/// The console's form of a protocol event: the same fields, without the
/// recording time.
pub fn proto_to_event_record(p: proto::RecordedEvent) -> (r: EventRecord)
    ensures
        r.event_id@ == p.event_id@,
        r.stream_id@ == p.stream_id@,
        r.stream_version == p.stream_version,
        r.global_position == p.global_position,
        r.event_type@ == p.event_type@,
        r.metadata@ == p.metadata@,
        r.payload@ == p.payload@,
{
    EventRecord {
        event_id: p.event_id,
        stream_id: p.stream_id,
        stream_version: p.stream_version,
        global_position: p.global_position,
        event_type: p.event_type,
        metadata: p.metadata,
        payload: p.payload,
    }
}

/// The message that refuses a client certificate without its key, or a key
/// without its certificate, naming the flag that is missing.
pub open spec fn tls_pair_message(missing: Seq<char>) -> Seq<char> {
    "error: --tls-client-cert and --tls-client-key must be provided together; missing "@ + missing
}

/// Checks that the client certificate and key flags come together: `None`
/// when both or neither are given, else the message naming the missing one.
pub fn tls_flags_error(has_cert: bool, has_key: bool) -> (r: Option<String>)
    ensures
        has_cert == has_key ==> r is None,
        has_cert && !has_key ==> (r matches Some(m) && m@ == tls_pair_message("--tls-client-key"@)),
        !has_cert && has_key ==> (r matches Some(m) && m@ == tls_pair_message("--tls-client-cert"@)),
{
    if has_cert == has_key {
        return None;
    }
    let mut m = String::from_str(
        "error: --tls-client-cert and --tls-client-key must be provided together; missing ",
    );
    if has_cert {
        m.append("--tls-client-key");
    } else {
        m.append("--tls-client-cert");
    }
    Some(m)
}

} // verus!
