//! Appending to the log: the optimistic concurrency check, the validation
//! of proposed events, the encoding of the batch envelope that goes to disk,
//! and the update of the in-memory index once the batch is durable.

use vstd::prelude::*;
use vstd::string::*;
use vstd::utf8::*;

use crate::codec::{
    encode_batch_footer, encode_batch_header, encode_record, record_encodable,
    spec_encode_batch_footer, spec_encode_batch_header, spec_encode_record, RECORD_OVERHEAD,
    append_bytes,
};
use crate::crc::{crc32, crc32_of};
use crate::error::Error;
use crate::log::{
    log_wf, min_int, spec_read_all, spec_read_stream, spec_stream_version, stream_len, EventLog,
    EventLogView,
};
use crate::text::{decimal, u64_decimal, usize_decimal};
use crate::types::{
    events_view, lemma_events_view_push, ExpectedVersion, ProposedEvent, ProposedEventView,
    RecordedEvent, RecordedEventView, MAX_EVENT_SIZE, MAX_EVENT_TYPE_LEN,
};

verus! {

broadcast use vstd::std_specs::hash::group_hash_axioms;

// ---------------------------------------------------------------------------
// Specification
// ---------------------------------------------------------------------------

/// Why an expected-version check fails: the rendered expected and actual
/// versions, or `None` when the check passes.
pub open spec fn expected_version_mismatch(
    l: EventLogView,
    s: u128,
    ev: ExpectedVersion,
) -> Option<(Seq<char>, Seq<char>)> {
    match ev {
        ExpectedVersion::Any => None,
        ExpectedVersion::NoStream => if l.streams.contains_key(s) {
            Some(("NoStream"@, decimal((l.streams[s].len() - 1) as nat)))
        } else {
            None
        },
        ExpectedVersion::Exact(n) => if !l.streams.contains_key(s) {
            Some((decimal(n as nat), "NoStream"@))
        } else if l.streams[s].len() - 1 != n {
            Some((decimal(n as nat), decimal((l.streams[s].len() - 1) as nat)))
        } else {
            None
        },
    }
}

/// Why a proposed event is refused.
pub enum Rejection {
    /// The event type is empty.
    EmptyType,
    /// The event type is longer than `MAX_EVENT_TYPE_LEN` bytes (its length).
    TypeTooLong(nat),
    /// The encoded record is larger than `MAX_EVENT_SIZE` bytes (its size).
    TooLarge(nat),
}

/// Length in bytes of the event type of `p`.
pub open spec fn type_len(p: ProposedEventView) -> nat {
    encode_utf8(p.event_type).len()
}

/// Size of the record that `p` encodes to.
pub open spec fn proposed_record_len(p: ProposedEventView) -> nat {
    (RECORD_OVERHEAD + type_len(p) + p.metadata.len() + p.payload.len()) as nat
}

/// Why `p` is refused, or `None` when it may be appended.
pub open spec fn rejection(p: ProposedEventView) -> Option<Rejection> {
    if type_len(p) == 0 {
        Some(Rejection::EmptyType)
    } else if type_len(p) > MAX_EVENT_TYPE_LEN {
        Some(Rejection::TypeTooLong(type_len(p)))
    } else if proposed_record_len(p) > MAX_EVENT_SIZE {
        Some(Rejection::TooLarge(proposed_record_len(p)))
    } else {
        None
    }
}

/// Every proposed event may be appended.
pub open spec fn all_acceptable(ps: Seq<ProposedEventView>) -> bool {
    forall|i: int| 0 <= i < ps.len() ==> #[trigger] rejection(ps[i]) is None
}

/// `i` is the first refused event of `ps`.
pub open spec fn first_rejected(ps: Seq<ProposedEventView>, i: int) -> bool {
    &&& 0 <= i < ps.len()
    &&& rejection(ps[i]) is Some
    &&& forall|j: int| 0 <= j < i ==> #[trigger] rejection(ps[j]) is None
}

/// `n` as a `usize`, or `usize::MAX` when it does not fit.
pub open spec fn saturate_usize(n: nat) -> usize {
    if n <= usize::MAX {
        n as usize
    } else {
        usize::MAX
    }
}

/// The error that reports rejection `why`.
pub open spec fn rejection_error(why: Rejection, e: Error) -> bool {
    match why {
        Rejection::EmptyType => e matches Error::InvalidArgument(m) && m@
            == "event type must not be empty"@,
        Rejection::TypeTooLong(n) => e matches Error::InvalidArgument(m) && m@
            == "event type exceeds 256 byte limit: "@ + decimal(n) + " bytes"@,
        Rejection::TooLarge(n) => e matches Error::EventTooLarge { size, max } && size
            == saturate_usize(n) && max == MAX_EVENT_SIZE,
    }
}

/// The events that appending `ps` to stream `s` records.
pub open spec fn spec_recorded(
    l: EventLogView,
    s: u128,
    recorded_at: u64,
    ps: Seq<ProposedEventView>,
) -> Seq<RecordedEventView> {
    Seq::new(
        ps.len(),
        |i: int|
            RecordedEventView {
                event_id: ps[i].event_id,
                stream_id: s,
                stream_version: (stream_len(l, s) + i) as u64,
                global_position: (l.events.len() + i) as u64,
                recorded_at,
                event_type: ps[i].event_type,
                metadata: ps[i].metadata,
                payload: ps[i].payload,
            },
    )
}

/// The records of `rs`, encoded one after the other.
pub open spec fn encode_records(rs: Seq<RecordedEventView>) -> Seq<u8>
    decreases rs.len(),
{
    if rs.len() == 0 {
        Seq::empty()
    } else {
        encode_records(rs.drop_last()) + spec_encode_record(rs.last())
    }
}

/// Batch header followed by the records.
pub open spec fn batch_body(first: u64, rs: Seq<RecordedEventView>) -> Seq<u8> {
    spec_encode_batch_header(rs.len() as u32, first) + encode_records(rs)
}

/// The batch envelope of `rs`: header, records, footer with the CRC of both.
pub open spec fn spec_encode_batch(first: u64, rs: Seq<RecordedEventView>) -> Seq<u8> {
    batch_body(first, rs) + spec_encode_batch_footer(crc32_of(batch_body(first, rs)))
}

/// `rs` continues stream `s` of log `l`: contiguous global positions from
/// the end of the log and contiguous versions from the end of the stream.
pub open spec fn continues(l: EventLogView, s: u128, rs: Seq<RecordedEventView>) -> bool {
    &&& l.events.len() + rs.len() <= u64::MAX
    &&& forall|i: int|
        #![trigger rs[i]]
        0 <= i < rs.len() ==> {
            &&& rs[i].stream_id == s
            &&& rs[i].global_position == l.events.len() + i
            &&& rs[i].stream_version == stream_len(l, s) + i
        }
}

/// The global positions of stream `s` in `l` (empty when it does not exist).
pub open spec fn positions_of(l: EventLogView, s: u128) -> Seq<u64> {
    if l.streams.contains_key(s) {
        l.streams[s]
    } else {
        Seq::empty()
    }
}

/// The log after appending the run `rs` of events of stream `s`.
pub open spec fn append_run(l: EventLogView, s: u128, rs: Seq<RecordedEventView>) -> EventLogView {
    if rs.len() == 0 {
        l
    } else {
        EventLogView {
            events: l.events + rs,
            streams: l.streams.insert(
                s,
                positions_of(l, s) + Seq::new(rs.len(), |i: int| (l.events.len() + i) as u64),
            ),
        }
    }
}

/// What a successful append plans to record and to write.
#[derive(Debug)]
pub struct PreparedAppend {
    /// The events the append records, with their positions.
    pub recorded: Vec<RecordedEvent>,
    /// The batch envelope to write at the end of the log file.
    pub batch: Vec<u8>,
}

/// The models of a sequence of proposed events.
pub open spec fn proposed_view(ps: Seq<ProposedEvent>) -> Seq<ProposedEventView> {
    ps.map_values(|p: ProposedEvent| p@)
}

/// `r` is the outcome of planning to append `ps` to stream `s` of log `l`
/// with expected version `ev` at time `at`: the version check first, then
/// the first refused event, else the events to record and their envelope.
pub open spec fn planned(
    l: EventLogView,
    s: u128,
    ev: ExpectedVersion,
    at: u64,
    ps: Seq<ProposedEventView>,
    r: Result<PreparedAppend, Error>,
) -> bool {
    match r {
        Ok(plan) => {
            &&& expected_version_mismatch(l, s, ev) is None
            &&& all_acceptable(ps)
            &&& events_view(plan.recorded@) == spec_recorded(l, s, at, ps)
            &&& plan.batch@ == spec_encode_batch(l.events.len() as u64, events_view(plan.recorded@))
        },
        Err(e) => match expected_version_mismatch(l, s, ev) {
            Some((expected, actual)) => e matches Error::WrongExpectedVersion {
                expected: x,
                actual: a,
            } && x@ == expected && a@ == actual,
            None => exists|i: int|
                first_rejected(ps, i) && rejection_error(rejection(#[trigger] ps[i]).unwrap(), e),
        },
    }
}

// ---------------------------------------------------------------------------
// Proofs
// ---------------------------------------------------------------------------

/// In a well-formed log every stream holds at most as many events as the log.
pub proof fn lemma_stream_len_bounded(l: EventLogView, s: u128)
    requires
        log_wf(l),
    ensures
        stream_len(l, s) <= l.events.len(),
{
}

/// The recorded events continue the stream they are appended to.
pub proof fn lemma_recorded_continues(
    l: EventLogView,
    s: u128,
    recorded_at: u64,
    ps: Seq<ProposedEventView>,
)
    requires
        log_wf(l),
        l.events.len() + ps.len() <= u64::MAX,
    ensures
        continues(l, s, spec_recorded(l, s, recorded_at, ps)),
        spec_recorded(l, s, recorded_at, ps).len() == ps.len(),
{
    lemma_stream_len_bounded(l, s);
}

/// Appending a run that continues a stream keeps the log well-formed.
pub proof fn lemma_append_run_wf(l: EventLogView, s: u128, rs: Seq<RecordedEventView>)
    requires
        log_wf(l),
        continues(l, s, rs),
    ensures
        log_wf(append_run(l, s, rs)),
{
    if rs.len() > 0 {
        let n = l.events.len();
        let old_pos = positions_of(l, s);
        let m = append_run(l, s, rs);
        let new_pos = old_pos + Seq::new(rs.len(), |i: int| (n + i) as u64);
        assert(m.streams[s] == new_pos);
        assert(old_pos.len() == stream_len(l, s));
        lemma_stream_len_bounded(l, s);
        assert forall|i: int| 0 <= i < m.events.len() implies #[trigger] m.events[i].global_position
            == i by {
            if i >= n {
                assert(m.events[i] == rs[i - n]);
            }
        }
        assert forall|t: u128| #[trigger] m.streams.contains_key(t) implies 0 < m.streams[t].len()
            <= m.events.len() by {
            if t != s {
                assert(l.streams.contains_key(t));
            }
        }
        assert forall|t: u128, j: int|
            m.streams.contains_key(t) && 0 <= j < m.streams[t].len() implies {
            let p = #[trigger] m.streams[t][j] as int;
            &&& 0 <= p < m.events.len()
            &&& m.events[p].stream_id == t
            &&& m.events[p].stream_version == j
        } by {
            if t != s {
                assert(l.streams.contains_key(t));
                assert(m.streams[t][j] == l.streams[t][j]);
            } else if j < old_pos.len() {
                assert(l.streams.contains_key(s));
                assert(m.streams[t][j] == l.streams[s][j]);
            } else {
                let k = j - old_pos.len();
                assert(m.streams[t][j] == (n + k) as u64);
                assert(m.events[n + k] == rs[k]);
            }
        }
        assert forall|i: int| 0 <= i < m.events.len() implies {
            let e = #[trigger] m.events[i];
            &&& m.streams.contains_key(e.stream_id)
            &&& e.stream_version < m.streams[e.stream_id].len()
            &&& m.streams[e.stream_id][e.stream_version as int] == i
        } by {
            if i < n {
                let e = l.events[i];
                assert(m.events[i] == e);
                if e.stream_id == s {
                    assert(l.streams.contains_key(s));
                    assert(new_pos[e.stream_version as int] == old_pos[e.stream_version as int]);
                }
            } else {
                let k = i - n;
                assert(m.events[i] == rs[k]);
                assert(new_pos[old_pos.len() + k] == (n + k) as u64);
            }
        }
    }
}

// ---------------------------------------------------------------------------
// Executable code
// ---------------------------------------------------------------------------

/// The rendering of the stream's current version, for error messages.
fn current_version_text(positions: &Vec<u64>) -> (r: String)
    requires
        positions@.len() > 0,
    ensures
        r@ == decimal((positions@.len() - 1) as nat),
{
    u64_decimal((positions.len() - 1) as u64)
}

/// Encodes `recorded` into a batch envelope starting at global position `first`.
fn encode_batch(first: u64, recorded: &Vec<RecordedEvent>) -> (r: Vec<u8>)
    requires
        recorded@.len() <= u32::MAX,
        forall|i: int| 0 <= i < recorded@.len() ==> record_encodable(#[trigger] recorded@[i]@),
    ensures
        r@ == spec_encode_batch(first, events_view(recorded@)),
{
    let mut body = encode_batch_header(recorded.len() as u32, first);
    let ghost header = body@;
    let mut i: usize = 0;
    while i < recorded.len()
        invariant
            0 <= i <= recorded@.len(),
            recorded@.len() <= u32::MAX,
            forall|k: int| 0 <= k < recorded@.len() ==> record_encodable(#[trigger] recorded@[k]@),
            header == spec_encode_batch_header(recorded@.len() as u32, first),
            body@ == header + encode_records(events_view(recorded@).take(i as int)),
        decreases recorded@.len() - i,
    {
        let rec = encode_record(&recorded[i]);
        proof {
            let rs = events_view(recorded@);
            assert(rs.take(i + 1).drop_last() =~= rs.take(i as int));
            assert(rs.take(i + 1).last() == recorded@[i as int]@);
        }
        let ghost before = body@;
        append_bytes(&mut body, rec.as_slice());
        assert(body@ =~= before + rec@);
        i = i + 1;
    }
    assert(events_view(recorded@).take(recorded@.len() as int) =~= events_view(recorded@));
    let crc = crc32(body.as_slice());
    let footer = encode_batch_footer(crc);
    append_bytes(&mut body, footer.as_slice());
    body
}

impl EventLog {
    /// Plans appending `proposed` to stream `stream_id`.
    ///
    /// Checks `expected_version` against the stream's current state
    /// (`WrongExpectedVersion` on mismatch), then checks each proposed event
    /// in order: its type must be non-empty and at most `MAX_EVENT_TYPE_LEN`
    /// bytes (`InvalidArgument`), its encoded record at most `MAX_EVENT_SIZE`
    /// bytes (`EventTooLarge`). On success returns the events to record, with
    /// consecutive global positions and stream versions and the timestamp
    /// `recorded_at`, and the batch envelope to write. Nothing is changed.
    pub fn prepare_append(
        &self,
        stream_id: u128,
        expected_version: ExpectedVersion,
        recorded_at: u64,
        proposed: &[ProposedEvent],
    ) -> (r: Result<PreparedAppend, Error>)
        requires
            self.wf(),
            self@.events.len() + proposed@.len() <= u64::MAX,
            proposed@.len() <= u32::MAX,
        ensures
            planned(
                self@,
                stream_id,
                expected_version,
                recorded_at,
                proposed_view(proposed@),
                r,
            ),
    {
        let ghost l = self@;
        let ghost ps = proposed@.map_values(|p: ProposedEvent| p@);
        // Step 1: optimistic concurrency check.
        let stream_positions = self.streams.get(&stream_id);
        proof {
            if l.streams.contains_key(stream_id) {
                assert(stream_positions is Some);
                assert(l.streams[stream_id] == stream_positions.unwrap()@);
            }
        }
        match expected_version {
            ExpectedVersion::Any => {},
            ExpectedVersion::NoStream => {
                if let Some(positions) = stream_positions {
                    return Err(
                        Error::WrongExpectedVersion {
                            expected: String::from_str("NoStream"),
                            actual: current_version_text(positions),
                        },
                    );
                }
            },
            ExpectedVersion::Exact(n) => match stream_positions {
                None => {
                    return Err(
                        Error::WrongExpectedVersion {
                            expected: u64_decimal(n),
                            actual: String::from_str("NoStream"),
                        },
                    );
                },
                Some(positions) => {
                    let current = (positions.len() - 1) as u64;
                    if current != n {
                        return Err(
                            Error::WrongExpectedVersion {
                                expected: u64_decimal(n),
                                actual: u64_decimal(current),
                            },
                        );
                    }
                },
            },
        }
        let next_global = self.events.len() as u64;
        let next_version = match stream_positions {
            Some(positions) => positions.len() as u64,
            None => 0,
        };
        proof {
            lemma_stream_len_bounded(l, stream_id);
        }
        // Step 2: validate each proposed event and build the recorded events.
        let mut recorded: Vec<RecordedEvent> = Vec::new();
        let mut i: usize = 0;
        while i < proposed.len()
            invariant
                0 <= i <= proposed@.len(),
                l == self@,
                log_wf(l),
                ps == proposed@.map_values(|p: ProposedEvent| p@),
                l.events.len() + proposed@.len() <= u64::MAX,
                next_global == l.events.len(),
                next_version == stream_len(l, stream_id),
                next_version <= next_global,
                expected_version_mismatch(l, stream_id, expected_version) is None,
                forall|j: int| 0 <= j < i ==> #[trigger] rejection(ps[j]) is None,
                events_view(recorded@) == spec_recorded(l, stream_id, recorded_at, ps).take(
                    i as int,
                ),
                forall|k: int| 0 <= k < recorded@.len() ==> record_encodable(#[trigger] recorded@[k]@),
            decreases proposed@.len() - i,
        {
            let p = &proposed[i];
            assert(ps[i as int] == p@);
            let type_bytes = p.event_type.as_str().as_bytes();
            let tl = type_bytes.len();
            if tl == 0 {
                assert(first_rejected(ps, i as int));
                return Err(Error::InvalidArgument(String::from_str("event type must not be empty")));
            }
            if tl > MAX_EVENT_TYPE_LEN {
                let mut msg = String::from_str("event type exceeds 256 byte limit: ");
                msg.append(usize_decimal(tl).as_str());
                msg.append(" bytes");
                assert(first_rejected(ps, i as int));
                return Err(Error::InvalidArgument(msg));
            }
            let size: u128 = RECORD_OVERHEAD as u128 + tl as u128 + p.metadata.len() as u128
                + p.payload.len() as u128;
            if size > MAX_EVENT_SIZE as u128 {
                let reported = if size <= usize::MAX as u128 {
                    size as usize
                } else {
                    usize::MAX
                };
                assert(first_rejected(ps, i as int));
                return Err(Error::EventTooLarge { size: reported, max: MAX_EVENT_SIZE });
            }
            let event = RecordedEvent {
                event_id: p.event_id,
                stream_id,
                stream_version: next_version + i as u64,
                global_position: next_global + i as u64,
                recorded_at,
                event_type: p.event_type.clone(),
                metadata: p.metadata.clone(),
                payload: p.payload.clone(),
            };
            proof {
                let sr = spec_recorded(l, stream_id, recorded_at, ps);
                assert(event@ == sr[i as int]);
                assert(sr.take(i + 1) =~= sr.take(i as int).push(sr[i as int]));
                lemma_events_view_push(recorded@, event);
            }
            recorded.push(event);
            i = i + 1;
        }
        proof {
            let sr = spec_recorded(l, stream_id, recorded_at, ps);
            assert(sr.take(proposed@.len() as int) =~= sr);
        }
        let batch = encode_batch(next_global, &recorded);
        Ok(PreparedAppend { recorded, batch })
    }

    /// Records, in the index, the events of a batch that is now durable.
    ///
    /// The events must continue stream `stream_id` from the end of the log.
    /// They are pushed to the global log and their positions to the stream's
    /// list (created when the stream is new); an empty batch changes nothing.
    pub fn commit_append(&mut self, stream_id: u128, recorded: &Vec<RecordedEvent>)
        requires
            old(self).wf(),
            continues(old(self)@, stream_id, events_view(recorded@)),
        ensures
            final(self).wf(),
            final(self)@ == append_run(old(self)@, stream_id, events_view(recorded@)),
    {
        let ghost l = self@;
        let ghost rs = events_view(recorded@);
        if recorded.len() == 0 {
            assert(rs.len() == 0);
            return;
        }
        let ghost old_streams = self.streams@;
        let mut positions = match self.streams.remove(&stream_id) {
            Some(p) => p,
            None => Vec::new(),
        };
        assert(self.streams@ == old_streams.remove(stream_id));
        assert(positions@ == positions_of(l, stream_id));
        let mut i: usize = 0;
        while i < recorded.len()
            invariant
                0 <= i <= recorded@.len(),
                rs == events_view(recorded@),
                continues(l, stream_id, rs),
                positions@ == positions_of(l, stream_id) + Seq::new(
                    i as nat,
                    |k: int| (l.events.len() + k) as u64,
                ),
            decreases recorded@.len() - i,
        {
            assert(rs[i as int] == recorded@[i as int]@);
            positions.push(recorded[i].global_position);
            i = i + 1;
            assert(positions@ =~= positions_of(l, stream_id) + Seq::new(
                i as nat,
                |k: int| (l.events.len() + k) as u64,
            ));
        }
        let ghost final_positions = positions;
        self.streams.insert(stream_id, positions);
        assert(self.streams@ == old_streams.remove(stream_id).insert(stream_id, final_positions));
        assert(self@.streams =~= l.streams.insert(stream_id, final_positions@));
        let ghost streams_after = self.streams@;
        let mut j: usize = 0;
        while j < recorded.len()
            invariant
                0 <= j <= recorded@.len(),
                rs == events_view(recorded@),
                events_view(self.events@) =~= l.events + rs.take(j as int),
                self.streams@ == streams_after,
            decreases recorded@.len() - j,
        {
            let e = recorded[j].duplicate();
            proof {
                lemma_events_view_push(self.events@, e);
                assert(rs.take(j + 1) =~= rs.take(j as int).push(rs[j as int]));
            }
            self.events.push(e);
            j = j + 1;
        }
        proof {
            assert(rs.take(recorded@.len() as int) =~= rs);
            assert(self@.streams =~= append_run(l, stream_id, rs).streams);
            assert(self@.events =~= append_run(l, stream_id, rs).events);
            lemma_append_run_wf(l, stream_id, rs);
        }
    }
}

/// Reads see appends: after appending a batch to stream `s`, the global
/// position has grown by the number of events recorded, reading the global
/// log from the old end gives back exactly the recorded events, and so does
/// reading the stream from its old length; the stream's version is that of
/// its last recorded event. What was there before is read unchanged, and
/// every other stream reads and versions as before.
pub proof fn law_read_after_append(l: EventLogView, s: u128, at: u64, ps: Seq<ProposedEventView>)
    requires
        log_wf(l),
        0 < ps.len(),
        l.events.len() + ps.len() <= u64::MAX,
    ensures
        ({
            let rs = spec_recorded(l, s, at, ps);
            let m = append_run(l, s, rs);
            &&& spec_read_all(m, l.events.len() as u64, rs.len() as u64) == rs
            &&& spec_read_all(m, 0, l.events.len() as u64) == l.events
            &&& spec_read_stream(m, s, stream_len(l, s) as u64, rs.len() as u64) == Some(rs)
            &&& m.events.len() == l.events.len() + rs.len()
            &&& spec_stream_version(m, s) == Some(rs.last().stream_version)
            &&& forall|t: u128| t != s ==> #[trigger] spec_stream_version(m, t) == spec_stream_version(l, t)
            &&& forall|t: u128, from: u64, max: u64|
                t != s ==> #[trigger] spec_read_stream(m, t, from, max) == spec_read_stream(l, t, from, max)
        }),
{
    let rs = spec_recorded(l, s, at, ps);
    lemma_recorded_continues(l, s, at, ps);
    lemma_append_run_wf(l, s, rs);
    lemma_stream_len_bounded(l, s);
    let m = append_run(l, s, rs);
    let n = l.events.len();
    assert(m.events.subrange(n as int, (n + rs.len()) as int) =~= rs);
    assert(m.events.subrange(0, n as int) =~= l.events);
    let positions = m.streams[s];
    let old_len = stream_len(l, s);
    assert(positions.len() == old_len + rs.len());
    let got = spec_read_stream(m, s, old_len as u64, rs.len() as u64).unwrap();
    assert forall|k: int| 0 <= k < rs.len() implies got[k] == rs[k] by {
        assert(positions[old_len + k] == (n + k) as u64);
        assert(m.events[n + k] == rs[k]);
    }
    assert(got =~= rs);
    assert(rs.last().stream_version == old_len + rs.len() - 1);
    assert forall|t: u128, from: u64, max: u64| t != s implies #[trigger] spec_read_stream(m, t, from, max)
        == spec_read_stream(l, t, from, max) by {
        if l.streams.contains_key(t) {
            let ps = l.streams[t];
            assert(m.streams[t] == ps);
            let len = ps.len() as int;
            let start = min_int(from as int, len);
            let end = min_int(from + max, len);
            let a = spec_read_stream(m, t, from, max).unwrap();
            let b = spec_read_stream(l, t, from, max).unwrap();
            assert forall|k: int| 0 <= k < a.len() implies a[k] == b[k] by {
                let p = ps[start + k] as int;
                assert(0 <= p < n);
                assert(m.events[p] == l.events[p]);
            }
            assert(a =~= b);
        }
    }
}

/// Optimistic concurrency: an append goes through only when the expected
/// version holds of the stream as it stands. `Exact(n)` needs the stream to
/// exist with `n + 1` events, its last version being `n`; `NoStream` needs it
/// not to exist; `Any` asks nothing. A failed check is reported, before any
/// event is looked at, as `WrongExpectedVersion` with the expected version
/// and the stream's actual version (or "NoStream"), and plans nothing.
pub proof fn law_expected_version_is_enforced(
    l: EventLogView,
    s: u128,
    ev: ExpectedVersion,
    at: u64,
    ps: Seq<ProposedEventView>,
    r: Result<PreparedAppend, Error>,
)
    requires
        planned(l, s, ev, at, ps, r),
    ensures
        r is Ok ==> match ev {
            ExpectedVersion::Any => true,
            ExpectedVersion::NoStream => !l.streams.contains_key(s),
            ExpectedVersion::Exact(n) => l.streams.contains_key(s) && l.streams[s].len() == n + 1,
        },
        match ev {
            ExpectedVersion::Exact(n) => {
                &&& l.streams.contains_key(s) && l.streams[s].len() != n + 1 ==> (r matches Err(
                    Error::WrongExpectedVersion { expected, actual },
                ) && expected@ == decimal(n as nat) && actual@ == decimal(
                    (l.streams[s].len() - 1) as nat,
                ))
                &&& !l.streams.contains_key(s) ==> (r matches Err(
                    Error::WrongExpectedVersion { expected, actual },
                ) && expected@ == decimal(n as nat) && actual@ == "NoStream"@)
            },
            _ => true,
        },
        ev is NoStream && l.streams.contains_key(s) ==> (r matches Err(
            Error::WrongExpectedVersion { expected, actual },
        ) && expected@ == "NoStream"@ && actual@ == decimal((l.streams[s].len() - 1) as nat)),
{
}

/// What an append accepts and records: it goes through only when every
/// event has a type of 1 to 256 bytes and encodes to at most 64 KiB; the
/// events it records are the proposed ones, in order, in stream `s`, at the
/// global positions that follow the log and the versions that follow the
/// stream, all stamped with the append's time.
pub proof fn law_append_records_what_was_proposed(
    l: EventLogView,
    s: u128,
    ev: ExpectedVersion,
    at: u64,
    ps: Seq<ProposedEventView>,
    r: Result<PreparedAppend, Error>,
)
    requires
        log_wf(l),
        l.events.len() + ps.len() <= u64::MAX,
        planned(l, s, ev, at, ps, r),
    ensures
        r is Ok ==> forall|i: int|
            0 <= i < ps.len() ==> {
                &&& 0 < encode_utf8(#[trigger] ps[i].event_type).len() <= 256
                &&& proposed_record_len(ps[i]) <= 65536
            },
        (exists|i: int|
            0 <= i < ps.len() && (encode_utf8(#[trigger] ps[i].event_type).len() == 0 || encode_utf8(
                ps[i].event_type,
            ).len() > 256 || proposed_record_len(ps[i]) > 65536)) ==> r is Err,
        r matches Ok(plan) ==> {
            let rs = events_view(plan.recorded@);
            &&& rs.len() == ps.len()
            &&& forall|i: int|
                0 <= i < rs.len() ==> {
                    &&& (#[trigger] rs[i]).event_id == ps[i].event_id
                    &&& rs[i].event_type == ps[i].event_type
                    &&& rs[i].metadata == ps[i].metadata
                    &&& rs[i].payload == ps[i].payload
                    &&& rs[i].stream_id == s
                    &&& rs[i].global_position == l.events.len() + i
                    &&& rs[i].stream_version == (if l.streams.contains_key(s) {
                        l.streams[s].len()
                    } else {
                        0
                    }) + i
                    &&& rs[i].recorded_at == at
                }
        },
{
    lemma_stream_len_bounded(l, s);
    if let Ok(plan) = r {
        let rs = events_view(plan.recorded@);
        assert forall|i: int| 0 <= i < rs.len() implies (#[trigger] rs[i]).global_position == l.events.len()
            + i && rs[i].stream_version == stream_len(l, s) + i by {
            assert(rs[i] == spec_recorded(l, s, at, ps)[i]);
        }
    }
    if r is Ok {
        assert forall|i: int| 0 <= i < ps.len() implies {
            &&& 0 < encode_utf8(#[trigger] ps[i].event_type).len() <= 256
            &&& proposed_record_len(ps[i]) <= 65536
        } by {
            assert(rejection(ps[i]) is None);
        }
        if exists|i: int|
            0 <= i < ps.len() && (encode_utf8(#[trigger] ps[i].event_type).len() == 0
                || encode_utf8(ps[i].event_type).len() > 256 || proposed_record_len(ps[i]) > 65536) {
            let i = choose|i: int|
                0 <= i < ps.len() && (encode_utf8(#[trigger] ps[i].event_type).len() == 0
                    || encode_utf8(ps[i].event_type).len() > 256 || proposed_record_len(ps[i]) > 65536);
            assert(rejection(ps[i]) is None);
        }
    }
}

} // verus!
