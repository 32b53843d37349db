//! The decisions of the single writer task.
//!
//! Each append request goes through the same steps: a batch in which two
//! events share an event id is refused; a batch whose first event id is in
//! the dedup index is answered with the events recorded the first time,
//! without writing; otherwise the append is planned against the in-memory
//! log, the planned batch is written and made durable by the caller, and
//! `finish_append` records it in the log and in the dedup index.

use std::collections::HashSet;
use vstd::prelude::*;
use vstd::string::*;

use crate::append::{planned, proposed_view, spec_recorded, continues, append_run, PreparedAppend};
use crate::dedup::{distinct_ids, has_key, key_index, record_all, DedupIndex, law_recorded_batch_is_found};
use crate::error::Error;
use crate::ids::{uuid_hyphenated, uuid_to_string};
use crate::log::{EventLog, EventLogView};
use crate::types::{
    events_view, lemma_events_view_push, ExpectedVersion, ProposedEvent, ProposedEventView,
    RecordedEvent,
};

verus! {

broadcast use vstd::std_specs::hash::group_hash_axioms;

/// No two proposed events share an event id.
pub open spec fn unique_ids(ps: Seq<ProposedEventView>) -> bool {
    forall|a: int, b: int| 0 <= a < b < ps.len() ==> #[trigger] ps[a].event_id != #[trigger] ps[b].event_id
}

/// `j` is the first proposed event whose id already occurs earlier.
pub open spec fn first_repeat(ps: Seq<ProposedEventView>, j: int) -> bool {
    &&& 0 <= j < ps.len()
    &&& exists|i: int| 0 <= i < j && #[trigger] ps[i].event_id == ps[j].event_id
    &&& unique_ids(ps.take(j))
}

/// The message that refuses a batch repeating event id `id`.
pub open spec fn duplicate_id_message(id: u128) -> Seq<char> {
    "duplicate event_id "@ + uuid_hyphenated(id) + " within batch"@
}

/// Checks that no two events of a proposed batch share an event id.
///
/// Such a batch is a caller error, refused with `InvalidArgument` naming the
/// first event id that repeats, before anything is written.
pub fn validate_batch_unique_ids(events: &[ProposedEvent]) -> (r: Result<(), Error>)
    ensures
        r is Ok <==> unique_ids(proposed_view(events@)),
        r matches Err(e) ==> exists|j: int|
            first_repeat(proposed_view(events@), j) && (e matches Error::InvalidArgument(m) && m@
                == duplicate_id_message(#[trigger] proposed_view(events@)[j].event_id)),
{
    let ghost ps = proposed_view(events@);
    if events.len() <= 1 {
        return Ok(());
    }
    let mut seen: HashSet<u128> = HashSet::with_capacity(events.len());
    let mut i: usize = 0;
    while i < events.len()
        invariant
            0 <= i <= events@.len(),
            ps == proposed_view(events@),
            unique_ids(ps.take(i as int)),
            forall|x: u128|
                #![trigger seen@.contains(x)]
                seen@.contains(x) <==> exists|a: int| 0 <= a < i && #[trigger] ps[a].event_id == x,
        decreases events@.len() - i,
    {
        let id = events[i].event_id;
        assert(ps[i as int].event_id == id);
        let ghost seen_before = seen@;
        assert(forall|a: int| 0 <= a < i && #[trigger] ps[a].event_id == id ==> seen_before.contains(id));
        if !seen.insert(id) {
            let mut msg = String::from_str("duplicate event_id ");
            msg.append(uuid_to_string(id).as_str());
            msg.append(" within batch");
            assert(first_repeat(ps, i as int));
            assert(!unique_ids(ps)) by {
                let a = choose|a: int| 0 <= a < i && #[trigger] ps[a].event_id == id;
                assert(ps[a].event_id == ps[i as int].event_id);
            }
            return Err(Error::InvalidArgument(msg));
        }
        proof {
            assert forall|a: int, b: int|
                0 <= a < b < ps.take(i + 1).len() implies #[trigger] ps.take(i + 1)[a].event_id
                != #[trigger] ps.take(i + 1)[b].event_id by {
                if b < i {
                    assert(ps.take(i as int)[a] == ps[a]);
                    assert(ps.take(i as int)[b] == ps[b]);
                } else {
                    assert(ps.take(i + 1)[a] == ps[a]);
                    assert(ps.take(i + 1)[b] == ps[b]);
                    assert(ps[a].event_id != id);
                }
            }
        }
        i = i + 1;
    }
    assert(ps.take(events@.len() as int) =~= ps);
    Ok(())
}

/// A copy of a batch of recorded events.
fn copy_events(src: &Vec<RecordedEvent>) -> (r: Vec<RecordedEvent>)
    ensures
        events_view(r@) == events_view(src@),
{
    let mut out: Vec<RecordedEvent> = Vec::new();
    let mut i: usize = 0;
    while i < src.len()
        invariant
            0 <= i <= src@.len(),
            events_view(out@) == events_view(src@).take(i as int),
        decreases src@.len() - i,
    {
        let e = src[i].duplicate();
        proof {
            lemma_events_view_push(out@, e);
            assert(events_view(src@).take(i + 1) =~= events_view(src@).take(i as int).push(
                src@[i as int]@,
            ));
        }
        out.push(e);
        i = i + 1;
    }
    assert(events_view(src@).take(src@.len() as int) =~= events_view(src@));
    out
}

/// What the writer does with one append request.
#[derive(Debug)]
pub enum WriteStep {
    /// Answer the caller now; nothing is written.
    Reply(Result<Vec<RecordedEvent>, Error>),
    /// Write this batch at the end of the log file and make it durable, then
    /// call `finish_append` with it.
    Write(PreparedAppend),
}

/// The first step of an append request.
///
/// A batch that repeats an event id is refused. A batch whose first event
/// id is in the dedup index is answered with the batch recorded under it
/// (which becomes the most recently used). Otherwise the append is planned
/// against `log` (`EventLog::prepare_append`): a refusal is answered, a plan
/// is handed back to be written.
pub fn begin_append(
    log: &EventLog,
    dedup: &mut DedupIndex,
    stream_id: u128,
    expected_version: ExpectedVersion,
    recorded_at: u64,
    events: &[ProposedEvent],
) -> (r: WriteStep)
    requires
        log.wf(),
        old(dedup).wf(),
        log@.events.len() + events@.len() <= u64::MAX,
        events@.len() <= u32::MAX,
    ensures
        final(dedup).wf(),
        ({
            let ps = proposed_view(events@);
            let es = old(dedup)@.entries;
            if !unique_ids(ps) {
                &&& final(dedup)@ == old(dedup)@
                &&& r matches WriteStep::Reply(Err(e))
                &&& exists|j: int|
                    first_repeat(ps, j) && (e matches Error::InvalidArgument(m) && m@
                        == duplicate_id_message(#[trigger] ps[j].event_id))
            } else if ps.len() > 0 && has_key(es, ps[0].event_id) {
                &&& final(dedup)@.capacity == old(dedup)@.capacity
                &&& final(dedup)@.entries == es.remove(key_index(es, ps[0].event_id)).push(
                    es[key_index(es, ps[0].event_id)],
                )
                &&& r matches WriteStep::Reply(Ok(v))
                &&& events_view(v@) == es[key_index(es, ps[0].event_id)].1
            } else {
                &&& final(dedup)@ == old(dedup)@
                &&& match r {
                    WriteStep::Write(plan) => planned(
                        log@,
                        stream_id,
                        expected_version,
                        recorded_at,
                        ps,
                        Ok(plan),
                    ),
                    WriteStep::Reply(Ok(_)) => false,
                    WriteStep::Reply(Err(e)) => planned(
                        log@,
                        stream_id,
                        expected_version,
                        recorded_at,
                        ps,
                        Err(e),
                    ),
                }
            }
        }),
{
    if let Err(e) = validate_batch_unique_ids(events) {
        return WriteStep::Reply(Err(e));
    }
    if let Some(cached) = dedup.check(events) {
        return WriteStep::Reply(Ok(copy_events(&*cached)));
    }
    match log.prepare_append(stream_id, expected_version, recorded_at, events) {
        Ok(plan) => WriteStep::Write(plan),
        Err(e) => WriteStep::Reply(Err(e)),
    }
}

/// The last step of an append whose batch is now durable: records its
/// events in the log and in the dedup index, and returns them.
pub fn finish_append(
    log: &mut EventLog,
    dedup: &mut DedupIndex,
    stream_id: u128,
    plan: PreparedAppend,
) -> (r: Vec<RecordedEvent>)
    requires
        old(log).wf(),
        old(dedup).wf(),
        continues(old(log)@, stream_id, events_view(plan.recorded@)),
    ensures
        final(log).wf(),
        final(log)@ == append_run(old(log)@, stream_id, events_view(plan.recorded@)),
        final(dedup).wf(),
        final(dedup)@.capacity == old(dedup)@.capacity,
        final(dedup)@.entries == record_all(
            old(dedup)@.entries,
            old(dedup)@.capacity,
            events_view(plan.recorded@),
            plan.recorded@.len(),
        ),
        events_view(r@) == events_view(plan.recorded@),
{
    log.commit_append(stream_id, &plan.recorded);
    let reply = copy_events(&plan.recorded);
    dedup.record(plan.recorded);
    reply
}

/// The events that an append of a batch with distinct event ids records
/// have distinct event ids.
pub proof fn lemma_recorded_distinct(
    l: EventLogView,
    s: u128,
    at: u64,
    ps: Seq<ProposedEventView>,
)
    requires
        unique_ids(ps),
    ensures
        distinct_ids(spec_recorded(l, s, at, ps)),
{
    let rs = spec_recorded(l, s, at, ps);
    assert forall|i: int, j: int| 0 <= i < j < rs.len() implies #[trigger] rs[i].event_id
        != #[trigger] rs[j].event_id by {
        assert(ps[i].event_id != ps[j].event_id);
    }
}

/// Idempotent appends: once an append of a batch with distinct event ids,
/// no larger than the dedup capacity, has been recorded, the same batch sent
/// again finds the events recorded the first time in the dedup index.
pub proof fn law_retry_finds_recorded(
    d: DedupIndex,
    l: EventLogView,
    s: u128,
    at: u64,
    ps: Seq<ProposedEventView>,
)
    requires
        d.wf(),
        unique_ids(ps),
        0 < ps.len() <= d@.capacity,
    ensures
        ({
            let rs = spec_recorded(l, s, at, ps);
            let es = record_all(d@.entries, d@.capacity, rs, rs.len());
            &&& has_key(es, ps[0].event_id)
            &&& es[key_index(es, ps[0].event_id)].1 == rs
        }),
{
    let rs = spec_recorded(l, s, at, ps);
    lemma_recorded_distinct(l, s, at, ps);
    law_recorded_batch_is_found(d, rs, 0);
    assert(rs[0].event_id == ps[0].event_id);
}

} // verus!
