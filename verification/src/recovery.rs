//! Rebuilding the in-memory index from the bytes of a log file.
//!
//! Batches are decoded in order from just after the file header. A batch
//! whose header, records or footer are cut short by the end of the data, or
//! that is damaged with nothing decodable after it, ends recovery: the file is
//! to be truncated at the start of that batch, keeping every event of the
//! batches before it. Damage (a corrupt batch header, record or footer, or a
//! batch CRC that does not match) followed anywhere later by a decodable
//! batch header is mid-file corruption and cannot be recovered.

use vstd::prelude::*;
use vstd::slice::*;
use vstd::string::*;

use crate::append::{
    all_acceptable, append_run, batch_body, continues, encode_records, positions_of, rejection,
    spec_encode_batch, spec_recorded,
};
use crate::codec::{
    decode_batch_footer, decode_batch_header, decode_header, decode_record,
    lemma_batch_footer_decode_prefix, lemma_batch_header_decode_prefix, lemma_record_decode_prefix,
    spec_decode_batch_footer, spec_decode_batch_header, spec_decode_record,
    spec_file_header, BatchFooter, BatchHeader, DecodeOutcome, SpecDecode, BATCH_FOOTER_SIZE,
    BATCH_HEADER_SIZE, HEADER_SIZE, lemma_batch_footer_roundtrip, lemma_batch_header_roundtrip,
    lemma_record_roundtrip, record_encodable, spec_encode_batch_footer, spec_encode_batch_header,
    spec_encode_record, le32_at, FILE_HEADER_MAGIC,
};
use crate::crc::{crc32, crc32_of};
use crate::error::Error;
use crate::log::{empty_log, log_wf, stream_len, EventLog, EventLogView};
use crate::text::{decimal, usize_decimal};
use crate::types::{events_view, ProposedEventView, RecordedEvent, RecordedEventView};

verus! {

broadcast use vstd::std_specs::hash::group_hash_axioms;

// ---------------------------------------------------------------------------
// Specification
// ---------------------------------------------------------------------------

/// Mathematical outcome of recovering a log file.
pub enum RecoverySpec {
    /// The file is shorter than its header.
    TooShort,
    /// The file header is not that of a log of this format.
    BadHeader,
    /// Every byte after the header belongs to a valid batch.
    Clean(EventLogView),
    /// The valid batches end at the given offset; what follows is discarded.
    Truncated(EventLogView, nat),
    /// A damaged batch is followed by a decodable batch header (events
    /// recovered before it).
    MidFileCorruption(nat),
    /// A valid batch holds records whose positions do not continue the log
    /// (events recovered before it). Such records are refused rather than
    /// indexed as they stand: the index keeps the event at global position
    /// `i` in slot `i` and each stream's events in version order, and a read
    /// of a stream follows the positions it lists into the global log, so a
    /// position past the end, or one already taken, cannot enter it.
    Inconsistent(nat),
}

/// `e` has the next global position and the next version of its stream.
pub open spec fn continues_log(l: EventLogView, e: RecordedEventView) -> bool {
    &&& e.global_position == l.events.len()
    &&& e.stream_version == stream_len(l, e.stream_id)
    &&& l.events.len() < u64::MAX
}

/// The log after recording `e`.
pub open spec fn log_push(l: EventLogView, e: RecordedEventView) -> EventLogView {
    append_run(l, e.stream_id, seq![e])
}

/// Records `rs` one by one; `None` as soon as one does not continue the log.
pub open spec fn push_all(l: EventLogView, rs: Seq<RecordedEventView>) -> Option<EventLogView>
    decreases rs.len(),
{
    if rs.len() == 0 {
        Some(l)
    } else {
        match push_all(l, rs.drop_last()) {
            Some(m) => if continues_log(m, rs.last()) {
                Some(log_push(m, rs.last()))
            } else {
                None
            },
            None => None,
        }
    }
}

/// The bytes of `data` from offset `off` to the end.
pub open spec fn tail(data: Seq<u8>, off: int) -> Seq<u8> {
    data.subrange(off, data.len() as int)
}

/// Decodes `count` consecutive records starting at `off`; the records and
/// the offset just after the last, or `None` if one is incomplete or corrupt.
pub open spec fn decode_records(data: Seq<u8>, off: int, count: nat) -> Option<
    (Seq<RecordedEventView>, int),
>
    decreases count,
{
    if count == 0 {
        Some((Seq::empty(), off))
    } else {
        match decode_records(data, off, (count - 1) as nat) {
            Some((rs, end)) => if 0 <= end <= data.len() {
                match spec_decode_record(tail(data, end)) {
                    SpecDecode::Complete(e, c) => Some((rs.push(e), end + c)),
                    _ => None,
                }
            } else {
                None
            },
            None => None,
        }
    }
}

/// Some offset after `start` holds a decodable batch header.
pub open spec fn has_batch_after(data: Seq<u8>, start: int) -> bool {
    exists|p: int|
        start < p < data.len() && #[trigger] spec_decode_batch_header(tail(data, p)) is Complete
}

/// Of the `count` records from `off`, the first that does not decode is
/// corrupt, rather than cut short by the end of the data.
pub open spec fn records_corrupt(data: Seq<u8>, off: int, count: nat) -> bool
    decreases count,
{
    if count == 0 {
        false
    } else {
        match decode_records(data, off, (count - 1) as nat) {
            Some((_, end)) => 0 <= end <= data.len() && spec_decode_record(tail(data, end)) is Corrupt,
            None => records_corrupt(data, off, (count - 1) as nat),
        }
    }
}

/// Damaged bytes in the batch that starts at `off`: mid-file corruption when
/// a decodable batch header follows, else the valid batches end there.
pub open spec fn corrupt_at(data: Seq<u8>, off: int, l: EventLogView) -> RecoverySpec {
    if has_batch_after(data, off) {
        RecoverySpec::MidFileCorruption(l.events.len())
    } else {
        RecoverySpec::Truncated(l, off as nat)
    }
}

/// When decoding `count` records from `off` succeeds, it ends within the
/// data, not before `off`, with `count` records.
pub open spec fn decode_advances(data: Seq<u8>, off: int, count: nat) -> bool {
    match decode_records(data, off, count) {
        Some((rs, end)) => off <= end <= data.len() && rs.len() == count,
        None => true,
    }
}

/// Recovery of the batches from offset `off` on, into log `l`.
pub open spec fn recover_from(data: Seq<u8>, off: int, l: EventLogView) -> RecoverySpec
    decreases data.len() - off,
{
    if off < 0 || off >= data.len() {
        RecoverySpec::Clean(l)
    } else {
        match spec_decode_batch_header(tail(data, off)) {
            SpecDecode::Incomplete => RecoverySpec::Truncated(l, off as nat),
            SpecDecode::Corrupt => corrupt_at(data, off, l),
            SpecDecode::Complete(h, hc) => {
                proof {
                    assert(off + hc <= data.len());
                    lemma_decode_advances(data, off + hc, h.record_count as nat);
                }
                match decode_records(data, off + hc, h.record_count as nat) {
                    None => if records_corrupt(data, off + hc, h.record_count as nat) {
                        corrupt_at(data, off, l)
                    } else {
                        RecoverySpec::Truncated(l, off as nat)
                    },
                    Some((rs, end)) => match spec_decode_batch_footer(tail(data, end)) {
                        SpecDecode::Complete(f, fc) => if f.batch_crc != crc32_of(
                            data.subrange(off, end),
                        ) {
                            corrupt_at(data, off, l)
                        } else {
                            match push_all(l, rs) {
                                // Refused, not indexed as recorded: see `Inconsistent`.
                                None => RecoverySpec::Inconsistent(l.events.len()),
                                Some(m) => recover_from(data, end + fc, m),
                            }
                        },
                        SpecDecode::Corrupt => corrupt_at(data, off, l),
                        SpecDecode::Incomplete => RecoverySpec::Truncated(l, off as nat),
                    },
                }
            },
        }
    }
}

/// Recovery of a whole log file.
pub open spec fn spec_recover(data: Seq<u8>) -> RecoverySpec {
    if data.len() < HEADER_SIZE {
        RecoverySpec::TooShort
    } else if data.subrange(0, HEADER_SIZE as int) != spec_file_header() {
        RecoverySpec::BadHeader
    } else {
        recover_from(data, HEADER_SIZE as int, empty_log())
    }
}

// ---------------------------------------------------------------------------
// Basic facts
// ---------------------------------------------------------------------------

/// A successful decode of records moves forward and stays in the data.
pub proof fn lemma_decode_advances(data: Seq<u8>, off: int, count: nat)
    requires
        0 <= off <= data.len(),
    ensures
        decode_advances(data, off, count),
    decreases count,
{
    if count > 0 {
        lemma_decode_advances(data, off, (count - 1) as nat);
    }
}

/// Once decoding some records fails, decoding more of them fails.
pub proof fn lemma_decode_records_none_extends(data: Seq<u8>, off: int, k: nat, count: nat)
    requires
        k <= count,
        decode_records(data, off, k) is None,
    ensures
        decode_records(data, off, count) is None,
    decreases count - k,
{
    if k < count {
        lemma_decode_records_none_extends(data, off, k + 1, count);
    }
}

/// Once decoding some records fails, whether the failure is corruption is
/// settled: decoding more of them fails in the same way.
pub proof fn lemma_records_corrupt_extends(data: Seq<u8>, off: int, k: nat, count: nat)
    requires
        k <= count,
        decode_records(data, off, k) is None,
    ensures
        records_corrupt(data, off, count) == records_corrupt(data, off, k),
    decreases count - k,
{
    if k < count {
        lemma_decode_records_none_extends(data, off, k, k + 1);
        lemma_records_corrupt_extends(data, off, k + 1, count);
    }
}

/// Recording one event that continues the log keeps it well-formed.
pub proof fn lemma_log_push_wf(l: EventLogView, e: RecordedEventView)
    requires
        log_wf(l),
        continues_log(l, e),
    ensures
        log_wf(log_push(l, e)),
        log_push(l, e).events == l.events.push(e),
{
    assert(continues(l, e.stream_id, seq![e]));
    crate::append::lemma_append_run_wf(l, e.stream_id, seq![e]);
    assert(l.events + seq![e] =~= l.events.push(e));
}

/// Recording events one by one keeps the log well-formed.
pub proof fn lemma_push_all_wf(l: EventLogView, rs: Seq<RecordedEventView>)
    requires
        log_wf(l),
    ensures
        push_all(l, rs) matches Some(m) ==> log_wf(m),
    decreases rs.len(),
{
    if rs.len() > 0 {
        lemma_push_all_wf(l, rs.drop_last());
        if let Some(m) = push_all(l, rs.drop_last()) {
            if continues_log(m, rs.last()) {
                lemma_log_push_wf(m, rs.last());
            }
        }
    }
}

/// Once recording a prefix fails, recording the whole sequence fails.
pub proof fn lemma_push_all_none_extends(l: EventLogView, rs: Seq<RecordedEventView>, j: int)
    requires
        0 <= j <= rs.len(),
        push_all(l, rs.take(j)) is None,
    ensures
        push_all(l, rs) is None,
    decreases rs.len() - j,
{
    if j < rs.len() {
        assert(rs.take(j + 1).drop_last() =~= rs.take(j));
        lemma_push_all_none_extends(l, rs, j + 1);
    } else {
        assert(rs.take(j) =~= rs);
    }
}

// ---------------------------------------------------------------------------
// Recovery reads each batch from its own bytes only
// ---------------------------------------------------------------------------

/// `d1` and `d2` hold the same bytes below offset `n`.
pub open spec fn agree(d1: Seq<u8>, d2: Seq<u8>, n: int) -> bool {
    &&& 0 <= n <= d1.len()
    &&& n <= d2.len()
    &&& d1.subrange(0, n) == d2.subrange(0, n)
}

/// Where two buffers agree, their tails start with the same bytes.
pub proof fn lemma_tail_agree(d1: Seq<u8>, d2: Seq<u8>, n: int, p: int, c: int)
    requires
        agree(d1, d2, n),
        0 <= p,
        0 <= c,
        p + c <= n,
    ensures
        tail(d1, p).subrange(0, c) == tail(d2, p).subrange(0, c),
{
    assert(tail(d1, p).subrange(0, c) =~= d1.subrange(0, n).subrange(p, p + c));
    assert(tail(d2, p).subrange(0, c) =~= d2.subrange(0, n).subrange(p, p + c));
}

/// Decoding records that lie below `n` gives the same result in any buffer
/// that agrees below `n`.
pub proof fn lemma_decode_records_agree(d1: Seq<u8>, d2: Seq<u8>, off: int, k: nat, n: int)
    requires
        0 <= off <= d1.len(),
        decode_records(d1, off, k) is Some,
        decode_records(d1, off, k)->Some_0.1 <= n,
        agree(d1, d2, n),
    ensures
        decode_records(d2, off, k) == decode_records(d1, off, k),
    decreases k,
{
    if k > 0 {
        lemma_decode_advances(d1, off, (k - 1) as nat);
        lemma_decode_advances(d1, off, k);
        let (rs, e) = decode_records(d1, off, (k - 1) as nat)->Some_0;
        let c = spec_decode_record(tail(d1, e))->Complete_1 as int;
        lemma_decode_records_agree(d1, d2, off, (k - 1) as nat, n);
        lemma_tail_agree(d1, d2, n, e, c);
        lemma_record_decode_prefix(tail(d1, e), tail(d2, e));
    }
}

/// The final log of a recovery that reads everything, and of one that truncates.
pub open spec fn final_log(r: RecoverySpec) -> EventLogView {
    match r {
        RecoverySpec::Clean(l) => l,
        RecoverySpec::Truncated(l, _) => l,
        _ => empty_log(),
    }
}

/// Bytes appended after data that recovers cleanly are read after all of it.
pub proof fn lemma_recover_extend(d: Seq<u8>, b: Seq<u8>, off: int, m: EventLogView)
    requires
        0 <= off <= d.len(),
        recover_from(d, off, m) is Clean,
    ensures
        recover_from(d + b, off, m) == recover_from(
            d + b,
            d.len() as int,
            final_log(recover_from(d, off, m)),
        ),
    decreases d.len() - off,
{
    let db = d + b;
    assert(db.subrange(0, d.len() as int) =~= d.subrange(0, d.len() as int));
    if off < d.len() {
        let n = d.len() as int;
        let h = spec_decode_batch_header(tail(d, off))->Complete_0;
        let hc = BATCH_HEADER_SIZE as int;
        lemma_tail_agree(d, db, n, off, BATCH_HEADER_SIZE as int);
        lemma_batch_header_decode_prefix(tail(d, off), tail(db, off));
        lemma_decode_advances(d, off + hc, h.record_count as nat);
        let (rs, end) = decode_records(d, off + hc, h.record_count as nat)->Some_0;
        lemma_decode_records_agree(d, db, off + hc, h.record_count as nat, n);
        lemma_tail_agree(d, db, n, end, BATCH_FOOTER_SIZE as int);
        lemma_batch_footer_decode_prefix(tail(d, end), tail(db, end));
        assert(db.subrange(off, end) =~= d.subrange(off, end));
        let m2 = push_all(m, rs)->Some_0;
        lemma_recover_extend(d, b, end + BATCH_FOOTER_SIZE, m2);
    }
}

/// A recovery that truncates at `t` recovers the same log, without
/// truncation, from the first `t` bytes.
pub proof fn lemma_recover_truncate(d: Seq<u8>, off: int, m: EventLogView)
    requires
        0 <= off,
        recover_from(d, off, m) is Truncated,
    ensures
        off <= recover_from(d, off, m)->Truncated_1 <= d.len(),
        recover_from(d.subrange(0, recover_from(d, off, m)->Truncated_1 as int), off, m)
            == RecoverySpec::Clean(recover_from(d, off, m)->Truncated_0),
    decreases d.len() - off,
{
    let (l, t) = (recover_from(d, off, m)->Truncated_0, recover_from(d, off, m)->Truncated_1);
    let dt = d.subrange(0, t as int);
    let hd = spec_decode_batch_header(tail(d, off));
    let hc = BATCH_HEADER_SIZE as int;
    let mut recursive = false;
    if hd is Complete {
        let h = hd->Complete_0;
        lemma_decode_advances(d, off + hc, h.record_count as nat);
        if let Some((rs, end)) = decode_records(d, off + hc, h.record_count as nat) {
            if let SpecDecode::Complete(f, fc) = spec_decode_batch_footer(tail(d, end)) {
                if f.batch_crc == crc32_of(d.subrange(off, end)) {
                    if let Some(m2) = push_all(m, rs) {
                        recursive = true;
                        let next = end + BATCH_FOOTER_SIZE;
                        lemma_recover_truncate(d, next, m2);
                        assert(dt.subrange(0, t as int) =~= d.subrange(0, t as int));
                        lemma_tail_agree(d, dt, t as int, off, BATCH_HEADER_SIZE as int);
                        lemma_batch_header_decode_prefix(tail(d, off), tail(dt, off));
                        lemma_decode_records_agree(d, dt, off + hc, h.record_count as nat, t as int);
                        lemma_tail_agree(d, dt, t as int, end, BATCH_FOOTER_SIZE as int);
                        lemma_batch_footer_decode_prefix(tail(d, end), tail(dt, end));
                        assert(dt.subrange(off, end) =~= d.subrange(off, end));
                    }
                }
            }
        }
    }
    if !recursive {
        assert(t == off && l == m);
        assert(dt.len() == off);
    }
}

// ---------------------------------------------------------------------------
// What recovery gives back of an appended batch
// ---------------------------------------------------------------------------

/// Records encoded one after the other decode back, one after the other.
#[verifier::rlimit(30)]
pub proof fn lemma_decode_encoded_records(pre: Seq<u8>, rs: Seq<RecordedEventView>, post: Seq<u8>)
    requires
        forall|i: int| 0 <= i < rs.len() ==> record_encodable(#[trigger] rs[i]),
    ensures
        decode_records(pre + encode_records(rs) + post, pre.len() as int, rs.len()) == Some(
            (rs, (pre.len() + encode_records(rs).len()) as int),
        ),
    decreases rs.len(),
{
    let data = pre + encode_records(rs) + post;
    if rs.len() == 0 {
        assert(rs =~= Seq::<RecordedEventView>::empty());
    } else {
        let dl = rs.drop_last();
        let last = rs.last();
        let enc_last = spec_encode_record(last);
        assert(forall|i: int| 0 <= i < dl.len() ==> #[trigger] dl[i] == rs[i]);
        assert(data =~= pre + encode_records(dl) + (enc_last + post));
        lemma_decode_encoded_records(pre, dl, enc_last + post);
        let end = (pre.len() + encode_records(dl).len()) as int;
        assert(tail(data, end) =~= enc_last + post);
        lemma_record_roundtrip(last, post);
        assert(dl.push(last) =~= rs);
    }
}

/// Recording, one by one, events that continue a stream gives the log with
/// the whole run appended.
pub proof fn lemma_push_all_run(l: EventLogView, s: u128, rs: Seq<RecordedEventView>)
    requires
        continues(l, s, rs),
    ensures
        push_all(l, rs) == Some(append_run(l, s, rs)),
    decreases rs.len(),
{
    if rs.len() > 0 {
        let dl = rs.drop_last();
        let last = rs.last();
        let k = dl.len() as int;
        assert(forall|i: int| 0 <= i < dl.len() ==> #[trigger] dl[i] == rs[i]);
        lemma_push_all_run(l, s, dl);
        let m = append_run(l, s, dl);
        assert(rs[k] == last);
        assert(positions_of(l, s).len() == stream_len(l, s));
        assert(continues_log(m, last));
        let n = l.events.len();
        let target = append_run(l, s, rs);
        let pushed = log_push(m, last);
        assert(pushed.events =~= target.events);
        assert(positions_of(m, s) + Seq::new(1, |i: int| (m.events.len() + i) as u64) =~= positions_of(
            l,
            s,
        ) + Seq::new(rs.len(), |i: int| (n + i) as u64));
        assert(pushed.streams =~= target.streams);
    }
}

/// Events accepted for appending fit the record format.
pub proof fn lemma_recorded_encodable(
    l: EventLogView,
    s: u128,
    recorded_at: u64,
    ps: Seq<ProposedEventView>,
)
    requires
        all_acceptable(ps),
    ensures
        forall|i: int|
            0 <= i < ps.len() ==> record_encodable(
                #[trigger] spec_recorded(l, s, recorded_at, ps)[i],
            ),
{
    assert forall|i: int| 0 <= i < ps.len() implies record_encodable(
        #[trigger] spec_recorded(l, s, recorded_at, ps)[i],
    ) by {
        assert(rejection(ps[i]) is None);
    }
}

/// After appending: the bytes of a log that recovers to `l`, followed by the
/// batch that appending `ps` to stream `s` writes, recover to `l` with the
/// recorded events appended. What a read gives back after a restart is what
/// the append recorded.
pub proof fn law_recover_after_append(
    data: Seq<u8>,
    l: EventLogView,
    s: u128,
    recorded_at: u64,
    ps: Seq<ProposedEventView>,
)
    requires
        spec_recover(data) == RecoverySpec::Clean(l),
        log_wf(l),
        all_acceptable(ps),
        ps.len() <= u32::MAX,
        l.events.len() + ps.len() <= u64::MAX,
    ensures
        ({
            let rs = spec_recorded(l, s, recorded_at, ps);
            spec_recover(data + spec_encode_batch(l.events.len() as u64, rs)) == RecoverySpec::Clean(
                append_run(l, s, rs),
            )
        }),
{
    let rs = spec_recorded(l, s, recorded_at, ps);
    let first = l.events.len() as u64;
    let batch = spec_encode_batch(first, rs);
    let db = data + batch;
    crate::append::lemma_recorded_continues(l, s, recorded_at, ps);
    lemma_recorded_encodable(l, s, recorded_at, ps);
    assert(db.subrange(0, HEADER_SIZE as int) =~= data.subrange(0, HEADER_SIZE as int));
    lemma_recover_extend(data, batch, HEADER_SIZE as int, empty_log());
    // The batch itself.
    let n = data.len() as int;
    let recs = encode_records(rs);
    let footer = spec_encode_batch_footer(crc32_of(batch_body(first, rs)));
    assert(tail(db, n) =~= batch);
    lemma_batch_header_roundtrip(rs.len() as u32, first, recs + footer);
    assert(batch =~= spec_encode_batch_header(rs.len() as u32, first) + (recs + footer));
    let pre = data + spec_encode_batch_header(rs.len() as u32, first);
    assert(db =~= pre + recs + footer);
    lemma_decode_encoded_records(pre, rs, footer);
    let end = (pre.len() + recs.len()) as int;
    assert(tail(db, end) =~= footer + Seq::<u8>::empty());
    lemma_batch_footer_roundtrip(crc32_of(batch_body(first, rs)), Seq::<u8>::empty());
    assert(db.subrange(n, end) =~= batch_body(first, rs));
    lemma_push_all_run(l, s, rs);
    assert(end + BATCH_FOOTER_SIZE == db.len());
    let hdr = BatchHeader { record_count: rs.len() as u32, first_global_pos: first };
    assert(spec_decode_batch_header(tail(db, n)) == SpecDecode::Complete(hdr, BATCH_HEADER_SIZE as nat));
    assert(hdr.record_count as nat == rs.len());
    assert(decode_records(db, n + BATCH_HEADER_SIZE, rs.len()) == Some((rs, end)));
    assert(spec_decode_batch_footer(tail(db, end)) == SpecDecode::Complete(
        BatchFooter { batch_crc: crc32_of(batch_body(first, rs)) },
        BATCH_FOOTER_SIZE as nat,
    ));
    assert(recover_from(db, end + BATCH_FOOTER_SIZE, append_run(l, s, rs)) == RecoverySpec::Clean(append_run(l, s, rs)));
    assert(recover_from(db, n, l) == RecoverySpec::Clean(append_run(l, s, rs)));
    assert(recover_from(db, HEADER_SIZE as int, empty_log()) == recover_from(db, n, l));
}

/// One append of a sequence of appends: the stream, the time it records,
/// and the proposed events.
pub type AppendStep = (u128, u64, Seq<ProposedEventView>);

/// The log after the appends `steps`, one after the other, starting from `l`.
pub open spec fn after_appends(l: EventLogView, steps: Seq<AppendStep>) -> EventLogView
    decreases steps.len(),
{
    if steps.len() == 0 {
        l
    } else {
        let m = after_appends(l, steps.drop_last());
        let (s, at, ps) = steps.last();
        append_run(m, s, spec_recorded(m, s, at, ps))
    }
}

/// The bytes that the appends `steps`, starting from log `l`, write after
/// the end of the file: one batch envelope each.
pub open spec fn appended_bytes(l: EventLogView, steps: Seq<AppendStep>) -> Seq<u8>
    decreases steps.len(),
{
    if steps.len() == 0 {
        Seq::empty()
    } else {
        let m = after_appends(l, steps.drop_last());
        let (s, at, ps) = steps.last();
        appended_bytes(l, steps.drop_last()) + spec_encode_batch(
            m.events.len() as u64,
            spec_recorded(m, s, at, ps),
        )
    }
}

/// Every append of `steps` is one that succeeds on the log it meets: its
/// events are acceptable, a batch can count them, and positions stay in `u64`.
pub open spec fn appendable(l: EventLogView, steps: Seq<AppendStep>) -> bool
    decreases steps.len(),
{
    if steps.len() == 0 {
        true
    } else {
        let m = after_appends(l, steps.drop_last());
        let (s, at, ps) = steps.last();
        &&& appendable(l, steps.drop_last())
        &&& all_acceptable(ps)
        &&& ps.len() <= u32::MAX
        &&& m.events.len() + ps.len() <= u64::MAX
    }
}

/// Appends keep the log well-formed, one after the other.
pub proof fn lemma_after_appends_wf(l: EventLogView, steps: Seq<AppendStep>)
    requires
        log_wf(l),
        appendable(l, steps),
    ensures
        log_wf(after_appends(l, steps)),
    decreases steps.len(),
{
    if steps.len() > 0 {
        lemma_after_appends_wf(l, steps.drop_last());
        let m = after_appends(l, steps.drop_last());
        let (s, at, ps) = steps.last();
        crate::append::lemma_recorded_continues(m, s, at, ps);
        crate::append::lemma_append_run_wf(m, s, spec_recorded(m, s, at, ps));
    }
}

/// Durability of a sequence of appends: a file that recovers to `l`,
/// followed by the batches that any number of successful appends wrote,
/// recovers to the log those appends left, so every read, stream version
/// and the global position after a restart are those before it, and the
/// next append continues from there.
pub proof fn law_recover_after_appends(data: Seq<u8>, l: EventLogView, steps: Seq<AppendStep>)
    requires
        spec_recover(data) == RecoverySpec::Clean(l),
        log_wf(l),
        appendable(l, steps),
    ensures
        spec_recover(data + appended_bytes(l, steps)) == RecoverySpec::Clean(after_appends(l, steps)),
    decreases steps.len(),
{
    if steps.len() == 0 {
        assert(data + appended_bytes(l, steps) =~= data);
    } else {
        let dl = steps.drop_last();
        law_recover_after_appends(data, l, dl);
        lemma_after_appends_wf(l, dl);
        let m = after_appends(l, dl);
        let (s, at, ps) = steps.last();
        let before = data + appended_bytes(l, dl);
        law_recover_after_append(before, m, s, at, ps);
        assert(before + spec_encode_batch(m.events.len() as u64, spec_recorded(m, s, at, ps))
            =~= data + appended_bytes(l, steps));
    }
}

/// A recovery that discards a damaged tail at offset `t` is exactly the
/// recovery of the first `t` bytes: after truncating the file there, the next
/// recovery reads every byte and gives back the same log.
pub proof fn law_truncated_recovery_is_clean(data: Seq<u8>)
    requires
        spec_recover(data) is Truncated,
    ensures
        HEADER_SIZE <= spec_recover(data)->Truncated_1 <= data.len(),
        spec_recover(data.subrange(0, spec_recover(data)->Truncated_1 as int))
            == RecoverySpec::Clean(spec_recover(data)->Truncated_0),
{
    let t = spec_recover(data)->Truncated_1 as int;
    lemma_recover_truncate(data, HEADER_SIZE as int, empty_log());
    assert(data.subrange(0, t).subrange(0, HEADER_SIZE as int) =~= data.subrange(
        0,
        HEADER_SIZE as int,
    ));
}

/// A freshly created log file (just its header) recovers to the empty log.
pub proof fn law_new_file_recovers_empty()
    ensures
        spec_recover(spec_file_header()) == RecoverySpec::Clean(empty_log()),
{
    vstd::bytes::lemma_auto_spec_u32_to_from_le_bytes();
    assert(spec_file_header().subrange(0, HEADER_SIZE as int) =~= spec_file_header());
}

// ---------------------------------------------------------------------------
// Executable code
// ---------------------------------------------------------------------------

/// The outcome of a recovery: the rebuilt index, and where to truncate the
/// file when its tail does not hold complete, valid batches.
#[derive(Debug)]
pub struct Recovery {
    /// The in-memory index of every event of the valid batches.
    pub log: EventLog,
    /// Byte offset to truncate the file to, when something must be discarded.
    pub truncate_to: Option<usize>,
}

/// The message that refuses a file of `n` bytes, shorter than its header.
pub open spec fn too_short_message(n: nat) -> Seq<char> {
    "file too short for header: "@ + decimal(n) + " bytes"@
}

/// The message that refuses a file whose first bytes `h` are not the header
/// of this format: the magic bytes are checked first, then the version.
pub open spec fn header_error_message(h: Seq<u8>) -> Seq<char> {
    if le32_at(h, 0) != FILE_HEADER_MAGIC {
        "bad magic bytes in file header"@
    } else {
        "unsupported format version in file header"@
    }
}

/// What an executable recovery result stands for.
pub open spec fn recovery_outcome(r: Result<Recovery, Error>) -> RecoverySpec {
    match r {
        Ok(rec) => match rec.truncate_to {
            None => RecoverySpec::Clean(rec.log@),
            Some(t) => RecoverySpec::Truncated(rec.log@, t as nat),
        },
        Err(Error::InvalidHeader(m)) => if "file too short for header"@.is_prefix_of(m@) {
            RecoverySpec::TooShort
        } else {
            RecoverySpec::BadHeader
        },
        Err(Error::CorruptRecord { position, detail }) => if detail@
            == "mid-file corruption: valid batch follows corrupt data"@ {
            RecoverySpec::MidFileCorruption(position as nat)
        } else {
            RecoverySpec::Inconsistent(position as nat)
        },
        Err(_) => RecoverySpec::BadHeader,
    }
}

/// Whether some offset after `start` holds a decodable batch header, which
/// makes the corruption at `start` mid-file corruption.
pub fn has_valid_batch_after(data: &[u8], start: usize) -> (r: bool)
    ensures
        r == has_batch_after(data@, start as int),
{
    let len = data.len();
    if start >= len {
        return false;
    }
    let mut probe = start + 1;
    while probe < len
        invariant
            start < probe <= len,
            len == data@.len(),
            forall|p: int|
                start < p < probe ==> !(#[trigger] spec_decode_batch_header(tail(data@, p)) is Complete),
        decreases len - probe,
    {
        let found = decode_batch_header(slice_subrange(data, probe, len));
        if let Ok(DecodeOutcome::Complete { .. }) = found {
            assert(spec_decode_batch_header(tail(data@, probe as int)) is Complete);
            return true;
        }
        probe = probe + 1;
    }
    false
}

/// The outcome of finding damage in the batch that starts at `batch_start`:
/// mid-file corruption when a decodable batch header follows it, else the
/// index recovered so far and truncation at the start of the batch.
fn damaged_batch(data: &[u8], batch_start: usize, log: EventLog) -> (r: Result<Recovery, Error>)
    requires
        log.wf(),
        batch_start <= data@.len(),
    ensures
        recovery_outcome(r) == corrupt_at(data@, batch_start as int, log@),
        r matches Ok(rec) ==> rec.log.wf(),
{
    if has_valid_batch_after(data, batch_start) {
        proof {
            reveal_strlit("mid-file corruption: valid batch follows corrupt data");
        }
        return Err(
            Error::CorruptRecord {
                position: log.events.len() as u64,
                detail: String::from_str("mid-file corruption: valid batch follows corrupt data"),
            },
        );
    }
    Ok(Recovery { log, truncate_to: Some(batch_start) })
}

impl EventLog {
    /// Records one recovered event that continues the log.
    fn push_recovered(&mut self, e: RecordedEvent)
        requires
            old(self).wf(),
            continues_log(old(self)@, e@),
        ensures
            final(self).wf(),
            final(self)@ == log_push(old(self)@, e@),
    {
        let ghost l = self@;
        let ghost old_streams = self.streams@;
        let mut positions = match self.streams.remove(&e.stream_id) {
            Some(p) => p,
            None => Vec::new(),
        };
        assert(positions@ == positions_of(l, e.stream_id));
        positions.push(e.global_position);
        let ghost final_positions = positions;
        assert(final_positions@ =~= positions_of(l, e.stream_id) + Seq::new(
            1,
            |i: int| (l.events.len() + i) as u64,
        ));
        self.streams.insert(e.stream_id, positions);
        assert(self.streams@ == old_streams.remove(e.stream_id).insert(e.stream_id, final_positions));
        assert(self@.streams =~= l.streams.insert(e.stream_id, final_positions@));
        let ghost ev = e@;
        proof {
            crate::types::lemma_events_view_push(self.events@, e);
        }
        self.events.push(e);
        proof {
            assert(self@.streams =~= log_push(l, ev).streams);
            assert(self@.events =~= log_push(l, ev).events);
            lemma_log_push_wf(l, ev);
        }
    }
}

/// Rebuilds the index from the bytes of a log file.
///
/// Fails with `InvalidHeader` when the file is shorter than its header or
/// its magic bytes or format version are wrong (the message says which), and
/// with `CorruptRecord` on mid-file corruption (a damaged batch followed by a
/// decodable batch header) or on a valid batch whose records do not continue
/// the log, which the index, where position `i` holds the event at global
/// position `i`, cannot take. Otherwise returns the index of every event of
/// the valid batches and, when bytes after them must be discarded, the
/// offset to truncate to.
pub fn recover(data: &[u8]) -> (r: Result<Recovery, Error>)
    ensures
        recovery_outcome(r) == spec_recover(data@),
        r matches Ok(rec) ==> rec.log.wf(),
        data@.len() < HEADER_SIZE ==> (r matches Err(Error::InvalidHeader(m)) && m@
            == too_short_message(data@.len())),
        data@.len() >= HEADER_SIZE && data@.subrange(0, HEADER_SIZE as int) != spec_file_header()
            ==> (r matches Err(Error::InvalidHeader(m)) && m@ == header_error_message(
            data@.subrange(0, HEADER_SIZE as int),
        )),
{
    let len = data.len();
    if len < HEADER_SIZE {
        let mut m = String::from_str("file too short for header: ");
        m.append(usize_decimal(len).as_str());
        m.append(" bytes");
        proof {
            reveal_strlit("file too short for header");
            reveal_strlit("file too short for header: ");
            assert(m@.subrange(0, 25) =~= "file too short for header"@);
            assert("file too short for header"@.is_prefix_of(m@));
        }
        return Err(Error::InvalidHeader(m));
    }
    match decode_header(slice_subrange(data, 0, HEADER_SIZE)) {
        Ok(()) => {},
        Err(e) => {
            proof {
                reveal_strlit("file too short for header");
                reveal_strlit("bad magic bytes in file header");
                reveal_strlit("unsupported format version in file header");
                assert("file too short for header"@.len() == 25);
                assert("bad magic bytes in file header"@.len() == 30);
                assert("unsupported format version in file header"@.len() == 41);
                assert("bad magic bytes in file header"@[0] != "file too short for header"@[0]);
                assert("unsupported format version in file header"@[0] != "file too short for header"@[0]);
            }
            return Err(e);
        },
    }
    let mut log = EventLog::new();
    let mut offset: usize = HEADER_SIZE;
    while offset < len
        invariant
            HEADER_SIZE <= offset <= len,
            len == data@.len(),
            log.wf(),
            spec_recover(data@) == recover_from(data@, offset as int, log@),
        decreases len - offset,
    {
        let batch_start = offset;
        let header = match decode_batch_header(slice_subrange(data, offset, len)) {
            Ok(DecodeOutcome::Complete { value, consumed }) => {
                offset = offset + consumed;
                value
            },
            Ok(DecodeOutcome::Incomplete) => {
                return Ok(Recovery { log, truncate_to: Some(batch_start) });
            },
            Err(_) => {
                return damaged_batch(data, batch_start, log);
            },
        };
        // Decode the batch's records.
        let mut batch: Vec<RecordedEvent> = Vec::new();
        let mut k: u32 = 0;
        while k < header.record_count
            invariant
                0 <= k <= header.record_count,
                batch_start + BATCH_HEADER_SIZE <= offset <= len,
                len == data@.len(),
                decode_records(data@, batch_start + BATCH_HEADER_SIZE, k as nat) == Some(
                    (events_view(batch@), offset as int),
                ),
                log.wf(),
                HEADER_SIZE <= batch_start < len,
                spec_recover(data@) == recover_from(data@, batch_start as int, log@),
                spec_decode_batch_header(tail(data@, batch_start as int)) == SpecDecode::Complete(
                    header,
                    BATCH_HEADER_SIZE as nat,
                ),
            decreases header.record_count - k,
        {
            match decode_record(slice_subrange(data, offset, len)) {
                Ok(DecodeOutcome::Complete { value, consumed }) => {
                    proof {
                        crate::types::lemma_events_view_push(batch@, value);
                    }
                    batch.push(value);
                    offset = offset + consumed;
                },
                Ok(DecodeOutcome::Incomplete) => {
                    proof {
                        assert(spec_decode_record(tail(data@, offset as int)) is Incomplete);
                        assert(!records_corrupt(
                            data@,
                            batch_start + BATCH_HEADER_SIZE,
                            (k + 1) as nat,
                        ));
                        lemma_records_corrupt_extends(
                            data@,
                            batch_start + BATCH_HEADER_SIZE,
                            (k + 1) as nat,
                            header.record_count as nat,
                        );
                        lemma_decode_records_none_extends(
                            data@,
                            batch_start + BATCH_HEADER_SIZE,
                            (k + 1) as nat,
                            header.record_count as nat,
                        );
                    }
                    return Ok(Recovery { log, truncate_to: Some(batch_start) });
                },
                Err(_) => {
                    proof {
                        lemma_records_corrupt_extends(
                            data@,
                            batch_start + BATCH_HEADER_SIZE,
                            (k + 1) as nat,
                            header.record_count as nat,
                        );
                        lemma_decode_records_none_extends(
                            data@,
                            batch_start + BATCH_HEADER_SIZE,
                            (k + 1) as nat,
                            header.record_count as nat,
                        );
                    }
                    return damaged_batch(data, batch_start, log);
                },
            }
            k = k + 1;
        }
        let records_end = offset;
        let footer = match decode_batch_footer(slice_subrange(data, offset, len)) {
            Ok(DecodeOutcome::Complete { value, consumed }) => {
                offset = offset + consumed;
                value
            },
            Ok(DecodeOutcome::Incomplete) => {
                return Ok(Recovery { log, truncate_to: Some(batch_start) });
            },
            Err(_) => {
                return damaged_batch(data, batch_start, log);
            },
        };
        if footer.batch_crc != crc32(slice_subrange(data, batch_start, records_end)) {
            return damaged_batch(data, batch_start, log);
        }
        // Commit the batch's events to the index.
        let ghost l0 = log@;
        let ghost rs = events_view(batch@);
        let ghost next_offset = offset as int;
        assert(spec_recover(data@) == match push_all(l0, rs) {
            None => RecoverySpec::Inconsistent(l0.events.len()),
            Some(m) => recover_from(data@, next_offset, m),
        });
        let base = log.events.len() as u64;
        let mut j: usize = 0;
        while j < batch.len()
            invariant
                0 <= j <= batch@.len(),
                rs == events_view(batch@),
                log.wf(),
                base == l0.events.len(),
                push_all(l0, rs.take(j as int)) == Some(log@),
                next_offset == offset,
                HEADER_SIZE <= offset <= len,
                len == data@.len(),
                spec_recover(data@) == match push_all(l0, rs) {
                    None => RecoverySpec::Inconsistent(l0.events.len()),
                    Some(m) => recover_from(data@, next_offset, m),
                },
            decreases batch@.len() - j,
        {
            let e = batch[j].duplicate();
            assert(rs[j as int] == e@);
            let next_version = match log.streams.get(&e.stream_id) {
                Some(p) => p.len() as u64,
                None => 0,
            };
            proof {
                if log@.streams.contains_key(e.stream_id) {
                    assert(log@.streams[e.stream_id] == log.streams@[e.stream_id]@);
                }
                assert(rs.take(j + 1).drop_last() =~= rs.take(j as int));
                assert(rs.take(j + 1).last() == e@);
            }
            if e.global_position != log.events.len() as u64 || e.stream_version != next_version
                || log.events.len() as u64 == u64::MAX {
                proof {
                    assert(!continues_log(log@, e@));
                    assert(push_all(l0, rs.take(j + 1)) is None);
                    lemma_push_all_none_extends(l0, rs, j as int + 1);
                    reveal_strlit("mid-file corruption: valid batch follows corrupt data");
                    reveal_strlit("record positions do not continue the log");
                    assert("record positions do not continue the log"@.len() == 40);
                    assert("mid-file corruption: valid batch follows corrupt data"@.len() == 53);
                }
                return Err(
                    Error::CorruptRecord {
                        position: base,
                        detail: String::from_str("record positions do not continue the log"),
                    },
                );
            }
            log.push_recovered(e);
            j = j + 1;
        }
        proof {
            assert(rs.take(batch@.len() as int) =~= rs);
        }
    }
    Ok(Recovery { log, truncate_to: None })
}

} // verus!
