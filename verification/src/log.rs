//! The in-memory index of the event log: the global event sequence and the
//! per-stream lists of global positions, with the read operations and the
//! planning and committing of appends.

use std::collections::HashMap;
use vstd::prelude::*;

use vstd::utf8::*;

use crate::error::Error;
use crate::ids::{lemma_uuid_text_injective, uuid_hyphenated, uuid_to_string};
use crate::lex::{lemma_encode_injective, lemma_lex_irreflexive, lemma_lex_total, lemma_lex_transitive, str_less, str_lt};
use crate::types::{events_view, lemma_events_view_push, RecordedEvent, RecordedEventView, StreamInfo};

verus! {

broadcast use vstd::std_specs::hash::group_hash_axioms;

/// The global event log and the stream index.
///
/// `events[i]` is the event at global position `i`; `streams[s][j]` is the
/// global position of version `j` of stream `s`.
#[derive(Debug)]
pub struct EventLog {
    /// Global event log, in global position order.
    pub events: Vec<RecordedEvent>,
    /// Stream index: stream id to the global positions of its events.
    pub streams: HashMap<u128, Vec<u64>>,
}

/// Mathematical model of the event log.
pub struct EventLogView {
    pub events: Seq<RecordedEventView>,
    pub streams: Map<u128, Seq<u64>>,
}

impl View for EventLog {
    type V = EventLogView;

    open spec fn view(&self) -> EventLogView {
        EventLogView {
            events: events_view(self.events@),
            streams: self.streams@.map_values(|v: Vec<u64>| v@),
        }
    }
}

/// The log invariant: positions are contiguous and the stream index lists,
/// for every stream, exactly the positions of its events in version order.
pub open spec fn log_wf(l: EventLogView) -> bool {
    &&& l.events.len() <= u64::MAX
    &&& forall|i: int| 0 <= i < l.events.len() ==> #[trigger] l.events[i].global_position == i
    &&& forall|s: u128|
        #[trigger] l.streams.contains_key(s) ==> 0 < l.streams[s].len() <= l.events.len()
    &&& forall|s: u128, j: int|
        #![trigger l.streams[s][j]]
        l.streams.contains_key(s) && 0 <= j < l.streams[s].len() ==> {
            let p = l.streams[s][j] as int;
            &&& 0 <= p < l.events.len()
            &&& l.events[p].stream_id == s
            &&& l.events[p].stream_version == j
        }
    &&& forall|i: int|
        #![trigger l.events[i]]
        0 <= i < l.events.len() ==> {
            let e = l.events[i];
            &&& l.streams.contains_key(e.stream_id)
            &&& e.stream_version < l.streams[e.stream_id].len()
            &&& l.streams[e.stream_id][e.stream_version as int] == i
        }
}

/// The empty log.
pub open spec fn empty_log() -> EventLogView {
    EventLogView { events: Seq::empty(), streams: Map::empty() }
}

/// Number of events stream `s` holds.
pub open spec fn stream_len(l: EventLogView, s: u128) -> nat {
    if l.streams.contains_key(s) {
        l.streams[s].len()
    } else {
        0
    }
}

/// The version of the last event of stream `s`, if the stream exists.
pub open spec fn spec_stream_version(l: EventLogView, s: u128) -> Option<u64> {
    if l.streams.contains_key(s) {
        Some((l.streams[s].len() - 1) as u64)
    } else {
        None
    }
}

/// The smaller of two integers.
pub open spec fn min_int(a: int, b: int) -> int {
    if a <= b {
        a
    } else {
        b
    }
}

/// The events at global positions `from .. from + max`, cut at the end of the log.
pub open spec fn spec_read_all(l: EventLogView, from: u64, max: u64) -> Seq<RecordedEventView> {
    let len = l.events.len() as int;
    l.events.subrange(min_int(from as int, len), min_int(from + max, len))
}

/// The events of stream `s` at versions `from .. from + max`, cut at the end
/// of the stream; `None` when the stream does not exist.
pub open spec fn spec_read_stream(l: EventLogView, s: u128, from: u64, max: u64) -> Option<
    Seq<RecordedEventView>,
> {
    if l.streams.contains_key(s) {
        let positions = l.streams[s];
        let len = positions.len() as int;
        let start = min_int(from as int, len);
        let end = min_int(from + max, len);
        Some(Seq::new((end - start) as nat, |k: int| l.events[positions[start + k] as int]))
    } else {
        None
    }
}

/// The summary of stream `s`.
pub open spec fn spec_stream_info(l: EventLogView, s: u128) -> StreamInfo {
    StreamInfo {
        stream_id: s,
        event_count: l.streams[s].len() as u64,
        latest_version: (l.streams[s].len() - 1) as u64,
    }
}

/// `infos` lists each existing stream once, with its summary, ordered by
/// the text of the stream ids as Rust orders strings.
pub open spec fn lists_streams(l: EventLogView, infos: Seq<StreamInfo>) -> bool {
    &&& sorted_by_text(infos)
    &&& distinct_ids(infos)
    &&& forall|i: int|
        0 <= i < infos.len() ==> l.streams.contains_key(#[trigger] infos[i].stream_id) && infos[i]
            == spec_stream_info(l, infos[i].stream_id)
    &&& forall|s: u128|
        #[trigger] l.streams.contains_key(s) ==> exists|i: int|
            0 <= i < infos.len() && #[trigger] infos[i].stream_id == s
}

/// The text of a stream id.
pub open spec fn id_text(id: u128) -> Seq<char> {
    uuid_hyphenated(id)
}

/// No summary's id text comes before that of a summary listed earlier.
pub open spec fn sorted_by_text(s: Seq<StreamInfo>) -> bool {
    forall|i: int, j: int|
        0 <= i < j < s.len() ==> !str_lt(
            id_text(#[trigger] s[j].stream_id),
            id_text(#[trigger] s[i].stream_id),
        )
}

/// Inserts `info` into the text-ordered `out` after every summary whose id
/// text does not come after its own.
fn insert_by_text(out: &mut Vec<StreamInfo>, info: StreamInfo)
    requires
        sorted_by_text(old(out)@),
        distinct_ids(old(out)@),
        forall|i: int| 0 <= i < old(out)@.len() ==> #[trigger] old(out)@[i].stream_id != info.stream_id,
    ensures
        sorted_by_text(final(out)@),
        distinct_ids(final(out)@),
        final(out)@.len() == old(out)@.len() + 1,
        forall|x: StreamInfo| #[trigger] final(out)@.contains(x) <==> (old(out)@.contains(x) || x == info),
{
    let text = uuid_to_string(info.stream_id);
    let mut pos: usize = 0;
    while pos < out.len()
        invariant
            0 <= pos <= out@.len(),
            out@ == old(out)@,
            text@ == id_text(info.stream_id),
            forall|i: int| 0 <= i < pos ==> !str_lt(text@, id_text(#[trigger] out@[i].stream_id)),
        ensures
            0 <= pos <= out@.len(),
            out@ == old(out)@,
            forall|i: int| 0 <= i < pos ==> !str_lt(text@, id_text(#[trigger] out@[i].stream_id)),
            pos < out@.len() ==> str_lt(text@, id_text(out@[pos as int].stream_id)),
        decreases out@.len() - pos,
    {
        let other = uuid_to_string(out[pos].stream_id);
        if str_less(text.as_str(), other.as_str()) {
            break;
        }
        pos = pos + 1;
    }
    let ghost before = out@;
    out.insert(pos, info);
    proof {
        let after = out@;
        assert(after =~= before.insert(pos as int, info));
        assert forall|a: int, b: int| 0 <= a < b < after.len() implies !str_lt(
            id_text(#[trigger] after[b].stream_id),
            id_text(#[trigger] after[a].stream_id),
        ) by {
            if b < pos {
                assert(after[a] == before[a] && after[b] == before[b]);
            } else if a > pos {
                assert(after[a] == before[a - 1] && after[b] == before[b - 1]);
            } else if b == pos {
                assert(after[a] == before[a]);
            } else if a == pos {
                let q = b - 1;
                assert(after[b] == before[q]);
                let tq = encode_utf8(id_text(before[q].stream_id));
                let tp = encode_utf8(id_text(before[pos as int].stream_id));
                let tn = encode_utf8(text@);
                if str_lt(id_text(before[q].stream_id), text@) {
                    lemma_lex_transitive(tq, tn, tp);
                    if q == pos {
                        lemma_lex_irreflexive(tq);
                    }
                }
            } else {
                assert(after[a] == before[a] && after[b] == before[b - 1]);
            }
        }
        assert forall|a: int, b: int| 0 <= a < b < after.len() implies #[trigger] after[a].stream_id
            != #[trigger] after[b].stream_id by {
            if b < pos {
                assert(after[a] == before[a] && after[b] == before[b]);
            } else if a > pos {
                assert(after[a] == before[a - 1] && after[b] == before[b - 1]);
            } else if b == pos {
                assert(after[a] == before[a]);
            } else if a == pos {
                assert(after[b] == before[b - 1]);
            } else {
                assert(after[a] == before[a] && after[b] == before[b - 1]);
            }
        }
        assert forall|x: StreamInfo| #[trigger] after.contains(x) <==> (before.contains(x) || x == info) by {
            if after.contains(x) {
                let k = choose|k: int| 0 <= k < after.len() && after[k] == x;
                if k < pos {
                    assert(before[k] == x);
                } else if k > pos {
                    assert(before[k - 1] == x);
                }
            }
            if before.contains(x) {
                let k = choose|k: int| 0 <= k < before.len() && before[k] == x;
                if k < pos {
                    assert(after[k] == x);
                } else {
                    assert(after[k + 1] == x);
                }
            }
            if x == info {
                assert(after[pos as int] == x);
            }
        }
    }
}

/// No two summaries share a stream id.
pub open spec fn distinct_ids(s: Seq<StreamInfo>) -> bool {
    forall|i: int, j: int| 0 <= i < j < s.len() ==> #[trigger] s[i].stream_id != #[trigger] s[j].stream_id
}

impl EventLog {
    /// The invariant of the log.
    pub open spec fn wf(&self) -> bool {
        log_wf(self@)
    }

    /// An empty log.
    pub fn new() -> (r: EventLog)
        ensures
            r.wf(),
            r@ == empty_log(),
    {
        let r = EventLog { events: Vec::new(), streams: HashMap::new() };
        assert(r@.streams =~= Map::empty());
        assert(r@.events =~= Seq::empty());
        r
    }

    /// The current version of stream `stream_id` (the index of its last
    /// event), or `None` when the stream does not exist.
    pub fn stream_version(&self, stream_id: &u128) -> (r: Option<u64>)
        requires
            self.wf(),
        ensures
            r == spec_stream_version(self@, *stream_id),
    {
        match self.streams.get(stream_id) {
            Some(positions) => {
                assert(self@.streams.contains_key(*stream_id));
                assert(self@.streams[*stream_id] == positions@);
                Some((positions.len() - 1) as u64)
            },
            None => None,
        }
    }

    /// The next global position: the number of events in the log.
    pub fn global_position(&self) -> (r: u64)
        requires
            self.wf(),
        ensures
            r == self@.events.len(),
    {
        self.events.len() as u64
    }

    /// The events at global positions `from_position .. from_position + max_count`,
    /// cut at the end of the log. Empty when `from_position` is at or past the end.
    pub fn read_all(&self, from_position: u64, max_count: u64) -> (r: Vec<RecordedEvent>)
        requires
            self.wf(),
        ensures
            events_view(r@) == spec_read_all(self@, from_position, max_count),
    {
        let len = self.events.len();
        let start = if (from_position as u128) < (len as u128) {
            from_position as usize
        } else {
            len
        };
        let reach = from_position.saturating_add(max_count);
        let end = if (reach as u128) < (len as u128) {
            reach as usize
        } else {
            len
        };
        let mut out: Vec<RecordedEvent> = Vec::new();
        let mut i = start;
        while i < end
            invariant
                start <= i <= end <= len,
                len == self@.events.len(),
                self@.events.len() == self.events@.len(),
                events_view(out@) =~= self@.events.subrange(start as int, i as int),
            decreases end - i,
        {
            let e_ref = &self.events[i];
            assert(*e_ref == self.events@[i as int]);
            let e = e_ref.duplicate();
            assert(self@.events[i as int] == self.events@[i as int]@);
            proof {
                lemma_events_view_push(out@, e);
            }
            out.push(e);
            i = i + 1;
        }
        assert(start == min_int(from_position as int, len as int));
        out
    }

    /// The events of stream `stream_id` at versions `from_version .. from_version + max_count`,
    /// cut at the end of the stream.
    ///
    /// Fails with `StreamNotFound` exactly when the stream does not exist.
    pub fn read_stream(&self, stream_id: u128, from_version: u64, max_count: u64) -> (r: Result<
        Vec<RecordedEvent>,
        Error,
    >)
        requires
            self.wf(),
        ensures
            match r {
                Ok(v) => spec_read_stream(self@, stream_id, from_version, max_count) == Some(
                    events_view(v@),
                ),
                Err(e) => spec_read_stream(self@, stream_id, from_version, max_count) is None
                    && e == Error::StreamNotFound { stream_id },
            },
    {
        let positions = match self.streams.get(&stream_id) {
            Some(p) => p,
            None => {
                return Err(Error::StreamNotFound { stream_id });
            },
        };
        let ghost l = self@;
        assert(l.streams[stream_id] == positions@);
        let stream_len = positions.len();
        let total = self.events.len();
        let start = if (from_version as u128) < (stream_len as u128) {
            from_version as usize
        } else {
            stream_len
        };
        let reach = from_version.saturating_add(max_count);
        let end = if (reach as u128) < (stream_len as u128) {
            reach as usize
        } else {
            stream_len
        };
        let mut out: Vec<RecordedEvent> = Vec::new();
        let mut i = start;
        while i < end
            invariant
                start <= i <= end <= stream_len,
                stream_len == positions@.len(),
                l == self@,
                log_wf(l),
                l.events.len() == self.events@.len(),
                total == self.events@.len(),
                l.streams.contains_key(stream_id),
                l.streams[stream_id] == positions@,
                events_view(out@) =~= Seq::new(
                    (i - start) as nat,
                    |k: int| l.events[positions@[start + k] as int],
                ),
            decreases end - i,
        {
            let p = positions[i];
            assert(l.streams[stream_id][i as int] == p);
            assert(l.events[p as int] == self.events@[p as int]@);
            assert(0 <= p < l.events.len());
            let pu = p as usize;
            let e_ref = &self.events[pu];
            assert(*e_ref == self.events@[p as int]);
            let e = e_ref.duplicate();
            proof {
                lemma_events_view_push(out@, e);
            }
            out.push(e);
            i = i + 1;
        }
        Ok(out)
    }

    /// One summary per stream (event count and latest version), ordered by
    /// the text of the stream ids. Reads only the stream index.
    pub fn list_streams(&self) -> (r: Vec<StreamInfo>)
        requires
            self.wf(),
        ensures
            lists_streams(self@, r@),
    {
        let ghost l = self@;
        let ghost mut seen: Set<u128> = Set::empty();
        let mut out: Vec<StreamInfo> = Vec::new();
        for (id, positions) in it: self.streams.iter()
            invariant
                l == self@,
                log_wf(l),
                it.seq().no_duplicates(),
                forall|j: int|
                    0 <= j < it.seq().len() ==> self.streams@.contains_key(
                        *(#[trigger] it.seq()[j]).0,
                    ) && self.streams@[*it.seq()[j].0] == *it.seq()[j].1,
                forall|k: u128|
                    #[trigger] self.streams@.contains_key(k) ==> (seen.contains(k) || exists|j: int|
                        it.index() <= j < it.seq().len() && *it.seq()[j].0 == k),
                forall|k: u128|
                    #[trigger] seen.contains(k) ==> exists|j: int|
                        0 <= j < it.index() && *it.seq()[j].0 == k,
                sorted_by_text(out@),
                distinct_ids(out@),
                forall|x: StreamInfo|
                    #[trigger] out@.contains(x) ==> l.streams.contains_key(x.stream_id) && x
                        == spec_stream_info(l, x.stream_id) && seen.contains(x.stream_id),
                forall|k: u128| #[trigger] seen.contains(k) ==> out@.contains(spec_stream_info(l, k)),
        {
            let ghost idx = it.index();
            assert(it.seq()[idx] == (id, positions));
            assert(self.streams@.contains_key(*id));
            assert(l.streams.contains_key(*id));
            assert(l.streams[*id] == positions@);
            assert(positions@.len() > 0);
            let count = positions.len() as u64;
            let info = StreamInfo { stream_id: *id, event_count: count, latest_version: count - 1 };
            assert(info == spec_stream_info(l, *id));
            assert(!seen.contains(*id)) by {
                if seen.contains(*id) {
                    let j = choose|j: int| 0 <= j < idx && *it.seq()[j].0 == *id;
                    assert(it.seq()[j] == it.seq()[idx]);
                }
            }
            assert forall|i: int| 0 <= i < out@.len() implies #[trigger] out@[i].stream_id
                != info.stream_id by {
                assert(out@.contains(out@[i]));
            }
            insert_by_text(&mut out, info);
            proof {
                seen = seen.insert(*id);
                assert forall|k: u128| #[trigger] seen.contains(k) implies exists|j: int|
                    0 <= j < it.index() + 1 && *it.seq()[j].0 == k by {
                    if k == *id {
                        assert(*it.seq()[idx].0 == k);
                    }
                }
                assert forall|k: u128| #[trigger] self.streams@.contains_key(k) implies (seen.contains(k)
                    || exists|j: int| it.index() + 1 <= j < it.seq().len() && *it.seq()[j].0 == k) by {
                    if !seen.contains(k) {
                        let j = choose|j: int| it.index() <= j < it.seq().len() && *it.seq()[j].0 == k;
                        assert(j != idx);
                    }
                }
            }
        }
        proof {
            assert forall|i: int| 0 <= i < out@.len() implies l.streams.contains_key(
                #[trigger] out@[i].stream_id,
            ) && out@[i] == spec_stream_info(l, out@[i].stream_id) by {
                assert(out@.contains(out@[i]));
            }
            assert forall|s: u128| #[trigger] l.streams.contains_key(s) implies exists|i: int|
                0 <= i < out@.len() && #[trigger] out@[i].stream_id == s by {
                assert(self.streams@.contains_key(s));
                assert(seen.contains(s));
                assert(out@.contains(spec_stream_info(l, s)));
                let i = choose|i: int| 0 <= i < out@.len() && out@[i] == spec_stream_info(l, s);
                assert(out@[i].stream_id == s);
            }
        }
        out
    }
}

/// The stream list is strictly ordered by the text of the stream ids, as
/// sorting the texts orders them: different streams have different texts,
/// so no two listed streams tie.
pub proof fn law_listed_streams_strictly_ordered(l: EventLogView, infos: Seq<StreamInfo>, i: int, j: int)
    requires
        lists_streams(l, infos),
        0 <= i < j < infos.len(),
    ensures
        str_lt(id_text(infos[i].stream_id), id_text(infos[j].stream_id)),
{
    let a = id_text(infos[i].stream_id);
    let b = id_text(infos[j].stream_id);
    assert(infos[i].stream_id != infos[j].stream_id);
    if a == b {
        lemma_uuid_text_injective(infos[i].stream_id, infos[j].stream_id);
    }
    lemma_encode_injective(a, b);
    lemma_lex_total(vstd::utf8::encode_utf8(a), vstd::utf8::encode_utf8(b));
    assert(!str_lt(b, a));
}

} // verus!
