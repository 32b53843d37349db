//! The decisions of a subscription: replaying history in batches, then
//! forwarding live events without repeating any that the replay delivered.
//!
//! A subscriber registers for live events before it reads history, so an
//! event appended during the replay reaches it twice: once from the log and
//! once live. The cursor remembers the last position (or stream version)
//! replayed, and the live phase forwards only what lies beyond it.

use vstd::prelude::*;

use vstd::string::*;

use crate::error::Error;
use crate::types::RecordedEvent;

verus! {

/// Number of events read per batch during the catch-up phase.
pub const CATCHUP_BATCH_SIZE: u64 = 500;

/// Progress of a subscription's catch-up phase.
pub struct CatchUp {
    /// Where the next catch-up read starts (a global position, or a stream
    /// version for a stream subscription).
    pub cursor: u64,
    /// The position (or version) of the last event replayed, if any.
    pub last: Option<u64>,
}

/// `keys` is strictly ascending.
pub open spec fn ascending(keys: Seq<u64>) -> bool {
    forall|i: int, j: int| 0 <= i < j < keys.len() ==> #[trigger] keys[i] < #[trigger] keys[j]
}

/// The catch-up state after replaying events whose keys are `keys`, in order.
pub open spec fn advanced(c: CatchUp, keys: Seq<u64>) -> CatchUp {
    if keys.len() == 0 {
        c
    } else {
        CatchUp { cursor: (keys.last() + 1) as u64, last: Some(keys.last()) }
    }
}

/// Whether a live event with key `k` lies beyond the replayed ones.
pub open spec fn beyond(last: Option<u64>, k: u64) -> bool {
    match last {
        Some(l) => k > l,
        None => true,
    }
}

impl CatchUp {
    /// A catch-up starting at `from`, nothing replayed yet.
    pub fn new(from: u64) -> (r: CatchUp)
        ensures
            r.cursor == from,
            r.last is None,
    {
        CatchUp { cursor: from, last: None }
    }

    /// Records that the events of a catch-up batch of the global log were
    /// delivered: the cursor moves past the last one, which becomes the last
    /// replayed position. Returns whether the catch-up is over, that is,
    /// whether the batch was shorter than `CATCHUP_BATCH_SIZE`.
    pub fn advance_all(&mut self, batch: &[RecordedEvent]) -> (done: bool)
        requires
            forall|i: int| 0 <= i < batch@.len() ==> #[trigger] batch@[i].global_position < u64::MAX,
        ensures
            done == (batch@.len() < CATCHUP_BATCH_SIZE),
            *final(self) == advanced(
                *old(self),
                batch@.map_values(|e: RecordedEvent| e.global_position),
            ),
    {
        let n = batch.len();
        if n > 0 {
            let p = batch[n - 1].global_position;
            self.cursor = p + 1;
            self.last = Some(p);
        }
        (n as u64) < CATCHUP_BATCH_SIZE
    }

    /// Records that the events of a catch-up batch of one stream were
    /// delivered: the cursor moves past the last version, which becomes the
    /// last replayed version. Returns whether the catch-up is over.
    pub fn advance_stream(&mut self, batch: &[RecordedEvent]) -> (done: bool)
        requires
            forall|i: int| 0 <= i < batch@.len() ==> #[trigger] batch@[i].stream_version < u64::MAX,
        ensures
            done == (batch@.len() < CATCHUP_BATCH_SIZE),
            *final(self) == advanced(
                *old(self),
                batch@.map_values(|e: RecordedEvent| e.stream_version),
            ),
    {
        let n = batch.len();
        if n > 0 {
            let v = batch[n - 1].stream_version;
            self.cursor = v + 1;
            self.last = Some(v);
        }
        (n as u64) < CATCHUP_BATCH_SIZE
    }
}

/// What the receiver of live events handed over.
pub enum Received {
    /// A published event, by its stream, version and global position.
    Event { stream_id: u128, stream_version: u64, global_position: u64 },
    /// The subscriber fell behind and events were dropped for it.
    Lagged,
    /// No publisher remains.
    Closed,
}

/// What the live phase of a subscription does next.
#[derive(Debug)]
pub enum LiveStep {
    /// Deliver the event.
    Forward,
    /// Drop the event: it was replayed, or belongs to another stream.
    Skip,
    /// End the subscription with this error.
    Fail(Error),
    /// End the subscription quietly.
    End,
}

/// The message that ends a subscription whose receiver lagged.
pub open spec fn lagged_message() -> Seq<char> {
    "subscription lagged: re-subscribe from last checkpoint"@
}

/// `step` ends the subscription on a lag with the lag error, and quietly
/// when the channel closed.
pub open spec fn ends_on(r: Received, step: LiveStep) -> bool {
    match r {
        Received::Lagged => step matches LiveStep::Fail(Error::InvalidArgument(m)) && m@
            == lagged_message(),
        Received::Closed => step is End,
        Received::Event { .. } => true,
    }
}

/// The lag error, which tells the subscriber to subscribe again.
fn lagged_step() -> (step: LiveStep)
    ensures
        step matches LiveStep::Fail(Error::InvalidArgument(m)) && m@ == lagged_message(),
{
    LiveStep::Fail(
        Error::InvalidArgument(String::from_str("subscription lagged: re-subscribe from last checkpoint")),
    )
}

impl CatchUp {
    /// The next step of a subscription to the global log in its live
    /// phase: forward an event beyond the replay, skip a replayed one, fail
    /// on a lag, end when the channel closed.
    pub fn live_step_all(&self, r: Received) -> (step: LiveStep)
        ensures
            ends_on(r, step),
            r matches Received::Event { global_position, .. } ==> (if beyond(self.last, global_position) {
                step is Forward
            } else {
                step is Skip
            }),
    {
        match r {
            Received::Event { global_position, .. } => {
                let forward = match self.last {
                    Some(p) => global_position > p,
                    None => true,
                };
                if forward {
                    LiveStep::Forward
                } else {
                    LiveStep::Skip
                }
            },
            Received::Lagged => lagged_step(),
            Received::Closed => LiveStep::End,
        }
    }

    /// The next step of a subscription to stream `stream_id` in its live
    /// phase: forward an event of that stream beyond the replay, skip any
    /// other, fail on a lag, end when the channel closed.
    pub fn live_step_stream(&self, stream_id: u128, r: Received) -> (step: LiveStep)
        ensures
            ends_on(r, step),
            r matches Received::Event { stream_id: s, stream_version, .. } ==> (if s == stream_id
                && beyond(self.last, stream_version) {
                step is Forward
            } else {
                step is Skip
            }),
    {
        match r {
            Received::Event { stream_id: s, stream_version, .. } => {
                let forward = s == stream_id && match self.last {
                    Some(v) => stream_version > v,
                    None => true,
                };
                if forward {
                    LiveStep::Forward
                } else {
                    LiveStep::Skip
                }
            },
            Received::Lagged => lagged_step(),
            Received::Closed => LiveStep::End,
        }
    }
}

/// What the catch-up of a stream subscription does when a read of the
/// stream fails: a stream that does not exist (yet) has nothing to replay,
/// so the catch-up ends without error; any other error ends the
/// subscription with that error.
pub fn catch_up_read_failed(e: Error) -> (r: Option<Error>)
    ensures
        e is StreamNotFound ==> r is None,
        !(e is StreamNotFound) ==> r == Some(e),
{
    match e {
        Error::StreamNotFound { .. } => None,
        other => Some(other),
    }
}

/// No event twice, none lost: after a replay that delivered events with
/// strictly ascending keys `keys`, a live event is forwarded exactly when its
/// key lies beyond all of them, so no replayed event is forwarded again, and
/// every later one is.
pub proof fn law_live_skips_exactly_replayed(c: CatchUp, keys: Seq<u64>, k: u64)
    requires
        c.last is None,
        ascending(keys),
    ensures
        beyond(advanced(c, keys).last, k) <==> forall|i: int| 0 <= i < keys.len() ==> keys[i] < k,
        beyond(advanced(c, keys).last, k) ==> !keys.contains(k),
{
    if keys.len() > 0 {
        let l = keys.last();
        if k > l {
            assert forall|i: int| 0 <= i < keys.len() implies keys[i] < k by {
                if i < keys.len() - 1 {
                    assert(keys[i] < keys[keys.len() - 1]);
                }
            }
        }
    }
}

/// The keys `start, start + 1, ..., start + n - 1`.
pub open spec fn key_run(start: int, n: nat) -> Seq<u64> {
    Seq::new(n, |i: int| (start + i) as u64)
}

/// The keys of the live events `live` that a subscription forwards after
/// replaying up to `last`, in the order they arrive.
pub open spec fn forwarded(last: Option<u64>, live: Seq<u64>) -> Seq<u64>
    decreases live.len(),
{
    if live.len() == 0 {
        Seq::empty()
    } else {
        let rest = forwarded(last, live.drop_last());
        if beyond(last, live.last()) {
            rest.push(live.last())
        } else {
            rest
        }
    }
}

/// Forwarding live keys that run on from `p0`, after replaying up to `b`
/// (with `p0 <= b + 1`), gives the keys from `b + 1` on.
proof fn lemma_forwarded_run(b: u64, p0: int, k: nat)
    requires
        0 <= p0 <= b + 1,
        p0 + k <= u64::MAX + 1,
    ensures
        forwarded(Some(b), key_run(p0, k)) == key_run(
            b + 1,
            if p0 + k > b + 1 {
                (p0 + k - b - 1) as nat
            } else {
                0
            },
        ),
    decreases k,
{
    if k > 0 {
        lemma_forwarded_run(b, p0, (k - 1) as nat);
        assert(key_run(p0, k).drop_last() =~= key_run(p0, (k - 1) as nat));
        if p0 + k - 1 > b {
            assert(key_run(b + 1, (p0 + k - 1 - b - 1) as nat).push((p0 + k - 1) as u64) =~= key_run(
                b + 1,
                (p0 + k - b - 1) as nat,
            ));
        }
    }
}

/// With nothing replayed, every live key is forwarded.
proof fn lemma_forwarded_all(live: Seq<u64>)
    ensures
        forwarded(None, live) == live,
    decreases live.len(),
{
    if live.len() > 0 {
        lemma_forwarded_all(live.drop_last());
        assert(live.drop_last().push(live.last()) =~= live);
    }
}

/// No gap and no repeat between replay and live: a subscription from `from`
/// replays the keys `from .. from + n` from the log; it registered for live
/// events, which arrive with the keys that run on from `p0`, at a moment when
/// the log ended at `p0` (so `from <= p0 <= from + n`). What it delivers,
/// the replay and then the forwarded live events, is exactly the keys from
/// `from` on, each once, in order.
pub proof fn law_replay_then_live_is_gapless(c: CatchUp, from: u64, n: nat, p0: u64, k: nat)
    requires
        c.last is None,
        from <= p0 <= from + n,
        from + n <= u64::MAX,
        p0 + k <= u64::MAX,
    ensures
        ({
            let replay = key_run(from as int, n);
            let end = if p0 + k > from + n {
                p0 + k
            } else {
                from + n
            };
            replay + forwarded(advanced(c, replay).last, key_run(p0 as int, k)) == key_run(
                from as int,
                (end - from) as nat,
            )
        }),
{
    let replay = key_run(from as int, n);
    let live = key_run(p0 as int, k);
    if n == 0 {
        lemma_forwarded_all(live);
        assert(replay + live =~= key_run(from as int, k));
    } else {
        let b = (from + n - 1) as u64;
        assert(advanced(c, replay).last == Some(b));
        lemma_forwarded_run(b, p0 as int, k);
        let end = if p0 + k > from + n {
            p0 + k
        } else {
            from + n
        };
        assert(replay + forwarded(Some(b), live) =~= key_run(from as int, (end - from) as nat));
    }
}

/// Replaying two batches one after the other leaves the same state as
/// replaying their concatenation.
pub proof fn law_advance_concat(c: CatchUp, a: Seq<u64>, b: Seq<u64>)
    ensures
        advanced(advanced(c, a), b) == advanced(c, a + b),
{
    if b.len() > 0 {
        assert((a + b).last() == b.last());
    } else {
        assert(a + b =~= a);
    }
}

} // verus!
