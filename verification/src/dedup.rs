//! Bounded LRU deduplication index for idempotent appends.
//!
//! Tracks recently written event IDs so that a retried append can be
//! recognised and answered with the events it recorded the first time. The
//! cache is an `lru::LruCache` keyed by event ID; each entry holds the whole
//! batch its event was written in.

use std::collections::hash_map::RandomState;
use std::sync::Arc;
use vstd::prelude::*;

use lru::LruCache;

use crate::types::{events_view, ProposedEvent, RecordedEvent, RecordedEventView};

verus! {

/// The LRU cache of the `lru` crate, carried opaquely.
#[verifier::external_type_specification]
#[verifier::external_body]
#[verifier::reject_recursive_types(K)]
#[verifier::reject_recursive_types(V)]
#[verifier::reject_recursive_types(S)]
pub struct ExLruCache<K, V, S>(lru::LruCache<K, V, S>);

/// A cached batch: the events of one append, in order.
pub type Batch = Arc<Vec<RecordedEvent>>;

/// The entries of the cache, least recently used first: each event id with
/// the batch it maps to.
pub uninterp spec fn lru_entries(c: LruCache<u128, Batch, RandomState>) -> Seq<(u128, Seq<RecordedEventView>)>;

/// The capacity the cache was created with.
pub uninterp spec fn lru_capacity(c: LruCache<u128, Batch, RandomState>) -> nat;

/// The model of a cached batch.
pub open spec fn batch_view(b: Batch) -> Seq<RecordedEventView> {
    events_view((*b)@)
}

/// `k` is a key of the entries.
pub open spec fn has_key(es: Seq<(u128, Seq<RecordedEventView>)>, k: u128) -> bool {
    exists|i: int| 0 <= i < es.len() && #[trigger] es[i].0 == k
}

/// The index of key `k` in the entries.
pub open spec fn key_index(es: Seq<(u128, Seq<RecordedEventView>)>, k: u128) -> int {
    choose|i: int| 0 <= i < es.len() && #[trigger] es[i].0 == k
}

/// No key occurs twice.
pub open spec fn distinct_keys(es: Seq<(u128, Seq<RecordedEventView>)>) -> bool {
    forall|i: int, j: int| 0 <= i < j < es.len() ==> #[trigger] es[i].0 != #[trigger] es[j].0
}

/// The entries after a lookup of `k`: a present key becomes the most recently used.
pub open spec fn lru_touch(es: Seq<(u128, Seq<RecordedEventView>)>, k: u128) -> Seq<
    (u128, Seq<RecordedEventView>),
> {
    if has_key(es, k) {
        es.remove(key_index(es, k)).push(es[key_index(es, k)])
    } else {
        es
    }
}

/// The entries after putting `(k, v)`: a present key is updated and becomes
/// the most recently used; otherwise, when the cache is full, the least
/// recently used entry is evicted before the new one is added.
pub open spec fn lru_insert(
    es: Seq<(u128, Seq<RecordedEventView>)>,
    cap: nat,
    k: u128,
    v: Seq<RecordedEventView>,
) -> Seq<(u128, Seq<RecordedEventView>)> {
    if has_key(es, k) {
        es.remove(key_index(es, k)).push((k, v))
    } else if es.len() >= cap {
        es.drop_first().push((k, v))
    } else {
        es.push((k, v))
    }
}

/// Calls `LruCache::with_hasher` with capacity `cap` and the standard
/// hasher: an empty cache of that capacity.
#[verifier::external_body]
fn lru_new(cap: usize) -> (c: LruCache<u128, Batch, RandomState>)
    requires
        cap > 0,
    ensures
        lru_entries(c) == Seq::<(u128, Seq<RecordedEventView>)>::empty(),
        lru_capacity(c) == cap,
{
    LruCache::with_hasher(std::num::NonZeroUsize::new(cap).unwrap(), RandomState::new())
}

/// Calls `LruCache::get` for key `k` and clones the `Arc` found: the batch
/// stored under `k`, if any; the key becomes the most recently used.
#[verifier::external_body]
fn lru_get(c: &mut LruCache<u128, Batch, RandomState>, k: u128) -> (r: Option<Batch>)
    ensures
        lru_entries(*final(c)) == lru_touch(lru_entries(*old(c)), k),
        lru_capacity(*final(c)) == lru_capacity(*old(c)),
        match r {
            Some(b) => has_key(lru_entries(*old(c)), k) && batch_view(b) == lru_entries(
                *old(c),
            )[key_index(lru_entries(*old(c)), k)].1,
            None => !has_key(lru_entries(*old(c)), k),
        },
{
    c.get(&k).cloned()
}

/// Calls `LruCache::put` with key `k` and a clone of the `Arc` `v`.
#[verifier::external_body]
fn lru_put(c: &mut LruCache<u128, Batch, RandomState>, k: u128, v: &Batch)
    ensures
        lru_entries(*final(c)) == lru_insert(
            lru_entries(*old(c)),
            lru_capacity(*old(c)),
            k,
            batch_view(*v),
        ),
        lru_capacity(*final(c)) == lru_capacity(*old(c)),
{
    c.put(k, Arc::clone(v));
}

/// Mathematical model of the dedup index.
pub struct DedupView {
    /// Cached entries, least recently used first.
    pub entries: Seq<(u128, Seq<RecordedEventView>)>,
    /// Maximum number of event ids tracked.
    pub capacity: nat,
}

/// Bounded LRU index mapping event IDs to the batch they were recorded in.
pub struct DedupIndex {
    cache: LruCache<u128, Batch, RandomState>,
}

impl View for DedupIndex {
    type V = DedupView;

    closed spec fn view(&self) -> DedupView {
        DedupView { entries: lru_entries(self.cache), capacity: lru_capacity(self.cache) }
    }
}

/// The entries after recording each event of `batch` under the whole batch.
pub open spec fn record_all(
    es: Seq<(u128, Seq<RecordedEventView>)>,
    cap: nat,
    batch: Seq<RecordedEventView>,
    n: nat,
) -> Seq<(u128, Seq<RecordedEventView>)>
    decreases n,
{
    if n == 0 {
        es
    } else {
        lru_insert(record_all(es, cap, batch, (n - 1) as nat), cap, batch[n - 1].event_id, batch)
    }
}

/// The entries after recording each event of `events`, in order, as a batch of its own.
pub open spec fn seed_all(
    es: Seq<(u128, Seq<RecordedEventView>)>,
    cap: nat,
    events: Seq<RecordedEventView>,
    n: nat,
) -> Seq<(u128, Seq<RecordedEventView>)>
    decreases n,
{
    if n == 0 {
        es
    } else {
        lru_insert(
            seed_all(es, cap, events, (n - 1) as nat),
            cap,
            events[n - 1].event_id,
            seq![events[n - 1]],
        )
    }
}

/// Putting keeps the keys distinct and the cache within its capacity.
pub proof fn lemma_insert_wf(
    es: Seq<(u128, Seq<RecordedEventView>)>,
    cap: nat,
    k: u128,
    v: Seq<RecordedEventView>,
)
    requires
        distinct_keys(es),
        es.len() <= cap,
        cap > 0,
    ensures
        distinct_keys(lru_insert(es, cap, k, v)),
        lru_insert(es, cap, k, v).len() <= cap,
        has_key(lru_insert(es, cap, k, v), k),
{
    let r = lru_insert(es, cap, k, v);
    if has_key(es, k) {
        let p = key_index(es, k);
        let rm = es.remove(p);
        assert forall|i: int, j: int| 0 <= i < j < r.len() implies #[trigger] r[i].0
            != #[trigger] r[j].0 by {
            if j == r.len() - 1 {
                let oi = if i < p {
                    i
                } else {
                    i + 1
                };
                assert(rm[i] == es[oi]);
                assert(oi != p);
            } else {
                let oi = if i < p {
                    i
                } else {
                    i + 1
                };
                let oj = if j < p {
                    j
                } else {
                    j + 1
                };
                assert(rm[i] == es[oi]);
                assert(rm[j] == es[oj]);
            }
        }
        assert(r[r.len() - 1].0 == k);
    } else if es.len() >= cap {
        let d = es.drop_first();
        assert forall|i: int, j: int| 0 <= i < j < r.len() implies #[trigger] r[i].0
            != #[trigger] r[j].0 by {
            if j == r.len() - 1 {
                assert(d[i] == es[i + 1]);
            } else {
                assert(d[i] == es[i + 1]);
                assert(d[j] == es[j + 1]);
            }
        }
        assert(r[r.len() - 1].0 == k);
    } else {
        assert forall|i: int, j: int| 0 <= i < j < r.len() implies #[trigger] r[i].0
            != #[trigger] r[j].0 by {
            if j == r.len() - 1 {
                assert(r[i] == es[i]);
            }
        }
        assert(r[r.len() - 1].0 == k);
    }
}

/// No two events of `batch` share an event id.
pub open spec fn distinct_ids(batch: Seq<RecordedEventView>) -> bool {
    forall|i: int, j: int|
        0 <= i < j < batch.len() ==> #[trigger] batch[i].event_id != #[trigger] batch[j].event_id
}

/// The last `n` entries are the first `n` events of `batch`, in order, each
/// mapped to the whole batch.
pub open spec fn ends_with_batch(
    es: Seq<(u128, Seq<RecordedEventView>)>,
    batch: Seq<RecordedEventView>,
    n: nat,
) -> bool {
    &&& es.len() >= n
    &&& forall|t: int| 0 <= t < n ==> #[trigger] es[es.len() - n + t] == (batch[t].event_id, batch)
}

/// Recording the first `n` events of a batch that fits in the cache leaves
/// them as the `n` most recently used entries.
pub proof fn lemma_record_all_suffix(
    es: Seq<(u128, Seq<RecordedEventView>)>,
    cap: nat,
    batch: Seq<RecordedEventView>,
    n: nat,
)
    requires
        distinct_keys(es),
        es.len() <= cap,
        cap > 0,
        n <= batch.len(),
        batch.len() <= cap,
        distinct_ids(batch),
    ensures
        distinct_keys(record_all(es, cap, batch, n)),
        record_all(es, cap, batch, n).len() <= cap,
        ends_with_batch(record_all(es, cap, batch, n), batch, n),
    decreases n,
{
    if n > 0 {
        let m = (n - 1) as nat;
        lemma_record_all_suffix(es, cap, batch, m);
        let prev = record_all(es, cap, batch, m);
        let k = batch[m as int].event_id;
        lemma_insert_wf(prev, cap, k, batch);
        let r = lru_insert(prev, cap, k, batch);
        assert(r == record_all(es, cap, batch, n));
        let base = prev.len() - m;
        if has_key(prev, k) {
            let p = key_index(prev, k);
            if p >= base {
                let t = p - base;
                assert(prev[base + t] == (batch[t].event_id, batch));
                assert(batch[t].event_id != batch[m as int].event_id);
            }
            let rm = prev.remove(p);
            assert forall|t: int| 0 <= t < n implies #[trigger] r[r.len() - n + t] == (
                batch[t].event_id,
                batch,
            ) by {
                if t < m {
                    assert(r[r.len() - n + t] == rm[rm.len() - m + t]);
                    assert(rm[rm.len() - m + t] == prev[base + t]);
                }
            }
        } else if prev.len() >= cap {
            let d = prev.drop_first();
            assert forall|t: int| 0 <= t < n implies #[trigger] r[r.len() - n + t] == (
                batch[t].event_id,
                batch,
            ) by {
                if t < m {
                    assert(r[r.len() - n + t] == d[d.len() - m + t]);
                    assert(d[d.len() - m + t] == prev[base + t]);
                }
            }
        } else {
            assert forall|t: int| 0 <= t < n implies #[trigger] r[r.len() - n + t] == (
                batch[t].event_id,
                batch,
            ) by {
                if t < m {
                    assert(r[r.len() - n + t] == prev[base + t]);
                }
            }
        }
    }
}

impl DedupIndex {
    /// The invariant: distinct keys, at most `capacity` of them.
    pub closed spec fn wf(&self) -> bool {
        &&& distinct_keys(self@.entries)
        &&& self@.entries.len() <= self@.capacity
        &&& self@.capacity > 0
    }

    /// A dedup index tracking at most `capacity` event IDs.
    pub fn new(capacity: usize) -> (r: DedupIndex)
        requires
            capacity > 0,
        ensures
            r.wf(),
            r@.entries == Seq::<(u128, Seq<RecordedEventView>)>::empty(),
            r@.capacity == capacity,
    {
        DedupIndex { cache: lru_new(capacity) }
    }

    /// Whether a proposed batch repeats a recorded one.
    ///
    /// Looks up the ID of the first proposed event: when it is cached, returns
    /// the batch recorded with it and makes it the most recently used. `None`
    /// for an empty proposal or an unknown ID.
    pub fn check(&mut self, proposed: &[ProposedEvent]) -> (r: Option<Batch>)
        requires
            old(self).wf(),
        ensures
            final(self).wf(),
            final(self)@.capacity == old(self)@.capacity,
            proposed@.len() == 0 ==> r is None && final(self)@ == old(self)@,
            proposed@.len() > 0 ==> {
                let k = proposed@[0].event_id;
                let es = old(self)@.entries;
                &&& final(self)@.entries == lru_touch(es, k)
                &&& match r {
                    Some(b) => has_key(es, k) && batch_view(b) == es[key_index(es, k)].1,
                    None => !has_key(es, k),
                }
            },
    {
        if proposed.len() == 0 {
            return None;
        }
        let ghost es = self@.entries;
        let r = lru_get(&mut self.cache, proposed[0].event_id);
        proof {
            let k = proposed@[0].event_id;
            if has_key(es, k) {
                let p = key_index(es, k);
                let rm = es.remove(p);
                let t = lru_touch(es, k);
                assert forall|i: int, j: int| 0 <= i < j < t.len() implies #[trigger] t[i].0
                    != #[trigger] t[j].0 by {
                    let oi = if i < p {
                        i
                    } else {
                        i + 1
                    };
                    let oj = if j == t.len() - 1 {
                        p
                    } else if j < p {
                        j
                    } else {
                        j + 1
                    };
                    assert(t[i] == es[oi]);
                    assert(t[j] == es[oj]);
                }
            }
        }
        r
    }

    /// Records a successfully written batch: one entry per event ID, each
    /// mapping to the whole batch.
    pub fn record(&mut self, recorded: Vec<RecordedEvent>)
        requires
            old(self).wf(),
        ensures
            final(self).wf(),
            final(self)@.capacity == old(self)@.capacity,
            final(self)@.entries == record_all(
                old(self)@.entries,
                old(self)@.capacity,
                events_view(recorded@),
                recorded@.len(),
            ),
    {
        let ghost es0 = self@.entries;
        let ghost cap = self@.capacity;
        let shared: Batch = Arc::new(recorded);
        let ghost bv = batch_view(shared);
        let mut i: usize = 0;
        while i < shared.len()
            invariant
                0 <= i <= shared@.len(),
                bv == batch_view(shared),
                bv.len() == shared@.len(),
                self.wf(),
                self@.capacity == cap,
                self@.entries == record_all(es0, cap, bv, i as nat),
            decreases shared@.len() - i,
        {
            let id = shared[i].event_id;
            assert(id == bv[i as int].event_id);
            let ghost before = self@.entries;
            lru_put(&mut self.cache, id, &shared);
            proof {
                lemma_insert_wf(before, cap, id, bv);
            }
            i = i + 1;
        }
    }

    /// Seeds the index from recovered events, in ascending global position:
    /// each event is recorded as a batch of its own, so that the most recent
    /// events end up the most recently used and the oldest are evicted first.
    pub fn seed_from_log(&mut self, events: &[RecordedEvent])
        requires
            old(self).wf(),
        ensures
            final(self).wf(),
            final(self)@.capacity == old(self)@.capacity,
            final(self)@.entries == seed_all(
                old(self)@.entries,
                old(self)@.capacity,
                events_view(events@),
                events@.len(),
            ),
    {
        let ghost es0 = self@.entries;
        let ghost cap = self@.capacity;
        let ghost ev = events_view(events@);
        let mut i: usize = 0;
        while i < events.len()
            invariant
                0 <= i <= events@.len(),
                ev == events_view(events@),
                self.wf(),
                self@.capacity == cap,
                self@.entries == seed_all(es0, cap, ev, i as nat),
            decreases events@.len() - i,
        {
            let e = events[i].duplicate();
            let id = e.event_id;
            let single: Batch = Arc::new(vec![e]);
            proof {
                assert(batch_view(single) =~= seq![ev[i as int]]);
            }
            let ghost before = self@.entries;
            lru_put(&mut self.cache, id, &single);
            proof {
                lemma_insert_wf(before, cap, id, seq![ev[i as int]]);
            }
            i = i + 1;
        }
    }
}

/// The number of events of a seeding of `n` events that the cache keeps.
pub open spec fn kept(n: nat, cap: nat) -> nat {
    if n <= cap {
        n
    } else {
        cap
    }
}

/// Seeding the first `n` events of `evs`, whose ids are distinct, leaves the
/// last of them that fit as the most recently used entries, in order, each
/// mapped to a batch of its own.
pub proof fn lemma_seed_all_suffix(
    es: Seq<(u128, Seq<RecordedEventView>)>,
    cap: nat,
    evs: Seq<RecordedEventView>,
    n: nat,
)
    requires
        distinct_keys(es),
        es.len() <= cap,
        cap > 0,
        n <= evs.len(),
        distinct_ids(evs),
    ensures
        distinct_keys(seed_all(es, cap, evs, n)),
        seed_all(es, cap, evs, n).len() <= cap,
        seed_all(es, cap, evs, n).len() >= kept(n, cap),
        forall|t: int|
            #![trigger seed_all(es, cap, evs, n)[seed_all(es, cap, evs, n).len() - kept(n, cap) + t]]
            0 <= t < kept(n, cap) ==> seed_all(es, cap, evs, n)[seed_all(es, cap, evs, n).len()
                - kept(n, cap) + t] == (
                evs[n - kept(n, cap) + t].event_id,
                seq![evs[n - kept(n, cap) + t]],
            ),
    decreases n,
{
    if n > 0 {
        let n1 = (n - 1) as nat;
        lemma_seed_all_suffix(es, cap, evs, n1);
        let prev = seed_all(es, cap, evs, n1);
        let k = evs[n1 as int].event_id;
        let v = seq![evs[n1 as int]];
        lemma_insert_wf(prev, cap, k, v);
        let r = lru_insert(prev, cap, k, v);
        assert(r == seed_all(es, cap, evs, n));
        let m1 = kept(n1, cap);
        let m = kept(n, cap);
        let base = prev.len() - m1;
        assert forall|t: int| 0 <= t < m1 implies #[trigger] prev[base + t].0 != k by {
            assert(prev[prev.len() - m1 + t] == (evs[n1 - m1 + t].event_id, seq![evs[n1 - m1 + t]]));
            assert(evs[n1 - m1 + t].event_id != evs[n1 as int].event_id);
        }
        if has_key(prev, k) {
            let p = key_index(prev, k);
            if p >= base {
                assert(prev[base + (p - base)].0 != k);
            }
            assert(p < base);
            let rm = prev.remove(p);
            assert(m == m1 + 1);
            assert forall|t: int| 0 <= t < m implies #[trigger] r[r.len() - m + t] == (
                evs[n - m + t].event_id,
                seq![evs[n - m + t]],
            ) by {
                if t < m1 {
                    assert(r[r.len() - m + t] == rm[rm.len() - m1 + t]);
                    assert(rm[rm.len() - m1 + t] == prev[base + t]);
                    assert(prev[prev.len() - m1 + t] == (evs[n1 - m1 + t].event_id, seq![evs[n1 - m1 + t]]));
                }
            }
        } else if prev.len() >= cap {
            let d = prev.drop_first();
            assert forall|t: int| 0 <= t < m implies #[trigger] r[r.len() - m + t] == (
                evs[n - m + t].event_id,
                seq![evs[n - m + t]],
            ) by {
                if t < m - 1 {
                    let u = t + m1 - (m - 1);
                    assert(0 <= u < m1);
                    assert(r[r.len() - m + t] == d[d.len() - (m - 1) + t]);
                    assert(d[d.len() - (m - 1) + t] == prev[base + u]);
                    assert(prev[prev.len() - m1 + u] == (evs[n1 - m1 + u].event_id, seq![evs[n1 - m1 + u]]));
                }
            }
        } else {
            assert(m == m1 + 1);
            assert forall|t: int| 0 <= t < m implies #[trigger] r[r.len() - m + t] == (
                evs[n - m + t].event_id,
                seq![evs[n - m + t]],
            ) by {
                if t < m1 {
                    assert(r[r.len() - m + t] == prev[base + t]);
                    assert(prev[prev.len() - m1 + t] == (evs[n1 - m1 + t].event_id, seq![evs[n1 - m1 + t]]));
                }
            }
        }
    }
}

/// What seeding from the recovered log promises after a restart: when the
/// recovered events have distinct ids, each of the most recent events that
/// fit in the cache is found under its id, as a batch of its own; the older
/// ones were evicted first.
pub proof fn law_seeded_events_are_found(d: DedupIndex, evs: Seq<RecordedEventView>, j: int)
    requires
        d.wf(),
        distinct_ids(evs),
        evs.len() - kept(evs.len(), d@.capacity) <= j < evs.len(),
    ensures
        ({
            let r = seed_all(d@.entries, d@.capacity, evs, evs.len());
            &&& has_key(r, evs[j].event_id)
            &&& r[key_index(r, evs[j].event_id)].1 == seq![evs[j]]
        }),
{
    let es = d@.entries;
    let cap = d@.capacity;
    let n = evs.len();
    lemma_seed_all_suffix(es, cap, evs, n);
    let r = seed_all(es, cap, evs, n);
    let m = kept(n, cap);
    let t = j - (n - m);
    let p = r.len() - m + t;
    assert(r[p] == (evs[n - m + t].event_id, seq![evs[n - m + t]]));
    assert(n - m + t == j);
    assert(0 <= p < r.len() && r[p].0 == evs[j].event_id);
    assert(has_key(r, evs[j].event_id));
    let q = key_index(r, evs[j].event_id);
    if q != p {
        if q < p {
            assert(r[q].0 != r[p].0);
        } else {
            assert(r[p].0 != r[q].0);
        }
    }
}

/// What the cache promises a retried append: once a batch with distinct
/// event ids, no larger than the capacity, has been recorded, looking up any
/// of its event ids finds the whole batch.
pub proof fn law_recorded_batch_is_found(d: DedupIndex, batch: Seq<RecordedEventView>, j: int)
    requires
        d.wf(),
        batch.len() <= d@.capacity,
        distinct_ids(batch),
        0 <= j < batch.len(),
    ensures
        ({
            let r = record_all(d@.entries, d@.capacity, batch, batch.len());
            &&& has_key(r, batch[j].event_id)
            &&& r[key_index(r, batch[j].event_id)].1 == batch
        }),
{
    let es = d@.entries;
    let cap = d@.capacity;
    let n = batch.len();
    lemma_record_all_suffix(es, cap, batch, n);
    let r = record_all(es, cap, batch, n);
    let p = r.len() - n + j;
    assert(r[p] == (batch[j].event_id, batch));
    assert(0 <= p < r.len() && r[p].0 == batch[j].event_id);
    assert(has_key(r, batch[j].event_id));
    let q = key_index(r, batch[j].event_id);
    assert(r[q].0 == r[p].0);
    if q != p {
        if q < p {
            assert(r[q].0 != r[p].0);
        } else {
            assert(r[p].0 != r[q].0);
        }
    }
}

/// The batch that id `id` maps to in the entries, if it is there.
pub open spec fn batch_of(es: Seq<(u128, Seq<RecordedEventView>)>, id: u128) -> Option<
    Seq<RecordedEventView>,
> {
    if has_key(es, id) {
        Some(es[key_index(es, id)].1)
    } else {
        None
    }
}

/// Every entry of `r` under id `id` is an entry of `es`.
pub open spec fn drawn_from(
    r: Seq<(u128, Seq<RecordedEventView>)>,
    es: Seq<(u128, Seq<RecordedEventView>)>,
    id: u128,
) -> bool {
    forall|i: int|
        0 <= i < r.len() && #[trigger] r[i].0 == id ==> exists|j: int| 0 <= j < es.len() && r[i] == es[j]
}

/// Entries under `id` taken from entries with distinct keys map `id` to
/// the same batch, when they hold it.
proof fn lemma_drawn_batch(
    r: Seq<(u128, Seq<RecordedEventView>)>,
    es: Seq<(u128, Seq<RecordedEventView>)>,
    id: u128,
)
    requires
        distinct_keys(es),
        drawn_from(r, es, id),
    ensures
        batch_of(r, id) is Some ==> batch_of(r, id) == batch_of(es, id),
{
    if has_key(r, id) {
        let i = key_index(r, id);
        assert(r[i].0 == id);
        let j = choose|j: int| 0 <= j < es.len() && r[i] == es[j];
        assert(has_key(es, id));
        let q = key_index(es, id);
        if q != j {
            if q < j {
                assert(es[q].0 != es[j].0);
            } else {
                assert(es[j].0 != es[q].0);
            }
        }
    }
}

/// Putting an entry under another id takes every entry under `id` from the old ones.
proof fn lemma_insert_drawn(
    es: Seq<(u128, Seq<RecordedEventView>)>,
    cap: nat,
    k: u128,
    v: Seq<RecordedEventView>,
    id: u128,
)
    requires
        k != id,
        cap > 0,
    ensures
        drawn_from(lru_insert(es, cap, k, v), es, id),
{
    let r = lru_insert(es, cap, k, v);
    assert(r[r.len() - 1] == (k, v));
    assert forall|i: int| 0 <= i < r.len() && #[trigger] r[i].0 == id implies exists|j: int|
        0 <= j < es.len() && r[i] == es[j] by {
        assert(i < r.len() - 1);
        if has_key(es, k) {
            let p = key_index(es, k);
            let j = if i < p {
                i
            } else {
                i + 1
            };
            assert(r[i] == es[j]);
        } else if es.len() >= cap {
            assert(r[i] == es[i + 1]);
        } else {
            assert(r[i] == es[i]);
        }
    }
}

/// Recording a batch that does not hold `id` takes every entry under `id`
/// from the old ones.
proof fn lemma_record_all_drawn(
    es: Seq<(u128, Seq<RecordedEventView>)>,
    cap: nat,
    batch: Seq<RecordedEventView>,
    n: nat,
    id: u128,
)
    requires
        n <= batch.len(),
        cap > 0,
        forall|i: int| 0 <= i < batch.len() ==> #[trigger] batch[i].event_id != id,
    ensures
        drawn_from(record_all(es, cap, batch, n), es, id),
    decreases n,
{
    if n > 0 {
        let prev = record_all(es, cap, batch, (n - 1) as nat);
        lemma_record_all_drawn(es, cap, batch, (n - 1) as nat, id);
        lemma_insert_drawn(prev, cap, batch[n - 1].event_id, batch, id);
        let r = record_all(es, cap, batch, n);
        assert forall|i: int| 0 <= i < r.len() && #[trigger] r[i].0 == id implies exists|j: int|
            0 <= j < es.len() && r[i] == es[j] by {
            let m = choose|m: int| 0 <= m < prev.len() && r[i] == prev[m];
            assert(prev[m].0 == id);
        }
    }
}

/// Until it is evicted, an id keeps the batch it was recorded with: a
/// lookup of any id keeps it with its batch, and recording a batch that
/// does not hold it either keeps it with its batch or evicts it. A later
/// request whose first event id is still in the index is therefore answered
/// with the events recorded for it the first time.
pub proof fn law_entry_kept_until_evicted(
    es: Seq<(u128, Seq<RecordedEventView>)>,
    cap: nat,
    id: u128,
    k: u128,
    batch: Seq<RecordedEventView>,
)
    requires
        distinct_keys(es),
        cap > 0,
        forall|i: int| 0 <= i < batch.len() ==> #[trigger] batch[i].event_id != id,
    ensures
        batch_of(lru_touch(es, k), id) == batch_of(es, id),
        batch_of(record_all(es, cap, batch, batch.len()), id) is Some ==> batch_of(
            record_all(es, cap, batch, batch.len()),
            id,
        ) == batch_of(es, id),
{
    lemma_record_all_drawn(es, cap, batch, batch.len(), id);
    lemma_drawn_batch(record_all(es, cap, batch, batch.len()), es, id);
    let t = lru_touch(es, k);
    if has_key(es, k) {
        let p = key_index(es, k);
        assert forall|i: int| 0 <= i < t.len() && #[trigger] t[i].0 == id implies exists|j: int|
            0 <= j < es.len() && t[i] == es[j] by {
            if i == t.len() - 1 {
                assert(t[i] == es[p]);
            } else {
                let j = if i < p {
                    i
                } else {
                    i + 1
                };
                assert(t[i] == es[j]);
            }
        }
        if has_key(es, id) {
            let q = key_index(es, id);
            if q == p {
                assert(t[t.len() - 1].0 == id);
            } else if q < p {
                assert(t[q] == es[q]);
            } else {
                assert(t[q - 1] == es[q]);
            }
        }
    }
    lemma_drawn_batch(t, es, id);
}

} // verus!
