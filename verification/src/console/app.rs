//! Application state and input handling of the console.
//!
//! [`AppState`] holds all mutable UI state, [`Tab`] the navigation between
//! the four views, and [`Action`] what the user asks for. Key presses map to
//! actions by [`handle_key_event`]; [`AppState::apply_action`] is the state
//! machine that the render loop drives.

use std::collections::VecDeque;
use vstd::prelude::*;
use vstd::string::*;
use vstd::utf8::*;

use crate::lex::{lemma_encode_injective, lemma_lex_irreflexive, lemma_lex_total, lemma_lex_transitive, str_less, str_lt};

verus! {

/// Maximum number of events kept in the live tail buffer.
pub const LIVE_TAIL_CAPACITY: usize = 10000;

/// The four views of the console.
#[derive(Debug, Clone, Copy, PartialEq, Eq, Structural)]
pub enum Tab {
    /// All streams with their event counts.
    Streams,
    /// The events of the selected stream.
    StreamDetail,
    /// The global log.
    GlobalLog,
    /// Events as they are appended.
    LiveTail,
}

/// The place of a tab in the tab bar.
pub open spec fn tab_index(t: Tab) -> int {
    match t {
        Tab::Streams => 0,
        Tab::StreamDetail => 1,
        Tab::GlobalLog => 2,
        Tab::LiveTail => 3,
    }
}

/// The tab at place `i` of the tab bar (0 to 3).
pub open spec fn tab_at(i: int) -> Tab {
    if i == 0 {
        Tab::Streams
    } else if i == 1 {
        Tab::StreamDetail
    } else if i == 2 {
        Tab::GlobalLog
    } else {
        Tab::LiveTail
    }
}

/// The tab after `t`, wrapping around.
pub open spec fn spec_next(t: Tab) -> Tab {
    tab_at((tab_index(t) + 1) % 4)
}

/// The tab before `t`, wrapping around.
pub open spec fn spec_prev(t: Tab) -> Tab {
    tab_at((tab_index(t) + 3) % 4)
}

/// The title of a tab.
pub open spec fn spec_label(t: Tab) -> Seq<char> {
    match t {
        Tab::Streams => "Streams"@,
        Tab::StreamDetail => "Stream Events"@,
        Tab::GlobalLog => "Global Log"@,
        Tab::LiveTail => "Live Tail"@,
    }
}

/// The tabs in the order of the tab bar.
pub fn tab_order() -> (r: [Tab; 4])
    ensures
        forall|i: int| 0 <= i < 4 ==> #[trigger] r@[i] == tab_at(i),
{
    [Tab::Streams, Tab::StreamDetail, Tab::GlobalLog, Tab::LiveTail]
}

impl Tab {
    /// The next tab, wrapping from the last to the first.
    pub fn next(self) -> (r: Tab)
        ensures
            r == spec_next(self),
    {
        match self {
            Tab::Streams => Tab::StreamDetail,
            Tab::StreamDetail => Tab::GlobalLog,
            Tab::GlobalLog => Tab::LiveTail,
            Tab::LiveTail => Tab::Streams,
        }
    }

    /// The previous tab, wrapping from the first to the last.
    pub fn prev(self) -> (r: Tab)
        ensures
            r == spec_prev(self),
    {
        match self {
            Tab::Streams => Tab::LiveTail,
            Tab::StreamDetail => Tab::Streams,
            Tab::GlobalLog => Tab::StreamDetail,
            Tab::LiveTail => Tab::GlobalLog,
        }
    }

    /// The title shown in the tab bar.
    pub fn label(self) -> (r: &'static str)
        ensures
            r@ == spec_label(self),
    {
        match self {
            Tab::Streams => "Streams",
            Tab::StreamDetail => "Stream Events",
            Tab::GlobalLog => "Global Log",
            Tab::LiveTail => "Live Tail",
        }
    }
}

/// Tab navigation: going back undoes going forward and the reverse, four
/// steps forward come back to the start, and the titles are non-empty and
/// pairwise different.
pub proof fn law_tab_cycle(t: Tab, u: Tab)
    ensures
        spec_prev(spec_next(t)) == t,
        spec_next(spec_prev(t)) == t,
        spec_next(spec_next(spec_next(spec_next(t)))) == t,
        spec_label(t).len() > 0,
        t != u ==> spec_label(t) != spec_label(u),
{
    reveal_strlit("Streams");
    reveal_strlit("Stream Events");
    reveal_strlit("Global Log");
    reveal_strlit("Live Tail");
    if t != u {
        match t {
            Tab::Streams => {
                assert(spec_label(t)[1] != spec_label(u)[1] || spec_label(t).len() != spec_label(u).len());
            },
            Tab::StreamDetail => {
                assert(spec_label(t).len() != spec_label(u).len());
            },
            Tab::GlobalLog => {
                assert(spec_label(t)[0] != spec_label(u)[0] || spec_label(t).len() != spec_label(u).len());
            },
            Tab::LiveTail => {
                assert(spec_label(t)[0] != spec_label(u)[0] || spec_label(t).len() != spec_label(u).len());
            },
        }
    }
}

/// Summary of one stream, as the console shows it.
#[derive(Debug, Clone, PartialEq, Eq)]
pub struct StreamInfo {
    /// The stream's UUID, as text.
    pub stream_id: String,
    /// Number of events in the stream.
    pub event_count: u64,
    /// Highest stream version seen.
    pub latest_version: u64,
}

/// An event, as the console shows it.
#[derive(Debug, Clone)]
pub struct EventRecord {
    /// The event's UUID, as text.
    pub event_id: String,
    /// The stream's UUID, as text.
    pub stream_id: String,
    /// Zero-based version within the stream.
    pub stream_version: u64,
    /// Zero-based position in the global log.
    pub global_position: u64,
    /// Event type tag.
    pub event_type: String,
    /// Opaque metadata.
    pub metadata: Vec<u8>,
    /// Opaque payload.
    pub payload: Vec<u8>,
}

/// What the user asks for.
#[derive(Debug, Clone, Copy, PartialEq, Eq, Structural)]
pub enum Action {
    /// Leave the console.
    Quit,
    /// Show another tab.
    SwitchTab(Tab),
    /// Move the cursor of the current list up.
    CursorUp,
    /// Move the cursor of the current list down.
    CursorDown,
    /// Open the selected item.
    Select,
    /// Reload the current tab.
    Refresh,
    /// Switch JSON pretty-printing on or off.
    ToggleFormat,
    /// Pause or resume the live tail.
    TogglePause,
}

/// The whole state of the console.
#[derive(Debug)]
pub struct AppState {
    /// The tab shown.
    pub active_tab: Tab,
    /// Whether the event loop should exit.
    pub should_quit: bool,
    /// Address of the server, shown in the status bar.
    pub server_addr: String,
    /// Whether payloads are pretty-printed as JSON.
    pub format_json: bool,
    /// The streams listed.
    pub streams: Vec<StreamInfo>,
    /// Cursor in the stream list.
    pub streams_cursor: usize,
    /// Whether the stream list is to be (re)loaded.
    pub streams_loading: bool,
    /// The stream whose events are shown.
    pub detail_stream_id: Option<String>,
    /// The events of that stream.
    pub detail_events: Vec<EventRecord>,
    /// Cursor in those events.
    pub detail_cursor: usize,
    /// Whether those events are to be (re)loaded.
    pub detail_loading: bool,
    /// The events of the global log.
    pub global_events: Vec<EventRecord>,
    /// Cursor in the global log.
    pub global_cursor: usize,
    /// Whether the global log is to be (re)loaded.
    pub global_loading: bool,
    /// The most recent live events, oldest first.
    pub live_events: VecDeque<EventRecord>,
    /// Whether the subscription has caught up.
    pub live_caught_up: bool,
    /// Whether the live tail is paused.
    pub live_paused: bool,
    /// Cursor in the live tail.
    pub live_cursor: usize,
}

/// The model of the console state: its lists as sequences.
pub struct AppStateView {
    pub active_tab: Tab,
    pub should_quit: bool,
    pub server_addr: Seq<char>,
    pub format_json: bool,
    pub streams: Seq<StreamInfo>,
    pub streams_cursor: usize,
    pub streams_loading: bool,
    pub detail_stream_id: Option<Seq<char>>,
    pub detail_events: Seq<EventRecord>,
    pub detail_cursor: usize,
    pub detail_loading: bool,
    pub global_events: Seq<EventRecord>,
    pub global_cursor: usize,
    pub global_loading: bool,
    pub live_events: Seq<EventRecord>,
    pub live_caught_up: bool,
    pub live_paused: bool,
    pub live_cursor: usize,
}

impl View for AppState {
    type V = AppStateView;

    open spec fn view(&self) -> AppStateView {
        AppStateView {
            active_tab: self.active_tab,
            should_quit: self.should_quit,
            server_addr: self.server_addr@,
            format_json: self.format_json,
            streams: self.streams@,
            streams_cursor: self.streams_cursor,
            streams_loading: self.streams_loading,
            detail_stream_id: match self.detail_stream_id {
                Some(s) => Some(s@),
                None => None,
            },
            detail_events: self.detail_events@,
            detail_cursor: self.detail_cursor,
            detail_loading: self.detail_loading,
            global_events: self.global_events@,
            global_cursor: self.global_cursor,
            global_loading: self.global_loading,
            live_events: self.live_events@,
            live_caught_up: self.live_caught_up,
            live_paused: self.live_paused,
            live_cursor: self.live_cursor,
        }
    }
}

/// Length of the list shown on the current tab.
pub open spec fn list_len(s: AppStateView) -> nat {
    match s.active_tab {
        Tab::Streams => s.streams.len(),
        Tab::StreamDetail => s.detail_events.len(),
        Tab::GlobalLog => s.global_events.len(),
        Tab::LiveTail => s.live_events.len(),
    }
}

/// Cursor of the list shown on the current tab.
pub open spec fn cursor_of(s: AppStateView) -> usize {
    match s.active_tab {
        Tab::Streams => s.streams_cursor,
        Tab::StreamDetail => s.detail_cursor,
        Tab::GlobalLog => s.global_cursor,
        Tab::LiveTail => s.live_cursor,
    }
}

/// The state with the cursor of the current tab set to `c`.
pub open spec fn with_cursor(s: AppStateView, c: usize) -> AppStateView {
    match s.active_tab {
        Tab::Streams => AppStateView { streams_cursor: c, ..s },
        Tab::StreamDetail => AppStateView { detail_cursor: c, ..s },
        Tab::GlobalLog => AppStateView { global_cursor: c, ..s },
        Tab::LiveTail => AppStateView { live_cursor: c, ..s },
    }
}

/// The live tail buffer after receiving `e`: the oldest event is dropped
/// when the buffer is full.
pub open spec fn live_push(live: Seq<EventRecord>, e: EventRecord) -> Seq<EventRecord> {
    if live.len() >= LIVE_TAIL_CAPACITY {
        live.drop_first().push(e)
    } else {
        live.push(e)
    }
}

/// The state after action `a`.
pub open spec fn spec_apply(s: AppStateView, a: Action) -> AppStateView {
    match a {
        Action::Quit => AppStateView { should_quit: true, ..s },
        Action::SwitchTab(t) => {
            let moved = AppStateView { active_tab: t, ..s };
            if t == Tab::Streams && s.streams.len() == 0 && !s.streams_loading {
                AppStateView { streams_loading: true, ..moved }
            } else if t == Tab::GlobalLog && s.global_events.len() == 0 && !s.global_loading {
                AppStateView { global_loading: true, ..moved }
            } else {
                moved
            }
        },
        Action::CursorUp => with_cursor(
            s,
            if cursor_of(s) > 0 {
                (cursor_of(s) - 1) as usize
            } else {
                0
            },
        ),
        Action::CursorDown => if list_len(s) > 0 {
            with_cursor(
                s,
                if cursor_of(s) < list_len(s) - 1 {
                    (cursor_of(s) + 1) as usize
                } else {
                    (list_len(s) - 1) as usize
                },
            )
        } else {
            s
        },
        Action::Select => if s.active_tab == Tab::Streams && s.streams_cursor < s.streams.len() {
            AppStateView {
                detail_stream_id: Some(s.streams[s.streams_cursor as int].stream_id@),
                detail_events: Seq::empty(),
                detail_cursor: 0,
                detail_loading: true,
                active_tab: Tab::StreamDetail,
                ..s
            }
        } else {
            s
        },
        Action::Refresh => match s.active_tab {
            Tab::Streams => AppStateView { streams_loading: true, ..s },
            Tab::StreamDetail => AppStateView { detail_loading: true, ..s },
            Tab::GlobalLog => AppStateView { global_loading: true, ..s },
            Tab::LiveTail => s,
        },
        Action::ToggleFormat => AppStateView { format_json: !s.format_json, ..s },
        Action::TogglePause => if s.active_tab == Tab::LiveTail {
            AppStateView { live_paused: !s.live_paused, ..s }
        } else {
            s
        },
    }
}

/// Number of events of `es` in stream `id`.
pub open spec fn stream_count(es: Seq<EventRecord>, id: Seq<char>) -> nat
    decreases es.len(),
{
    if es.len() == 0 {
        0
    } else {
        stream_count(es.drop_last(), id) + if es.last().stream_id@ == id {
            1nat
        } else {
            0nat
        }
    }
}

/// Highest version among the events of `es` in stream `id` (0 when none).
pub open spec fn stream_latest(es: Seq<EventRecord>, id: Seq<char>) -> u64
    decreases es.len(),
{
    if es.len() == 0 {
        0
    } else {
        let l = stream_latest(es.drop_last(), id);
        if es.last().stream_id@ == id && es.last().stream_version > l {
            es.last().stream_version
        } else {
            l
        }
    }
}

/// `id` is the stream of one of the summaries.
pub open spec fn lists_id(infos: Seq<StreamInfo>, id: Seq<char>) -> bool {
    exists|k: int| 0 <= k < infos.len() && #[trigger] infos[k].stream_id@ == id
}

/// `infos` summarises the streams of `es`: one entry per stream that has
/// events, with its event count and highest version, ordered strictly by
/// stream id as Rust orders strings.
pub open spec fn summarises(es: Seq<EventRecord>, infos: Seq<StreamInfo>) -> bool {
    &&& forall|i: int, j: int|
        0 <= i < j < infos.len() ==> str_lt(
            #[trigger] infos[i].stream_id@,
            #[trigger] infos[j].stream_id@,
        )
    &&& forall|k: int|
        #![trigger infos[k]]
        0 <= k < infos.len() ==> {
            &&& infos[k].event_count == stream_count(es, infos[k].stream_id@)
            &&& infos[k].event_count > 0
            &&& infos[k].latest_version == stream_latest(es, infos[k].stream_id@)
        }
    &&& forall|j: int| 0 <= j < es.len() ==> lists_id(infos, #[trigger] es[j].stream_id@)
}

/// A stream with no event in `es` has count and latest version 0.
proof fn lemma_absent_stream(es: Seq<EventRecord>, id: Seq<char>)
    requires
        forall|j: int| 0 <= j < es.len() ==> #[trigger] es[j].stream_id@ != id,
    ensures
        stream_count(es, id) == 0,
        stream_latest(es, id) == 0,
    decreases es.len(),
{
    if es.len() > 0 {
        assert forall|j: int| 0 <= j < es.drop_last().len() implies #[trigger] es.drop_last()[j].stream_id@
            != id by {
            assert(es.drop_last()[j] == es[j]);
        }
        lemma_absent_stream(es.drop_last(), id);
        assert(es.last() == es[es.len() - 1]);
    }
}

/// A stream counts at most as many events as there are.
proof fn lemma_count_bounded(es: Seq<EventRecord>, id: Seq<char>)
    ensures
        stream_count(es, id) <= es.len(),
    decreases es.len(),
{
    if es.len() > 0 {
        lemma_count_bounded(es.drop_last(), id);
    }
}

/// Summaries ordered strictly by stream id.
pub open spec fn ids_sorted(infos: Seq<StreamInfo>) -> bool {
    forall|a: int, b: int|
        0 <= a < b < infos.len() ==> str_lt(
            #[trigger] infos[a].stream_id@,
            #[trigger] infos[b].stream_id@,
        )
}

/// An id before the summary at `p` comes before every later summary.
proof fn lemma_new_before(infos: Seq<StreamInfo>, id: Seq<char>, p: int, q: int)
    requires
        ids_sorted(infos),
        0 <= p <= q < infos.len(),
        str_lt(id, infos[p].stream_id@),
    ensures
        str_lt(id, infos[q].stream_id@),
{
    if p < q {
        assert(str_lt(infos[p].stream_id@, infos[q].stream_id@));
        lemma_lex_transitive(
            encode_utf8(id),
            encode_utf8(infos[p].stream_id@),
            encode_utf8(infos[q].stream_id@),
        );
    }
}

/// A summary that a different id does not precede comes before it.
proof fn lemma_old_before(infos: Seq<StreamInfo>, id: Seq<char>, a: int)
    requires
        0 <= a < infos.len(),
        !str_lt(id, infos[a].stream_id@),
        infos[a].stream_id@ != id,
    ensures
        str_lt(infos[a].stream_id@, id),
{
    lemma_encode_injective(infos[a].stream_id@, id);
    lemma_lex_total(encode_utf8(infos[a].stream_id@), encode_utf8(id));
}

/// Summaries ordered strictly by stream id name different streams.
proof fn lemma_sorted_distinct(infos: Seq<StreamInfo>, i: int, j: int)
    requires
        forall|a: int, b: int|
            0 <= a < b < infos.len() ==> str_lt(
                #[trigger] infos[a].stream_id@,
                #[trigger] infos[b].stream_id@,
            ),
        0 <= i < infos.len(),
        0 <= j < infos.len(),
        i != j,
    ensures
        infos[i].stream_id@ != infos[j].stream_id@,
{
    if i < j {
        assert(str_lt(infos[i].stream_id@, infos[j].stream_id@));
        if infos[i].stream_id@ == infos[j].stream_id@ {
            lemma_lex_irreflexive(encode_utf8(infos[i].stream_id@));
        }
    } else {
        assert(str_lt(infos[j].stream_id@, infos[i].stream_id@));
        if infos[i].stream_id@ == infos[j].stream_id@ {
            lemma_lex_irreflexive(encode_utf8(infos[i].stream_id@));
        }
    }
}

impl AppState {
    /// The initial state: the stream list shown, nothing loaded, JSON
    /// formatting on.
    pub fn new(server_addr: String) -> (r: AppState)
        ensures
            r@ == (AppStateView {
                active_tab: Tab::Streams,
                should_quit: false,
                server_addr: server_addr@,
                format_json: true,
                streams: Seq::empty(),
                streams_cursor: 0,
                streams_loading: false,
                detail_stream_id: None,
                detail_events: Seq::empty(),
                detail_cursor: 0,
                detail_loading: false,
                global_events: Seq::empty(),
                global_cursor: 0,
                global_loading: false,
                live_events: Seq::empty(),
                live_caught_up: false,
                live_paused: false,
                live_cursor: 0,
            }),
    {
        AppState {
            active_tab: Tab::Streams,
            should_quit: false,
            server_addr,
            format_json: true,
            streams: Vec::new(),
            streams_cursor: 0,
            streams_loading: false,
            detail_stream_id: None,
            detail_events: Vec::new(),
            detail_cursor: 0,
            detail_loading: false,
            global_events: Vec::new(),
            global_cursor: 0,
            global_loading: false,
            live_events: VecDeque::new(),
            live_caught_up: false,
            live_paused: false,
            live_cursor: 0,
        }
    }

    /// Summarises the streams of a list of events: one entry per stream,
    /// with how many of the events belong to it and the highest version among
    /// them, sorted by stream id.
    pub fn collect_streams(events: &[EventRecord]) -> (r: Vec<StreamInfo>)
        ensures
            summarises(events@, r@),
    {
        let ghost es = events@;
        let mut out: Vec<StreamInfo> = Vec::new();
        let mut i: usize = 0;
        while i < events.len()
            invariant
                0 <= i <= es.len(),
                es == events@,
                summarises(es.take(i as int), out@),
            decreases es.len() - i,
        {
            let e = &events[i];
            let ghost pre = es.take(i as int);
            let ghost post = es.take(i + 1);
            assert(post =~= pre.push(es[i as int]));
            assert(post.drop_last() =~= pre);
            let ghost eid = e.stream_id@;
            // Look for the stream among the summaries.
            let mut j: usize = 0;
            let mut found = false;
            while j < out.len()
                invariant
                    0 <= j <= out@.len(),
                    !found ==> forall|m: int| 0 <= m < j ==> #[trigger] out@[m].stream_id@ != eid,
                    found ==> j < out@.len() && out@[j as int].stream_id@ == eid,
                    e.stream_id@ == eid,
                ensures
                    found ==> j < out@.len() && out@[j as int].stream_id@ == eid,
                    !found ==> forall|m: int| 0 <= m < out@.len() ==> #[trigger] out@[m].stream_id@ != eid,
                decreases out@.len() - j + if found { 0int } else { 1int },
            {
                if out[j].stream_id == e.stream_id {
                    found = true;
                    break;
                }
                j = j + 1;
            }
            proof {
                lemma_count_bounded(pre, eid);
            }
            if found {
                let old_info = &out[j];
                let count = old_info.event_count + 1;
                let latest = if e.stream_version > old_info.latest_version {
                    e.stream_version
                } else {
                    old_info.latest_version
                };
                let info = StreamInfo { stream_id: old_info.stream_id.clone(), event_count: count, latest_version: latest };
                let ghost before = out@;
                out.set(j, info);
                proof {
                    let after = out@;
                    assert forall|k: int| #![trigger after[k]] 0 <= k < after.len() implies {
                        &&& after[k].event_count == stream_count(post, after[k].stream_id@)
                        &&& after[k].event_count > 0
                        &&& after[k].latest_version == stream_latest(post, after[k].stream_id@)
                    } by {
                        if k != j {
                            lemma_sorted_distinct(before, k, j as int);
                            assert(after[k] == before[k]);
                        }
                    }
                    assert forall|m: int| 0 <= m < post.len() implies lists_id(after, #[trigger] post[m].stream_id@) by {
                        if m < pre.len() {
                            assert(pre[m] == post[m]);
                            let k = choose|k: int| 0 <= k < before.len() && #[trigger] before[k].stream_id@ == pre[m].stream_id@;
                            assert(after[k].stream_id@ == before[k].stream_id@);
                        } else {
                            assert(after[j as int].stream_id@ == eid);
                        }
                    }
                    assert forall|a: int, b: int| 0 <= a < b < after.len() implies str_lt(
                        #[trigger] after[a].stream_id@,
                        #[trigger] after[b].stream_id@,
                    ) by {
                        assert(after[a].stream_id@ == before[a].stream_id@);
                        assert(after[b].stream_id@ == before[b].stream_id@);
                    }
                }
            } else {
                // A new stream: insert it where the order puts it.
                let mut p: usize = 0;
                while p < out.len()
                    invariant
                        0 <= p <= out@.len(),
                        forall|m: int| 0 <= m < p ==> !str_lt(eid, #[trigger] out@[m].stream_id@),
                        e.stream_id@ == eid,
                    ensures
                        0 <= p <= out@.len(),
                        forall|m: int| 0 <= m < p ==> !str_lt(eid, #[trigger] out@[m].stream_id@),
                        p < out@.len() ==> str_lt(eid, out@[p as int].stream_id@),
                    decreases out@.len() - p,
                {
                    if str_less(e.stream_id.as_str(), out[p].stream_id.as_str()) {
                        break;
                    }
                    p = p + 1;
                }
                proof {
                    assert forall|m: int| 0 <= m < pre.len() implies #[trigger] pre[m].stream_id@ != eid by {
                        let k = choose|k: int| 0 <= k < out@.len() && #[trigger] out@[k].stream_id@ == pre[m].stream_id@;
                    }
                    lemma_absent_stream(pre, eid);
                }
                let info = StreamInfo { stream_id: e.stream_id.clone(), event_count: 1, latest_version: e.stream_version };
                let ghost before = out@;
                out.insert(p, info);
                proof {
                    let after = out@;
                    assert forall|k: int| #![trigger after[k]] 0 <= k < after.len() implies {
                        &&& after[k].event_count == stream_count(post, after[k].stream_id@)
                        &&& after[k].event_count > 0
                        &&& after[k].latest_version == stream_latest(post, after[k].stream_id@)
                    } by {
                        if k < p {
                            assert(after[k] == before[k]);
                        } else if k > p {
                            assert(after[k] == before[k - 1]);
                        }
                    }
                    assert forall|m: int| 0 <= m < post.len() implies lists_id(after, #[trigger] post[m].stream_id@) by {
                        if m < pre.len() {
                            assert(pre[m] == post[m]);
                            let k = choose|k: int| 0 <= k < before.len() && #[trigger] before[k].stream_id@ == pre[m].stream_id@;
                            if k < p {
                                assert(after[k] == before[k]);
                            } else {
                                assert(after[k + 1] == before[k]);
                            }
                        } else {
                            assert(after[p as int].stream_id@ == eid);
                        }
                    }
                    assert forall|a: int, b: int| 0 <= a < b < after.len() implies str_lt(
                        #[trigger] after[a].stream_id@,
                        #[trigger] after[b].stream_id@,
                    ) by {
                        if a < p && b < p {
                            assert(after[a] == before[a] && after[b] == before[b]);
                        } else if a > p && b > p {
                            assert(after[a] == before[a - 1] && after[b] == before[b - 1]);
                        } else if a == p {
                            // the new id comes before every later one
                            assert(after[b] == before[b - 1]);
                            lemma_new_before(before, eid, p as int, b - 1);
                        } else if b == p {
                            assert(after[a] == before[a]);
                            lemma_old_before(before, eid, a);
                        } else {
                            // a < p < b
                            assert(after[a] == before[a] && after[b] == before[b - 1]);
                        }
                    }
                }
            }
            i = i + 1;
        }
        assert(es.take(es.len() as int) =~= es);
        out
    }

    /// Adds an event to the live tail, dropping the oldest one when the
    /// buffer holds `LIVE_TAIL_CAPACITY` events.
    pub fn push_live_event(&mut self, event: EventRecord)
        ensures
            final(self)@ == (AppStateView {
                live_events: live_push(old(self)@.live_events, event),
                ..old(self)@
            }),
    {
        if self.live_events.len() >= LIVE_TAIL_CAPACITY {
            self.live_events.pop_front();
        }
        self.live_events.push_back(event);
        proof {
            let old_live = old(self)@.live_events;
            if old_live.len() >= LIVE_TAIL_CAPACITY {
                assert(old_live.subrange(1, old_live.len() as int) =~= old_live.drop_first());
            }
        }
    }

    /// Length of the list shown on the current tab.
    pub fn current_list_len(&self) -> (r: usize)
        ensures
            r == list_len(self@),
    {
        match self.active_tab {
            Tab::Streams => self.streams.len(),
            Tab::StreamDetail => self.detail_events.len(),
            Tab::GlobalLog => self.global_events.len(),
            Tab::LiveTail => self.live_events.len(),
        }
    }

    /// The cursor of the list shown on the current tab.
    pub fn current_cursor_mut(&mut self) -> (r: &mut usize)
        ensures
            *r == cursor_of(old(self)@),
            final(self)@ == with_cursor(old(self)@, *final(r)),
    {
        match self.active_tab {
            Tab::Streams => &mut self.streams_cursor,
            Tab::StreamDetail => &mut self.detail_cursor,
            Tab::GlobalLog => &mut self.global_cursor,
            Tab::LiveTail => &mut self.live_cursor,
        }
    }

    /// Applies a user action.
    ///
    /// Switching to the stream list or the global log while it is empty and
    /// not loading marks it for loading. The cursor stays within the list.
    /// Selecting a stream on the stream list opens its events. Refresh marks
    /// the current tab for loading (the live tail refreshes by itself). Pause
    /// only acts on the live tail.
    #[verifier::spinoff_prover]
    #[verifier::rlimit(40)]
    pub fn apply_action(&mut self, action: Action)
        ensures
            final(self)@ == spec_apply(old(self)@, action),
    {
        match action {
            Action::Quit => self.should_quit = true,
            Action::SwitchTab(tab) => {
                self.active_tab = tab;
                match tab {
                    Tab::Streams => {
                        if self.streams.len() == 0 && !self.streams_loading {
                            self.streams_loading = true;
                        }
                    },
                    Tab::GlobalLog => {
                        if self.global_events.len() == 0 && !self.global_loading {
                            self.global_loading = true;
                        }
                    },
                    _ => {},
                }
            },
            Action::CursorUp => {
                let cursor = self.current_cursor_mut();
                *cursor = cursor.saturating_sub(1);
            },
            Action::CursorDown => {
                let len = self.current_list_len();
                let cursor = self.current_cursor_mut();
                if len > 0 {
                    *cursor = if *cursor < len - 1 {
                        *cursor + 1
                    } else {
                        len - 1
                    };
                }
            },
            Action::Select => {
                if self.active_tab == Tab::Streams && self.streams_cursor < self.streams.len() {
                    let id = self.streams[self.streams_cursor].stream_id.clone();
                    self.detail_stream_id = Some(id);
                    self.detail_events.clear();
                    self.detail_cursor = 0;
                    self.detail_loading = true;
                    self.active_tab = Tab::StreamDetail;
                }
            },
            Action::Refresh => {
                match self.active_tab {
                    Tab::Streams => self.streams_loading = true,
                    Tab::StreamDetail => self.detail_loading = true,
                    Tab::GlobalLog => self.global_loading = true,
                    Tab::LiveTail => {},
                }
            },
            Action::ToggleFormat => self.format_json = !self.format_json,
            Action::TogglePause => {
                if self.active_tab == Tab::LiveTail {
                    self.live_paused = !self.live_paused;
                }
            },
        }
    }
}

/// A key of the keyboard, as far as the console tells keys apart.
#[derive(Debug, Clone, Copy, PartialEq, Eq, Structural)]
pub enum KeyCode {
    /// A character key.
    Char(char),
    /// Escape.
    Esc,
    /// Tab.
    Tab,
    /// Shift-Tab.
    BackTab,
    /// Arrow down.
    Down,
    /// Arrow up.
    Up,
    /// Enter.
    Enter,
    /// Any other key.
    Other,
}

/// A key press: the key and whether Control was held.
#[derive(Debug, Clone, Copy, PartialEq, Eq, Structural)]
pub struct KeyEvent {
    /// The key pressed.
    pub code: KeyCode,
    /// Whether the Control modifier was held.
    pub control: bool,
}

impl KeyEvent {
    /// A key press.
    pub fn new(code: KeyCode, control: bool) -> (r: KeyEvent)
        ensures
            r.code == code,
            r.control == control,
    {
        KeyEvent { code, control }
    }
}

/// The action a key press asks for on tab `tab`, if any.
pub open spec fn spec_key_action(key: KeyEvent, tab: Tab) -> Option<Action> {
    match key.code {
        KeyCode::Char(c) => if c == 'q' {
            Some(Action::Quit)
        } else if c == '1' {
            Some(Action::SwitchTab(Tab::Streams))
        } else if c == '2' {
            Some(Action::SwitchTab(Tab::StreamDetail))
        } else if c == '3' {
            Some(Action::SwitchTab(Tab::GlobalLog))
        } else if c == '4' {
            Some(Action::SwitchTab(Tab::LiveTail))
        } else if c == 'j' {
            Some(Action::CursorDown)
        } else if c == 'k' {
            Some(Action::CursorUp)
        } else if c == 'r' {
            Some(Action::Refresh)
        } else if c == 'f' {
            Some(Action::ToggleFormat)
        } else if c == 'p' {
            Some(Action::TogglePause)
        } else if c == 'c' && key.control {
            Some(Action::Quit)
        } else {
            None
        },
        KeyCode::Esc => Some(Action::Quit),
        KeyCode::Tab => Some(Action::SwitchTab(spec_next(tab))),
        KeyCode::BackTab => Some(Action::SwitchTab(spec_prev(tab))),
        KeyCode::Down => Some(Action::CursorDown),
        KeyCode::Up => Some(Action::CursorUp),
        KeyCode::Enter => Some(Action::Select),
        KeyCode::Other => None,
    }
}

/// Maps a key press to an action.
///
/// `q`, Escape and Control-C quit; `1` to `4` show a tab; Tab and Shift-Tab
/// cycle through the tabs; `j` / Down and `k` / Up move the cursor; Enter
/// selects; `r` refreshes; `f` toggles JSON formatting; `p` pauses the live
/// tail. Other keys do nothing.
pub fn handle_key_event(key: KeyEvent, current_tab: Tab) -> (r: Option<Action>)
    ensures
        r == spec_key_action(key, current_tab),
{
    match key.code {
        KeyCode::Char(c) => {
            if c == 'q' {
                Some(Action::Quit)
            } else if c == '1' {
                Some(Action::SwitchTab(Tab::Streams))
            } else if c == '2' {
                Some(Action::SwitchTab(Tab::StreamDetail))
            } else if c == '3' {
                Some(Action::SwitchTab(Tab::GlobalLog))
            } else if c == '4' {
                Some(Action::SwitchTab(Tab::LiveTail))
            } else if c == 'j' {
                Some(Action::CursorDown)
            } else if c == 'k' {
                Some(Action::CursorUp)
            } else if c == 'r' {
                Some(Action::Refresh)
            } else if c == 'f' {
                Some(Action::ToggleFormat)
            } else if c == 'p' {
                Some(Action::TogglePause)
            } else if c == 'c' && key.control {
                Some(Action::Quit)
            } else {
                None
            }
        },
        KeyCode::Esc => Some(Action::Quit),
        KeyCode::Tab => Some(Action::SwitchTab(current_tab.next())),
        KeyCode::BackTab => Some(Action::SwitchTab(current_tab.prev())),
        KeyCode::Down => Some(Action::CursorDown),
        KeyCode::Up => Some(Action::CursorUp),
        KeyCode::Enter => Some(Action::Select),
        KeyCode::Other => None,
    }
}

/// The live tail keeps the most recent events: a buffer within capacity
/// stays within it, ends with the event received, and is what remains of
/// the old buffer followed by that event once the oldest are dropped.
pub proof fn law_live_tail_keeps_newest(live: Seq<EventRecord>, e: EventRecord)
    requires
        live.len() <= LIVE_TAIL_CAPACITY,
    ensures
        live_push(live, e).len() <= LIVE_TAIL_CAPACITY,
        live_push(live, e).last() == e,
        live_push(live, e) == live.push(e).skip(live.push(e).len() - live_push(live, e).len()),
{
    if live.len() >= LIVE_TAIL_CAPACITY {
        assert(live.drop_first().push(e) =~= live.push(e).skip(1));
    } else {
        assert(live.push(e) =~= live.push(e).skip(0));
    }
}

/// Cursor moves keep the cursor on an item: moving down never leaves a
/// non-empty list, and moving up never leaves a list the cursor was on.
pub proof fn law_cursor_stays_in_list(s: AppStateView)
    ensures
        list_len(s) > 0 ==> cursor_of(spec_apply(s, Action::CursorDown)) < list_len(s),
        cursor_of(s) < list_len(s) ==> cursor_of(spec_apply(s, Action::CursorUp)) < list_len(s),
        list_len(spec_apply(s, Action::CursorDown)) == list_len(s),
        list_len(spec_apply(s, Action::CursorUp)) == list_len(s),
{
}

/// What one event adds to the highest version of stream `id`.
pub open spec fn version_in(e: EventRecord, id: Seq<char>) -> u64 {
    if e.stream_id@ == id {
        e.stream_version
    } else {
        0
    }
}

/// The larger of two versions.
pub open spec fn max_u64(a: u64, b: u64) -> u64 {
    if a >= b {
        a
    } else {
        b
    }
}

/// Taking one event out of a list takes it out of its stream's count and
/// highest version.
proof fn lemma_stream_remove(es: Seq<EventRecord>, idx: int, id: Seq<char>)
    requires
        0 <= idx < es.len(),
    ensures
        stream_count(es, id) == stream_count(es.remove(idx), id) + if es[idx].stream_id@ == id {
            1nat
        } else {
            0nat
        },
        stream_latest(es, id) == max_u64(stream_latest(es.remove(idx), id), version_in(es[idx], id)),
    decreases es.len(),
{
    if idx == es.len() - 1 {
        assert(es.remove(idx) =~= es.drop_last());
    } else {
        lemma_stream_remove(es.drop_last(), idx, id);
        assert(es.drop_last().remove(idx) =~= es.remove(idx).drop_last());
        assert(es.remove(idx).last() == es.last());
    }
}

/// Counts and highest versions depend on the events, not on their order.
proof fn lemma_stream_permutation(es1: Seq<EventRecord>, es2: Seq<EventRecord>, id: Seq<char>)
    requires
        es1.to_multiset() == es2.to_multiset(),
    ensures
        stream_count(es1, id) == stream_count(es2, id),
        stream_latest(es1, id) == stream_latest(es2, id),
    decreases es1.len(),
{
    broadcast use vstd::seq_lib::group_to_multiset_ensures, vstd::multiset::group_multiset_axioms;

    if es1.len() == 0 {
        assert(es2.len() == es2.to_multiset().len());
        assert(es2.len() == 0);
    } else {
        let e = es1.last();
        let dl = es1.drop_last();
        assert(dl.push(e) =~= es1);
        assert(es1.to_multiset() == dl.to_multiset().insert(e));
        assert(es2.to_multiset().count(e) > 0);
        assert(es2.contains(e));
        let idx = choose|i: int| 0 <= i < es2.len() && es2[i] == e;
        let rest = es2.remove(idx);
        assert(rest.to_multiset() == es2.to_multiset().remove(e));
        assert(rest.to_multiset() =~= dl.to_multiset());
        lemma_stream_permutation(dl, rest, id);
        lemma_stream_remove(es2, idx, id);
    }
}

/// A stream with events in the list has one of them.
proof fn lemma_counted_is_listed(es: Seq<EventRecord>, id: Seq<char>)
    requires
        stream_count(es, id) > 0,
    ensures
        exists|j: int| 0 <= j < es.len() && #[trigger] es[j].stream_id@ == id,
    decreases es.len(),
{
    if es.last().stream_id@ != id {
        lemma_counted_is_listed(es.drop_last(), id);
        let j = choose|j: int| 0 <= j < es.drop_last().len() && #[trigger] es.drop_last()[j].stream_id@ == id;
        assert(es[j] == es.drop_last()[j]);
    } else {
        assert(es[es.len() - 1].stream_id@ == id);
    }
}

/// Two summary lists, each strictly ordered by stream id, that list the
/// same ids, list them at the same places.
proof fn lemma_sorted_same_ids(a: Seq<StreamInfo>, b: Seq<StreamInfo>)
    requires
        forall|i: int, j: int|
            0 <= i < j < a.len() ==> str_lt(#[trigger] a[i].stream_id@, #[trigger] a[j].stream_id@),
        forall|i: int, j: int|
            0 <= i < j < b.len() ==> str_lt(#[trigger] b[i].stream_id@, #[trigger] b[j].stream_id@),
        forall|k: int| 0 <= k < a.len() ==> lists_id(b, #[trigger] a[k].stream_id@),
        forall|k: int| 0 <= k < b.len() ==> lists_id(a, #[trigger] b[k].stream_id@),
    ensures
        a.len() == b.len(),
        forall|k: int| 0 <= k < a.len() ==> #[trigger] a[k].stream_id@ == b[k].stream_id@,
    decreases a.len(),
{
    if a.len() == 0 {
        if b.len() > 0 {
            assert(lists_id(a, b[0].stream_id@));
        }
    } else {
        assert(lists_id(b, a[0].stream_id@));
        let m = choose|m: int| 0 <= m < b.len() && #[trigger] b[m].stream_id@ == a[0].stream_id@;
        assert(lists_id(a, b[0].stream_id@));
        let k = choose|k: int| 0 <= k < a.len() && #[trigger] a[k].stream_id@ == b[0].stream_id@;
        let x = encode_utf8(a[0].stream_id@);
        let y = encode_utf8(b[0].stream_id@);
        if m > 0 && k > 0 {
            assert(str_lt(b[0].stream_id@, b[m].stream_id@));
            assert(str_lt(a[0].stream_id@, a[k].stream_id@));
            lemma_lex_transitive(x, y, x);
            lemma_lex_irreflexive(x);
        }
        assert(a[0].stream_id@ == b[0].stream_id@);
        let a1 = a.drop_first();
        let b1 = b.drop_first();
        assert forall|i: int| 0 <= i < a1.len() implies lists_id(b1, #[trigger] a1[i].stream_id@) by {
            assert(a1[i] == a[i + 1]);
            assert(lists_id(b, a[i + 1].stream_id@));
            let q = choose|q: int| 0 <= q < b.len() && #[trigger] b[q].stream_id@ == a[i + 1].stream_id@;
            if q == 0 {
                assert(str_lt(a[0].stream_id@, a[i + 1].stream_id@));
                lemma_lex_irreflexive(x);
            }
            assert(b1[q - 1] == b[q]);
        }
        assert forall|i: int| 0 <= i < b1.len() implies lists_id(a1, #[trigger] b1[i].stream_id@) by {
            assert(b1[i] == b[i + 1]);
            assert(lists_id(a, b[i + 1].stream_id@));
            let q = choose|q: int| 0 <= q < a.len() && #[trigger] a[q].stream_id@ == b[i + 1].stream_id@;
            if q == 0 {
                assert(str_lt(b[0].stream_id@, b[i + 1].stream_id@));
                lemma_lex_irreflexive(y);
            }
            assert(a1[q - 1] == a[q]);
        }
        assert forall|i: int, j: int| 0 <= i < j < a1.len() implies str_lt(
            #[trigger] a1[i].stream_id@,
            #[trigger] a1[j].stream_id@,
        ) by {
            assert(a1[i] == a[i + 1] && a1[j] == a[j + 1]);
        }
        assert forall|i: int, j: int| 0 <= i < j < b1.len() implies str_lt(
            #[trigger] b1[i].stream_id@,
            #[trigger] b1[j].stream_id@,
        ) by {
            assert(b1[i] == b[i + 1] && b1[j] == b[j + 1]);
        }
        lemma_sorted_same_ids(a1, b1);
        assert forall|i: int| 0 <= i < a.len() implies #[trigger] a[i].stream_id@ == b[i].stream_id@ by {
            if i > 0 {
                assert(a1[i - 1] == a[i] && b1[i - 1] == b[i]);
            }
        }
    }
}

/// The stream summaries do not depend on the order of the events: two
/// lists that hold the same events, in any order, are summarised by the
/// same entries at the same places.
pub proof fn law_summaries_ignore_event_order(
    es1: Seq<EventRecord>,
    es2: Seq<EventRecord>,
    a: Seq<StreamInfo>,
    b: Seq<StreamInfo>,
)
    requires
        es1.to_multiset() == es2.to_multiset(),
        summarises(es1, a),
        summarises(es2, b),
    ensures
        a.len() == b.len(),
        forall|k: int|
            #![trigger a[k]]
            0 <= k < a.len() ==> {
                &&& a[k].stream_id@ == b[k].stream_id@
                &&& a[k].event_count == b[k].event_count
                &&& a[k].latest_version == b[k].latest_version
            },
{
    broadcast use vstd::seq_lib::group_to_multiset_ensures;

    assert forall|k: int| 0 <= k < a.len() implies lists_id(b, #[trigger] a[k].stream_id@) by {
        let id = a[k].stream_id@;
        lemma_counted_is_listed(es1, id);
        let j = choose|j: int| 0 <= j < es1.len() && #[trigger] es1[j].stream_id@ == id;
        assert(es1.contains(es1[j]));
        assert(es2.to_multiset().count(es1[j]) > 0);
        let q = choose|q: int| 0 <= q < es2.len() && es2[q] == es1[j];
        assert(lists_id(b, es2[q].stream_id@));
    }
    assert forall|k: int| 0 <= k < b.len() implies lists_id(a, #[trigger] b[k].stream_id@) by {
        let id = b[k].stream_id@;
        lemma_counted_is_listed(es2, id);
        let j = choose|j: int| 0 <= j < es2.len() && #[trigger] es2[j].stream_id@ == id;
        assert(es2.contains(es2[j]));
        assert(es1.to_multiset().count(es2[j]) > 0);
        let q = choose|q: int| 0 <= q < es1.len() && es1[q] == es2[j];
        assert(lists_id(a, es1[q].stream_id@));
    }
    lemma_sorted_same_ids(a, b);
    assert forall|k: int| #![trigger a[k]] 0 <= k < a.len() implies {
        &&& a[k].stream_id@ == b[k].stream_id@
        &&& a[k].event_count == b[k].event_count
        &&& a[k].latest_version == b[k].latest_version
    } by {
        assert(a[k].stream_id@ == b[k].stream_id@);
        lemma_stream_permutation(es1, es2, a[k].stream_id@);
        assert(b[k].event_count == stream_count(es2, b[k].stream_id@));
    }
}

/// The digit keys show the tabs in the order of the tab bar: digit `i + 1`
/// (for `i` from 0 to 3) shows the tab at place `i`, the one titled
/// "Streams", "Stream Events", "Global Log" and "Live Tail" in turn, whatever
/// tab is current and whether Control is held.
pub proof fn law_digit_keys_follow_tab_order(key: KeyEvent, current: Tab, i: int, c: char)
    requires
        0 <= i < 4,
        key.code == KeyCode::Char(c),
        c as int == 49 + i,
    ensures
        spec_key_action(key, current) == Some(Action::SwitchTab(tab_at(i))),
        tab_index(tab_at(i)) == i,
        spec_label(tab_at(i)) == seq!["Streams"@, "Stream Events"@, "Global Log"@, "Live Tail"@][i],
{
    assert('1' as int == 49 && '2' as int == 50 && '3' as int == 51 && '4' as int == 52);
}

/// Refresh reloads the list shown, and only it: on the Streams, Stream
/// Events and Global Log tabs it marks that tab's list for loading; nothing
/// else changes, and on the Live Tail tab nothing changes at all.
pub proof fn law_refresh_reloads_list_shown(s: AppStateView)
    ensures
        ({
            let r = spec_apply(s, Action::Refresh);
            &&& r.streams_loading == (s.streams_loading || s.active_tab == Tab::Streams)
            &&& r.detail_loading == (s.detail_loading || s.active_tab == Tab::StreamDetail)
            &&& r.global_loading == (s.global_loading || s.active_tab == Tab::GlobalLog)
            &&& r == AppStateView {
                streams_loading: r.streams_loading,
                detail_loading: r.detail_loading,
                global_loading: r.global_loading,
                ..s
            }
        }),
{
}

/// Where a cursor in a list of `len` items lands after one step down (or
/// up): one place further, stopping at the last item (or the first).
pub open spec fn stepped_cursor(c: usize, len: nat, down: bool) -> usize {
    if down {
        if len == 0 {
            c
        } else if c + 1 < len {
            (c + 1) as usize
        } else {
            (len - 1) as usize
        }
    } else if c > 0 {
        (c - 1) as usize
    } else {
        0
    }
}

/// Cursor moves act on the list shown and on nothing else: on each tab, one
/// step up or down moves that tab's own cursor within its own list (the
/// streams, the stream's events, the global log or the live tail), and every
/// other cursor and the rest of the state stay as they were.
pub proof fn law_cursor_moves_act_on_list_shown(s: AppStateView, down: bool)
    ensures
        ({
            let r = spec_apply(s, if down { Action::CursorDown } else { Action::CursorUp });
            &&& r.streams_cursor == if s.active_tab == Tab::Streams {
                stepped_cursor(s.streams_cursor, s.streams.len(), down)
            } else {
                s.streams_cursor
            }
            &&& r.detail_cursor == if s.active_tab == Tab::StreamDetail {
                stepped_cursor(s.detail_cursor, s.detail_events.len(), down)
            } else {
                s.detail_cursor
            }
            &&& r.global_cursor == if s.active_tab == Tab::GlobalLog {
                stepped_cursor(s.global_cursor, s.global_events.len(), down)
            } else {
                s.global_cursor
            }
            &&& r.live_cursor == if s.active_tab == Tab::LiveTail {
                stepped_cursor(s.live_cursor, s.live_events.len(), down)
            } else {
                s.live_cursor
            }
            &&& r == AppStateView {
                streams_cursor: r.streams_cursor,
                detail_cursor: r.detail_cursor,
                global_cursor: r.global_cursor,
                live_cursor: r.live_cursor,
                ..s
            }
        }),
{
}

/// Select opens a stream only from the Streams tab: there, with the cursor
/// on a stream, it shows the Stream Events tab for that stream, with its
/// events cleared, the cursor at the top and the events to be loaded; on any
/// other tab, or with the cursor past the list, nothing changes.
pub proof fn law_select_opens_stream_from_streams_tab(s: AppStateView)
    ensures
        ({
            let r = spec_apply(s, Action::Select);
            if s.active_tab == Tab::Streams && s.streams_cursor < s.streams.len() {
                &&& r.active_tab == Tab::StreamDetail
                &&& r.detail_stream_id == Some(s.streams[s.streams_cursor as int].stream_id@)
                &&& r.detail_events.len() == 0
                &&& r.detail_cursor == 0
                &&& r.detail_loading
                &&& r == AppStateView {
                    active_tab: r.active_tab,
                    detail_stream_id: r.detail_stream_id,
                    detail_events: r.detail_events,
                    detail_cursor: r.detail_cursor,
                    detail_loading: r.detail_loading,
                    ..s
                }
            } else {
                r == s
            }
        }),
{
}

/// The key table: `q`, Escape and Control-C quit; Tab and Shift-Tab show
/// the next and the previous tab of the bar; `j` or Down and `k` or Up move
/// the cursor; Enter selects; `r` refreshes; `f` toggles JSON formatting;
/// `p` pauses; any other key does nothing.
pub proof fn law_key_bindings(key: KeyEvent, current: Tab)
    ensures
        ({
            let r = spec_key_action(key, current);
            &&& (key.code == KeyCode::Char('q') || key.code == KeyCode::Esc || (key.code
                == KeyCode::Char('c') && key.control)) ==> r == Some(Action::Quit)
            &&& key.code == KeyCode::Tab ==> (r matches Some(Action::SwitchTab(t)) && tab_index(t)
                == (tab_index(current) + 1) % 4)
            &&& key.code == KeyCode::BackTab ==> (r matches Some(Action::SwitchTab(t)) && (
            tab_index(t) + 1) % 4 == tab_index(current))
            &&& (key.code == KeyCode::Char('j') || key.code == KeyCode::Down) ==> r == Some(
                Action::CursorDown,
            )
            &&& (key.code == KeyCode::Char('k') || key.code == KeyCode::Up) ==> r == Some(
                Action::CursorUp,
            )
            &&& key.code == KeyCode::Enter ==> r == Some(Action::Select)
            &&& key.code == KeyCode::Char('r') ==> r == Some(Action::Refresh)
            &&& key.code == KeyCode::Char('f') ==> r == Some(Action::ToggleFormat)
            &&& key.code == KeyCode::Char('p') ==> r == Some(Action::TogglePause)
            &&& key.code == KeyCode::Other ==> r is None
            &&& (key.code matches KeyCode::Char(c) && !(c == 'q' || c == 'j' || c == 'k' || c == 'r'
                || c == 'f' || c == 'p' || ('1' <= c && c <= '4') || (c == 'c' && key.control)))
                ==> r is None
        }),
{
}

/// The other actions: Quit only asks the loop to stop; showing a tab makes
/// it current and, for the Streams or Global Log tab with nothing loaded and
/// nothing loading, marks its list for loading; toggling the format flips
/// it; pausing flips the pause on the Live Tail tab and does nothing
/// elsewhere. Nothing else changes.
pub proof fn law_other_actions(s: AppStateView, t: Tab)
    ensures
        spec_apply(s, Action::Quit) == (AppStateView { should_quit: true, ..s }),
        spec_apply(s, Action::ToggleFormat) == (AppStateView { format_json: !s.format_json, ..s }),
        spec_apply(s, Action::TogglePause) == (if s.active_tab == Tab::LiveTail {
            AppStateView { live_paused: !s.live_paused, ..s }
        } else {
            s
        }),
        spec_apply(s, Action::SwitchTab(t)) == (AppStateView {
            active_tab: t,
            streams_loading: s.streams_loading || (t == Tab::Streams && s.streams.len() == 0),
            global_loading: s.global_loading || (t == Tab::GlobalLog && s.global_events.len() == 0),
            ..s
        }),
{
}

} // verus!
