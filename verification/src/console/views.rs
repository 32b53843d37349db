//! Text helpers shared by the console's views.

use vstd::prelude::*;
use vstd::string::*;
use vstd::utf8::*;

use crate::codec::str_from_utf8;
use crate::console::app::StreamInfo;
use crate::text::{decimal, u64_decimal, usize_decimal};

verus! {

/// `s` cut to at most `max_width` characters: unchanged when it fits,
/// otherwise its first `max_width - 3` characters (none when `max_width`
/// is below 3) followed by `...`.
pub open spec fn spec_truncate(s: Seq<char>, max_width: nat) -> Seq<char> {
    if s.len() <= max_width {
        s
    } else {
        s.take(if max_width >= 3 { max_width - 3 } else { 0 }) + "..."@
    }
}

/// Cuts a string to fit a column, marking the cut with an ellipsis.
pub fn truncate(s: &str, max_width: usize) -> (r: String)
    ensures
        r@ == spec_truncate(s@, max_width as nat),
{
    if s.unicode_len() <= max_width {
        String::from_str(s)
    } else {
        let keep = max_width.saturating_sub(3);
        let mut out = String::from_str(s.substring_char(0, keep));
        out.append("...");
        proof {
            assert(s@.subrange(0, keep as int) =~= s@.take(keep as int));
        }
        out
    }
}

/// Number of bytes shown by the hexadecimal fallback.
pub const HEX_DUMP_LIMIT: usize = 128;

/// The pretty-printed JSON document that `bytes` holds, if they hold one.
pub uninterp spec fn json_pretty_of(bytes: Seq<u8>) -> Option<Seq<char>>;

/// Calls `serde_json::from_slice` into a `serde_json::Value` and, when that
/// succeeds, `serde_json::to_string_pretty` on the value. The contract claims
/// only that the outcome is a function of the bytes, named `json_pretty_of`.
#[verifier::external_body]
fn pretty_json(bytes: &[u8]) -> (r: Option<String>)
    ensures
        match r {
            Some(s) => json_pretty_of(bytes@) == Some(s@),
            None => json_pretty_of(bytes@) is None,
        },
{
    match serde_json::from_slice::<serde_json::Value>(bytes) {
        Ok(v) => serde_json::to_string_pretty(&v).ok(),
        Err(_) => None,
    }
}

/// The ASCII code of hexadecimal digit `d` (0 to 15), lowercase.
pub open spec fn hex_digit(d: u8) -> u8 {
    if d < 10 {
        (48 + d) as u8
    } else {
        (87 + d) as u8
    }
}

/// The two lowercase hexadecimal digits of a byte.
pub open spec fn hex_pair(b: u8) -> Seq<u8> {
    seq![hex_digit(b / 16), hex_digit(b % 16)]
}

/// The hexadecimal digits of each byte, separated by single spaces.
pub open spec fn hex_join(s: Seq<u8>) -> Seq<u8>
    decreases s.len(),
{
    if s.len() == 0 {
        Seq::empty()
    } else if s.len() == 1 {
        hex_pair(s[0])
    } else {
        hex_join(s.drop_last()) + seq![32u8] + hex_pair(s.last())
    }
}

/// The hexadecimal dump of `bytes`: the first `HEX_DUMP_LIMIT` bytes, and
/// ` ...` when some were left out.
pub open spec fn hex_dump(bytes: Seq<u8>) -> Seq<u8> {
    if bytes.len() > HEX_DUMP_LIMIT {
        hex_join(bytes.take(HEX_DUMP_LIMIT as int)) + seq![32u8, 46u8, 46u8, 46u8]
    } else {
        hex_join(bytes)
    }
}

/// The characters of ASCII bytes.
pub open spec fn ascii_text(bs: Seq<u8>) -> Seq<char> {
    bs.map_values(|b: u8| b as char)
}

/// How a payload or metadata field is shown: pretty-printed JSON when
/// asked for and the bytes hold JSON, else the text when they are UTF-8,
/// else a hexadecimal dump.
pub open spec fn spec_format_bytes(bytes: Seq<u8>, pretty_json: bool) -> Seq<char> {
    if pretty_json && json_pretty_of(bytes) is Some {
        json_pretty_of(bytes).unwrap()
    } else if valid_utf8(bytes) {
        decode_utf8(bytes)
    } else {
        ascii_text(hex_dump(bytes))
    }
}

/// All bytes are ASCII.
pub open spec fn all_ascii(bs: Seq<u8>) -> bool {
    forall|i: int| 0 <= i < bs.len() ==> #[trigger] bs[i] < 128
}

/// ASCII bytes are valid UTF-8 and encode their characters.
proof fn lemma_ascii_text(bs: Seq<u8>)
    requires
        all_ascii(bs),
    ensures
        valid_utf8(bs),
        encode_utf8(ascii_text(bs)) == bs,
{
    let cs = ascii_text(bs);
    assert forall|i: int| 0 <= i < cs.len() implies '\0' <= #[trigger] cs[i] <= '\u{7f}' by {
        assert(cs[i] == bs[i] as char);
    }
    assert(is_ascii_chars(cs));
    is_ascii_chars_encode_utf8(cs);
    assert forall|i: int| 0 <= i < bs.len() implies #[trigger] encode_utf8(cs)[i] == bs[i] by {
        assert(cs[i] == bs[i] as char);
        let b = bs[i];
        assert((b as char) as u8 == b);
    }
    assert(encode_utf8(cs) =~= bs);
    encode_utf8_valid_utf8(cs);
}

/// Hexadecimal digits and spaces are ASCII.
proof fn lemma_hex_join_ascii(s: Seq<u8>)
    ensures
        all_ascii(hex_join(s)),
        hex_join(s).len() == if s.len() == 0 { 0 } else { 3 * s.len() - 1 },
    decreases s.len(),
{
    if s.len() > 1 {
        lemma_hex_join_ascii(s.drop_last());
        let h = hex_join(s);
        let a = hex_join(s.drop_last());
        assert forall|i: int| 0 <= i < h.len() implies #[trigger] h[i] < 128 by {
            if i < a.len() {
                assert(h[i] == a[i]);
            }
        }
    }
}

/// The ASCII code of a hexadecimal digit.
fn hex_digit_code(d: u8) -> (r: u8)
    requires
        d < 16,
    ensures
        r == hex_digit(d),
{
    if d < 10 {
        48 + d
    } else {
        87 + d
    }
}

/// Shows bytes for display in a view: pretty-printed JSON when `pretty_json`
/// is set and the bytes hold a JSON document, otherwise their UTF-8 text,
/// otherwise a hexadecimal dump of the first `HEX_DUMP_LIMIT` bytes.
pub fn format_bytes(bytes: &[u8], pretty_json: bool) -> (r: String)
    ensures
        r@ == spec_format_bytes(bytes@, pretty_json),
{
    if pretty_json {
        if let Some(s) = self::pretty_json(bytes) {
            return s;
        }
    }
    if let Some(s) = str_from_utf8(bytes) {
        proof {
            encode_utf8_decode_utf8(s@);
        }
        return String::from_str(s);
    }
    let n = if bytes.len() > HEX_DUMP_LIMIT {
        HEX_DUMP_LIMIT
    } else {
        bytes.len()
    };
    let mut out: Vec<u8> = Vec::new();
    let mut i: usize = 0;
    while i < n
        invariant
            0 <= i <= n <= bytes@.len(),
            n <= HEX_DUMP_LIMIT,
            out@ == hex_join(bytes@.take(i as int)),
        decreases n - i,
    {
        let b = bytes[i];
        let ghost before = out@;
        if i > 0 {
            out.push(32u8);
        }
        out.push(hex_digit_code(b / 16));
        out.push(hex_digit_code(b % 16));
        proof {
            let t = bytes@.take(i + 1);
            assert(t.drop_last() =~= bytes@.take(i as int));
            assert(t.last() == b);
            if i > 0 {
                assert(out@ =~= before + seq![32u8] + hex_pair(b));
            } else {
                assert(out@ =~= hex_pair(b));
            }
        }
        i = i + 1;
    }
    if bytes.len() > HEX_DUMP_LIMIT {
        out.push(32u8);
        out.push(46u8);
        out.push(46u8);
        out.push(46u8);
    }
    proof {
        if bytes@.len() <= HEX_DUMP_LIMIT {
            assert(bytes@.take(n as int) =~= bytes@);
        }
        lemma_hex_join_ascii(bytes@.take(n as int));
        assert(out@ =~= hex_dump(bytes@));
        assert(all_ascii(out@));
        lemma_ascii_text(out@);
    }
    match str_from_utf8(out.as_slice()) {
        Some(s) => {
            proof {
                lemma_encode_injective_eq(s@, ascii_text(out@));
            }
            String::from_str(s)
        },
        None => {
            proof {
                assert(false);
            }
            String::new()
        },
    }
}

/// Strings with the same UTF-8 encoding are equal.
proof fn lemma_encode_injective_eq(a: Seq<char>, b: Seq<char>)
    requires
        encode_utf8(a) == encode_utf8(b),
    ensures
        a == b,
{
    encode_utf8_decode_utf8(a);
    encode_utf8_decode_utf8(b);
}

/// The rows of the live tail that fit in the table.
#[derive(Debug, Clone, Copy, PartialEq, Eq)]
pub struct Window {
    /// The highlighted event: the cursor when paused, else the newest event.
    pub cursor: usize,
    /// The first event shown.
    pub start: usize,
    /// One past the last event shown.
    pub end: usize,
}

/// `a - b`, or 0 when `b` exceeds `a`.
pub open spec fn sat_sub(a: int, b: int) -> int {
    if a >= b {
        a - b
    } else {
        0
    }
}

/// The window of a live tail of `len` events in a table of `height` rows:
/// it ends with the highlighted event when the tail is long enough, and
/// holds at most `height` events.
pub fn live_window(len: usize, height: usize, paused: bool, live_cursor: usize) -> (w: Window)
    ensures
        w.cursor == if paused { live_cursor as int } else { sat_sub(len as int, 1) },
        w.start == sat_sub(w.cursor as int, sat_sub(height as int, 1)),
        w.end == if len <= w.start + height { len as int } else { w.start + height },
{
    let cursor = if paused {
        live_cursor
    } else {
        len.saturating_sub(1)
    };
    let start = cursor.saturating_sub(height.saturating_sub(1));
    let end = if start >= len || len - start <= height {
        len
    } else {
        start + height
    };
    Window { cursor, start, end }
}

/// The status the live tail shows: paused, live once the catch-up is over,
/// else catching up.
pub open spec fn live_status_label(paused: bool, caught_up: bool) -> Seq<char> {
    if paused {
        "Paused"@
    } else if caught_up {
        "Live"@
    } else {
        "Catching up..."@
    }
}

/// The title of the live tail's table: its status and how many events it holds.
pub fn live_tail_title(paused: bool, caught_up: bool, count: usize) -> (r: String)
    ensures
        r@ == " Live Tail ["@ + live_status_label(paused, caught_up) + "] ("@ + decimal(count as nat)
            + " events) "@,
{
    let mut title = String::from_str(" Live Tail [");
    if paused {
        title.append("Paused");
    } else if caught_up {
        title.append("Live");
    } else {
        title.append("Catching up...");
    }
    title.append("] (");
    title.append(usize_decimal(count).as_str());
    title.append(" events) ");
    title
}

/// The message the streams table shows in place of rows: while the list is
/// loading, or when there is no stream; none when there are rows to show.
pub open spec fn spec_streams_placeholder(loading: bool, count: nat) -> Option<Seq<char>> {
    if loading {
        Some("Loading..."@)
    } else if count == 0 {
        Some("No streams found"@)
    } else {
        None
    }
}

/// The message the streams table shows in place of its `count` rows, if any.
pub fn streams_placeholder(loading: bool, count: usize) -> (r: Option<String>)
    ensures
        match r {
            Some(m) => spec_streams_placeholder(loading, count as nat) == Some(m@),
            None => spec_streams_placeholder(loading, count as nat) is None,
        },
{
    if loading {
        Some(String::from_str("Loading..."))
    } else if count == 0 {
        Some(String::from_str("No streams found"))
    } else {
        None
    }
}

/// One row of the streams table: the cells and whether the cursor is on it.
pub struct StreamRow {
    /// The stream's id.
    pub stream_id: String,
    /// How many events it holds, in decimal.
    pub event_count: String,
    /// Its latest version, in decimal.
    pub latest_version: String,
    /// The row is the one under the cursor.
    pub highlighted: bool,
}

/// The row of the streams table at `index` for stream `info`, with the
/// cursor at `cursor`.
pub fn stream_row(info: &StreamInfo, index: usize, cursor: usize) -> (r: StreamRow)
    ensures
        r.stream_id@ == info.stream_id@,
        r.event_count@ == decimal(info.event_count as nat),
        r.latest_version@ == decimal(info.latest_version as nat),
        r.highlighted == (index == cursor),
{
    StreamRow {
        stream_id: info.stream_id.clone(),
        event_count: u64_decimal(info.event_count),
        latest_version: u64_decimal(info.latest_version),
        highlighted: index == cursor,
    }
}

} // verus!
