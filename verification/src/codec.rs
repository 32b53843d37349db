//! The binary format of the append-only log.
//!
//! A log file is an 8-byte file header followed by batches. A batch is a
//! 16-byte batch header (magic, record count, first global position), the
//! records, and an 8-byte batch footer (magic, CRC-32 of header and records).
//! A record is a 4-byte body length, the body, and a CRC-32 of the body.
//! The body holds, in order: event id (16 bytes), stream id (16), stream
//! version (8), global position (8), recorded-at timestamp (8), event type
//! length (2) and bytes, metadata length (4) and bytes, payload length (4)
//! and bytes. All integers are little-endian.

use vstd::bytes::*;
use vstd::prelude::*;
use vstd::slice::*;
use vstd::string::*;
use vstd::utf8::*;

use crate::crc::{crc32, crc32_of};
use crate::error::Error;
use crate::types::{RecordedEvent, RecordedEventView};

verus! {

/// Little-endian value of the bytes "EFDB" that open every log file.
pub const FILE_HEADER_MAGIC: u32 = 0x4244_4645;

/// Version of the log format written and accepted by this library.
pub const FORMAT_VERSION: u32 = 2;

/// Size of the file header in bytes.
pub const HEADER_SIZE: usize = 8;

/// Little-endian value of the bytes "EFBH" that open every batch.
pub const BATCH_HEADER_MAGIC: u32 = 0x4842_4645;

/// Little-endian value of the bytes "EFBF" that open every batch footer.
pub const BATCH_FOOTER_MAGIC: u32 = 0x4642_4645;

/// Size of a batch header in bytes.
pub const BATCH_HEADER_SIZE: usize = 16;

/// Size of a batch footer in bytes.
pub const BATCH_FOOTER_SIZE: usize = 8;

/// Size of the fixed-width part of a record body.
pub const RECORD_FIXED_BODY: usize = 66;

/// Bytes a record adds to its variable-length fields.
pub const RECORD_OVERHEAD: usize = 74;

/// Result of decoding one item from the front of a byte buffer.
#[derive(Debug)]
pub enum DecodeOutcome<T> {
    /// The item decoded; `consumed` bytes were used.
    Complete { value: T, consumed: usize },
    /// The buffer ends before the item does.
    Incomplete,
}

/// Mathematical outcome of decoding an item from a byte sequence.
pub enum SpecDecode<T> {
    Complete(T, nat),
    Incomplete,
    Corrupt,
}

/// A decoded batch header.
#[derive(Debug, Clone, Copy, PartialEq, Eq, Structural)]
pub struct BatchHeader {
    /// Number of records in the batch.
    pub record_count: u32,
    /// Global position of the batch's first record.
    pub first_global_pos: u64,
}

/// A decoded batch footer.
#[derive(Debug, Clone, Copy, PartialEq, Eq, Structural)]
pub struct BatchFooter {
    /// CRC-32 of the batch header bytes followed by the record bytes.
    pub batch_crc: u32,
}

// ---------------------------------------------------------------------------
// Little-endian field access
// ---------------------------------------------------------------------------

/// The little-endian `u16` at offset `i` of `s`.
pub open spec fn le16_at(s: Seq<u8>, i: int) -> u16 {
    spec_u16_from_le_bytes(s.subrange(i, i + 2))
}

/// The little-endian `u32` at offset `i` of `s`.
pub open spec fn le32_at(s: Seq<u8>, i: int) -> u32 {
    spec_u32_from_le_bytes(s.subrange(i, i + 4))
}

/// The little-endian `u64` at offset `i` of `s`.
pub open spec fn le64_at(s: Seq<u8>, i: int) -> u64 {
    spec_u64_from_le_bytes(s.subrange(i, i + 8))
}

/// The little-endian `u128` at offset `i` of `s`.
pub open spec fn le128_at(s: Seq<u8>, i: int) -> u128 {
    spec_u128_from_le_bytes(s.subrange(i, i + 16))
}

/// Appends `src` to `out`.
pub(crate) fn append_bytes(out: &mut Vec<u8>, src: &[u8])
    ensures
        final(out)@ == old(out)@ + src@,
{
    let ghost before = out@;
    out.extend_from_slice(src);
    assert(out@ =~= before + src@);
}

// ---------------------------------------------------------------------------
// File header
// ---------------------------------------------------------------------------

/// The eight bytes that open every log file.
pub open spec fn spec_file_header() -> Seq<u8> {
    spec_u32_to_le_bytes(FILE_HEADER_MAGIC) + spec_u32_to_le_bytes(FORMAT_VERSION)
}

/// Encodes the file header.
pub fn encode_header() -> (r: Vec<u8>)
    ensures
        r@ == spec_file_header(),
        r@.len() == HEADER_SIZE,
{
    proof {
        lemma_auto_spec_u32_to_from_le_bytes();
    }
    let mut out = u32_to_le_bytes(FILE_HEADER_MAGIC);
    let mut version = u32_to_le_bytes(FORMAT_VERSION);
    out.append(&mut version);
    out
}

/// Checks an eight-byte file header.
///
/// Fails with `InvalidHeader` naming the magic when the first four bytes are
/// not "EFDB", and naming the version when the format version is not
/// `FORMAT_VERSION`.
pub fn decode_header(header: &[u8]) -> (r: Result<(), Error>)
    requires
        header@.len() == HEADER_SIZE,
    ensures
        r is Ok <==> header@ == spec_file_header(),
        r is Err ==> (r matches Err(Error::InvalidHeader(m)) && m@ == (if le32_at(header@, 0)
            != FILE_HEADER_MAGIC {
            "bad magic bytes in file header"@
        } else {
            "unsupported format version in file header"@
        })),
        le32_at(header@, 0) != FILE_HEADER_MAGIC ==> (r matches Err(Error::InvalidHeader(m))
            && m@ == "bad magic bytes in file header"@),
        le32_at(header@, 0) == FILE_HEADER_MAGIC && le32_at(header@, 4) != FORMAT_VERSION ==> (
        r matches Err(Error::InvalidHeader(m)) && m@ == "unsupported format version in file header"@),
{
    proof {
        lemma_auto_spec_u32_to_from_le_bytes();
        assert(header@ =~= header@.subrange(0, 4) + header@.subrange(4, 8));
        if header@ == spec_file_header() {
            assert(header@.subrange(0, 4) =~= spec_u32_to_le_bytes(FILE_HEADER_MAGIC));
            assert(header@.subrange(4, 8) =~= spec_u32_to_le_bytes(FORMAT_VERSION));
        }
    }
    let magic = u32_from_le_bytes(slice_subrange(header, 0, 4));
    if magic != FILE_HEADER_MAGIC {
        return Err(Error::InvalidHeader(String::from_str("bad magic bytes in file header")));
    }
    let version = u32_from_le_bytes(slice_subrange(header, 4, 8));
    if version != FORMAT_VERSION {
        return Err(
            Error::InvalidHeader(String::from_str("unsupported format version in file header")),
        );
    }
    Ok(())
}

// ---------------------------------------------------------------------------
// Batch header and footer
// ---------------------------------------------------------------------------

/// The bytes of a batch header: magic, record count, first global position.
pub open spec fn spec_encode_batch_header(record_count: u32, first_global_pos: u64) -> Seq<u8> {
    spec_u32_to_le_bytes(BATCH_HEADER_MAGIC) + spec_u32_to_le_bytes(record_count)
        + spec_u64_to_le_bytes(first_global_pos)
}

/// Decoding a batch header from the front of `s`.
pub open spec fn spec_decode_batch_header(s: Seq<u8>) -> SpecDecode<BatchHeader> {
    if s.len() < BATCH_HEADER_SIZE {
        SpecDecode::Incomplete
    } else if le32_at(s, 0) != BATCH_HEADER_MAGIC {
        SpecDecode::Corrupt
    } else {
        SpecDecode::Complete(
            BatchHeader { record_count: le32_at(s, 4), first_global_pos: le64_at(s, 8) },
            BATCH_HEADER_SIZE as nat,
        )
    }
}

/// The bytes of a batch footer: magic and CRC.
pub open spec fn spec_encode_batch_footer(batch_crc: u32) -> Seq<u8> {
    spec_u32_to_le_bytes(BATCH_FOOTER_MAGIC) + spec_u32_to_le_bytes(batch_crc)
}

/// Decoding a batch footer from the front of `s`.
pub open spec fn spec_decode_batch_footer(s: Seq<u8>) -> SpecDecode<BatchFooter> {
    if s.len() < BATCH_FOOTER_SIZE {
        SpecDecode::Incomplete
    } else if le32_at(s, 0) != BATCH_FOOTER_MAGIC {
        SpecDecode::Corrupt
    } else {
        SpecDecode::Complete(BatchFooter { batch_crc: le32_at(s, 4) }, BATCH_FOOTER_SIZE as nat)
    }
}

/// The mathematical outcome that an executable decoding result stands for:
/// `Ok(Complete)`, `Ok(Incomplete)`, or an error (always `CorruptRecord`).
pub open spec fn outcome_of<T, V>(
    r: Result<DecodeOutcome<T>, Error>,
    f: spec_fn(T) -> V,
) -> SpecDecode<V> {
    match r {
        Ok(DecodeOutcome::Complete { value, consumed }) => SpecDecode::Complete(
            f(value),
            consumed as nat,
        ),
        Ok(DecodeOutcome::Incomplete) => SpecDecode::Incomplete,
        Err(_) => SpecDecode::Corrupt,
    }
}

/// The identity, for decoders whose values are their own models.
pub open spec fn same<T>() -> spec_fn(T) -> T {
    |x: T| x
}

/// Only `CorruptRecord` is ever returned as a decoding error.
pub open spec fn error_is_corrupt<T>(r: Result<DecodeOutcome<T>, Error>) -> bool {
    r is Err ==> r->Err_0 is CorruptRecord
}

/// A `CorruptRecord` decoding error with the given detail.
fn corrupt<T>(detail: &str) -> (r: Result<DecodeOutcome<T>, Error>)
    ensures
        r matches Err(Error::CorruptRecord { position, detail: d }) && position == 0 && d@
            == detail@,
{
    Err(Error::CorruptRecord { position: 0, detail: String::from_str(detail) })
}

/// Encodes a batch header.
pub fn encode_batch_header(record_count: u32, first_global_pos: u64) -> (r: Vec<u8>)
    ensures
        r@ == spec_encode_batch_header(record_count, first_global_pos),
        r@.len() == BATCH_HEADER_SIZE,
{
    proof {
        lemma_auto_spec_u32_to_from_le_bytes();
        lemma_auto_spec_u64_to_from_le_bytes();
    }
    let mut out = u32_to_le_bytes(BATCH_HEADER_MAGIC);
    let mut count = u32_to_le_bytes(record_count);
    let mut first = u64_to_le_bytes(first_global_pos);
    out.append(&mut count);
    out.append(&mut first);
    out
}

/// Decodes a batch header from the front of `data`.
pub fn decode_batch_header(data: &[u8]) -> (r: Result<DecodeOutcome<BatchHeader>, Error>)
    ensures
        outcome_of(r, same()) == spec_decode_batch_header(data@),
        error_is_corrupt(r),
{
    if data.len() < BATCH_HEADER_SIZE {
        return Ok(DecodeOutcome::Incomplete);
    }
    let magic = u32_from_le_bytes(slice_subrange(data, 0, 4));
    if magic != BATCH_HEADER_MAGIC {
        return corrupt("bad batch header magic");
    }
    let record_count = u32_from_le_bytes(slice_subrange(data, 4, 8));
    let first_global_pos = u64_from_le_bytes(slice_subrange(data, 8, 16));
    Ok(
        DecodeOutcome::Complete {
            value: BatchHeader { record_count, first_global_pos },
            consumed: BATCH_HEADER_SIZE,
        },
    )
}

/// Encodes a batch footer.
pub fn encode_batch_footer(batch_crc: u32) -> (r: Vec<u8>)
    ensures
        r@ == spec_encode_batch_footer(batch_crc),
        r@.len() == BATCH_FOOTER_SIZE,
{
    proof {
        lemma_auto_spec_u32_to_from_le_bytes();
    }
    let mut out = u32_to_le_bytes(BATCH_FOOTER_MAGIC);
    let mut crc = u32_to_le_bytes(batch_crc);
    out.append(&mut crc);
    out
}

/// Decodes a batch footer from the front of `data`.
pub fn decode_batch_footer(data: &[u8]) -> (r: Result<DecodeOutcome<BatchFooter>, Error>)
    ensures
        outcome_of(r, same()) == spec_decode_batch_footer(data@),
        error_is_corrupt(r),
{
    if data.len() < BATCH_FOOTER_SIZE {
        return Ok(DecodeOutcome::Incomplete);
    }
    let magic = u32_from_le_bytes(slice_subrange(data, 0, 4));
    if magic != BATCH_FOOTER_MAGIC {
        return corrupt("bad batch footer magic");
    }
    let batch_crc = u32_from_le_bytes(slice_subrange(data, 4, 8));
    Ok(DecodeOutcome::Complete { value: BatchFooter { batch_crc }, consumed: BATCH_FOOTER_SIZE })
}

// ---------------------------------------------------------------------------
// Records
// ---------------------------------------------------------------------------

/// Whether an event fits the record format's length fields.
pub open spec fn record_encodable(e: RecordedEventView) -> bool {
    &&& encode_utf8(e.event_type).len() <= 0xffff
    &&& RECORD_FIXED_BODY + encode_utf8(e.event_type).len() + e.metadata.len() + e.payload.len()
        <= 0xffff_ffff
}

/// Number of bytes the record encoding of `e` takes.
pub open spec fn record_len(e: RecordedEventView) -> int {
    RECORD_OVERHEAD + encode_utf8(e.event_type).len() + e.metadata.len() + e.payload.len()
}

/// The body of the record encoding of `e` (everything between length and checksum).
pub open spec fn spec_record_body(e: RecordedEventView) -> Seq<u8> {
    let tb = encode_utf8(e.event_type);
    spec_u128_to_le_bytes(e.event_id) + spec_u128_to_le_bytes(e.stream_id) + spec_u64_to_le_bytes(
        e.stream_version,
    ) + spec_u64_to_le_bytes(e.global_position) + spec_u64_to_le_bytes(e.recorded_at)
        + spec_u16_to_le_bytes(tb.len() as u16) + tb + spec_u32_to_le_bytes(
        e.metadata.len() as u32,
    ) + e.metadata + spec_u32_to_le_bytes(e.payload.len() as u32) + e.payload
}

/// The record encoding of `e`: body length, body, CRC-32 of the body.
pub open spec fn spec_encode_record(e: RecordedEventView) -> Seq<u8> {
    let body = spec_record_body(e);
    spec_u32_to_le_bytes(body.len() as u32) + body + spec_u32_to_le_bytes(crc32_of(body))
}

/// Parses a record body whose checksum has been checked.
pub open spec fn spec_parse_body(b: Seq<u8>) -> Option<RecordedEventView> {
    if b.len() < RECORD_FIXED_BODY {
        None
    } else {
        let tl = le16_at(b, 56) as int;
        if b.len() < RECORD_FIXED_BODY + tl {
            None
        } else {
            let ml = le32_at(b, 58 + tl) as int;
            if b.len() < RECORD_FIXED_BODY + tl + ml {
                None
            } else {
                let pl = le32_at(b, 62 + tl + ml) as int;
                let tb = b.subrange(58, 58 + tl);
                if b.len() != RECORD_FIXED_BODY + tl + ml + pl || !valid_utf8(tb) {
                    None
                } else {
                    Some(
                        RecordedEventView {
                            event_id: le128_at(b, 0),
                            stream_id: le128_at(b, 16),
                            stream_version: le64_at(b, 32),
                            global_position: le64_at(b, 40),
                            recorded_at: le64_at(b, 48),
                            event_type: decode_utf8(tb),
                            metadata: b.subrange(62 + tl, 62 + tl + ml),
                            payload: b.subrange(66 + tl + ml, b.len() as int),
                        },
                    )
                }
            }
        }
    }
}

/// Decodes one record from the front of `s`.
pub open spec fn spec_decode_record(s: Seq<u8>) -> SpecDecode<RecordedEventView> {
    if s.len() < 4 {
        SpecDecode::Incomplete
    } else {
        let n = le32_at(s, 0) as int;
        if s.len() < n + 8 {
            SpecDecode::Incomplete
        } else {
            let body = s.subrange(4, 4 + n);
            if le32_at(s, 4 + n) != crc32_of(body) {
                SpecDecode::Corrupt
            } else {
                match spec_parse_body(body) {
                    Some(e) => SpecDecode::Complete(e, (n + 8) as nat),
                    None => SpecDecode::Corrupt,
                }
            }
        }
    }
}

/// The model of a recorded event, as a function.
pub open spec fn event_view() -> spec_fn(RecordedEvent) -> RecordedEventView {
    |e: RecordedEvent| e@
}

/// Calls `std::str::from_utf8`; `Some` exactly when the bytes are valid UTF-8,
/// and then the string's bytes are the input bytes.
#[verifier::external_body]
pub(crate) fn str_from_utf8(bytes: &[u8]) -> (r: Option<&str>)
    ensures
        match r {
            Some(s) => valid_utf8(bytes@) && s.spec_bytes() == bytes@,
            None => !valid_utf8(bytes@),
        },
{
    std::str::from_utf8(bytes).ok()
}

/// Encodes one record.
pub fn encode_record(event: &RecordedEvent) -> (r: Vec<u8>)
    requires
        record_encodable(event@),
    ensures
        r@ == spec_encode_record(event@),
        r@.len() == record_len(event@),
{
    proof {
        lemma_auto_spec_u16_to_from_le_bytes();
        lemma_auto_spec_u32_to_from_le_bytes();
        lemma_auto_spec_u64_to_from_le_bytes();
        lemma_auto_spec_u128_to_from_le_bytes();
    }
    let tb = event.event_type.as_str().as_bytes();
    let tl = tb.len();
    let ml = event.metadata.len();
    let pl = event.payload.len();
    let mut body = u128_to_le_bytes(event.event_id);
    append_bytes(&mut body, u128_to_le_bytes(event.stream_id).as_slice());
    append_bytes(&mut body, u64_to_le_bytes(event.stream_version).as_slice());
    append_bytes(&mut body, u64_to_le_bytes(event.global_position).as_slice());
    append_bytes(&mut body, u64_to_le_bytes(event.recorded_at).as_slice());
    append_bytes(&mut body, u16_to_le_bytes(tl as u16).as_slice());
    append_bytes(&mut body, tb);
    append_bytes(&mut body, u32_to_le_bytes(ml as u32).as_slice());
    append_bytes(&mut body, event.metadata.as_slice());
    append_bytes(&mut body, u32_to_le_bytes(pl as u32).as_slice());
    append_bytes(&mut body, event.payload.as_slice());
    assert(body@ == spec_record_body(event@));
    let crc = crc32(body.as_slice());
    let mut out = u32_to_le_bytes(body.len() as u32);
    append_bytes(&mut out, body.as_slice());
    append_bytes(&mut out, u32_to_le_bytes(crc).as_slice());
    out
}

/// Parses a record body whose checksum has been checked.
fn parse_body(b: &[u8]) -> (r: Option<RecordedEvent>)
    ensures
        match r {
            Some(e) => spec_parse_body(b@) == Some(e@),
            None => spec_parse_body(b@) is None,
        },
{
    let len = b.len();
    if len < RECORD_FIXED_BODY {
        return None;
    }
    let tl = u16_from_le_bytes(slice_subrange(b, 56, 58)) as usize;
    if len - RECORD_FIXED_BODY < tl {
        return None;
    }
    let ml = u32_from_le_bytes(slice_subrange(b, 58 + tl, 62 + tl)) as usize;
    if len - RECORD_FIXED_BODY - tl < ml {
        return None;
    }
    let pl = u32_from_le_bytes(slice_subrange(b, 62 + tl + ml, 66 + tl + ml)) as usize;
    if len - RECORD_FIXED_BODY - tl - ml != pl {
        return None;
    }
    let type_text = match str_from_utf8(slice_subrange(b, 58, 58 + tl)) {
        Some(t) => t,
        None => {
            return None;
        },
    };
    let event_type = type_text.to_owned();
    proof {
        decode_utf8_encode_utf8(b@.subrange(58, 58 + tl as int));
        encode_utf8_decode_utf8(type_text@);
    }
    let metadata = slice_to_vec(slice_subrange(b, 62 + tl, 62 + tl + ml));
    let payload = slice_to_vec(slice_subrange(b, 66 + tl + ml, len));
    Some(
        RecordedEvent {
            event_id: u128_from_le_bytes(slice_subrange(b, 0, 16)),
            stream_id: u128_from_le_bytes(slice_subrange(b, 16, 32)),
            stream_version: u64_from_le_bytes(slice_subrange(b, 32, 40)),
            global_position: u64_from_le_bytes(slice_subrange(b, 40, 48)),
            recorded_at: u64_from_le_bytes(slice_subrange(b, 48, 56)),
            event_type,
            metadata,
            payload,
        },
    )
}

/// Decodes one record from the front of `data`.
///
/// `Incomplete` when `data` ends before the record does; `CorruptRecord` when
/// the checksum does not match or the body is malformed.
pub fn decode_record(data: &[u8]) -> (r: Result<DecodeOutcome<RecordedEvent>, Error>)
    ensures
        outcome_of(r, event_view()) == spec_decode_record(data@),
        error_is_corrupt(r),
{
    let len = data.len();
    if len < 4 {
        return Ok(DecodeOutcome::Incomplete);
    }
    let n = u32_from_le_bytes(slice_subrange(data, 0, 4)) as usize;
    if len - 4 < n || len - 4 - n < 4 {
        return Ok(DecodeOutcome::Incomplete);
    }
    let body = slice_subrange(data, 4, 4 + n);
    let stored_crc = u32_from_le_bytes(slice_subrange(data, 4 + n, 8 + n));
    if stored_crc != crc32(body) {
        return corrupt("record checksum mismatch");
    }
    match parse_body(body) {
        Some(event) => Ok(DecodeOutcome::Complete { value: event, consumed: n + 8 }),
        None => corrupt("malformed record body"),
    }
}

// ---------------------------------------------------------------------------
// Decoding what was encoded
// ---------------------------------------------------------------------------

/// Decoding a record's encoding, whatever follows it, gives back the event
/// and consumes exactly the encoding.
#[verifier::spinoff_prover]
#[verifier::rlimit(60)]
pub proof fn lemma_record_roundtrip(e: RecordedEventView, rest: Seq<u8>)
    requires
        record_encodable(e),
    ensures
        spec_encode_record(e).len() == record_len(e),
        spec_decode_record(spec_encode_record(e) + rest) == SpecDecode::Complete(
            e,
            record_len(e) as nat,
        ),
{
    lemma_auto_spec_u16_to_from_le_bytes();
    lemma_auto_spec_u32_to_from_le_bytes();
    lemma_auto_spec_u64_to_from_le_bytes();
    lemma_auto_spec_u128_to_from_le_bytes();
    encode_utf8_valid_utf8(e.event_type);
    encode_utf8_decode_utf8(e.event_type);
    let tb = encode_utf8(e.event_type);
    let tl = tb.len() as int;
    let ml = e.metadata.len() as int;
    let pl = e.payload.len() as int;
    let body = spec_record_body(e);
    let n = body.len() as int;
    assert(n == RECORD_FIXED_BODY + tl + ml + pl);
    let enc = spec_encode_record(e);
    let s = enc + rest;
    assert(s.subrange(0, 4) =~= spec_u32_to_le_bytes(n as u32));
    assert(s.subrange(4, 4 + n) =~= body);
    assert(s.subrange(4 + n, 8 + n) =~= spec_u32_to_le_bytes(crc32_of(body)));
    assert(body.subrange(0, 16) =~= spec_u128_to_le_bytes(e.event_id));
    assert(body.subrange(16, 32) =~= spec_u128_to_le_bytes(e.stream_id));
    assert(body.subrange(32, 40) =~= spec_u64_to_le_bytes(e.stream_version));
    assert(body.subrange(40, 48) =~= spec_u64_to_le_bytes(e.global_position));
    assert(body.subrange(48, 56) =~= spec_u64_to_le_bytes(e.recorded_at));
    assert(body.subrange(56, 58) =~= spec_u16_to_le_bytes(tl as u16));
    assert(body.subrange(58, 58 + tl) =~= tb);
    assert(body.subrange(58 + tl, 62 + tl) =~= spec_u32_to_le_bytes(ml as u32));
    assert(body.subrange(62 + tl, 62 + tl + ml) =~= e.metadata);
    assert(body.subrange(62 + tl + ml, 66 + tl + ml) =~= spec_u32_to_le_bytes(pl as u32));
    assert(body.subrange(66 + tl + ml, n) =~= e.payload);
    assert(spec_parse_body(body) == Some(e));
}

/// Decoding a batch header's encoding, whatever follows it, gives back its fields.
pub proof fn lemma_batch_header_roundtrip(record_count: u32, first_global_pos: u64, rest: Seq<u8>)
    ensures
        spec_encode_batch_header(record_count, first_global_pos).len() == BATCH_HEADER_SIZE,
        spec_decode_batch_header(spec_encode_batch_header(record_count, first_global_pos) + rest)
            == SpecDecode::Complete(
            BatchHeader { record_count, first_global_pos },
            BATCH_HEADER_SIZE as nat,
        ),
{
    lemma_auto_spec_u32_to_from_le_bytes();
    lemma_auto_spec_u64_to_from_le_bytes();
    let s = spec_encode_batch_header(record_count, first_global_pos) + rest;
    assert(s.subrange(0, 4) =~= spec_u32_to_le_bytes(BATCH_HEADER_MAGIC));
    assert(s.subrange(4, 8) =~= spec_u32_to_le_bytes(record_count));
    assert(s.subrange(8, 16) =~= spec_u64_to_le_bytes(first_global_pos));
}

/// Decoding a batch footer's encoding, whatever follows it, gives back its checksum.
pub proof fn lemma_batch_footer_roundtrip(batch_crc: u32, rest: Seq<u8>)
    ensures
        spec_encode_batch_footer(batch_crc).len() == BATCH_FOOTER_SIZE,
        spec_decode_batch_footer(spec_encode_batch_footer(batch_crc) + rest) == SpecDecode::Complete(
            BatchFooter { batch_crc },
            BATCH_FOOTER_SIZE as nat,
        ),
{
    lemma_auto_spec_u32_to_from_le_bytes();
    let s = spec_encode_batch_footer(batch_crc) + rest;
    assert(s.subrange(0, 4) =~= spec_u32_to_le_bytes(BATCH_FOOTER_MAGIC));
    assert(s.subrange(4, 8) =~= spec_u32_to_le_bytes(batch_crc));
}

// ---------------------------------------------------------------------------
// Decoding depends only on the bytes consumed
// ---------------------------------------------------------------------------

/// A record decodes the same from any buffer that starts with the same
/// bytes it consumed.
pub proof fn lemma_record_decode_prefix(s1: Seq<u8>, s2: Seq<u8>)
    requires
        spec_decode_record(s1) is Complete,
        s2.len() >= spec_decode_record(s1)->Complete_1,
        s2.subrange(0, spec_decode_record(s1)->Complete_1 as int) == s1.subrange(
            0,
            spec_decode_record(s1)->Complete_1 as int,
        ),
    ensures
        spec_decode_record(s2) == spec_decode_record(s1),
{
    let c = spec_decode_record(s1)->Complete_1 as int;
    let n = le32_at(s1, 0) as int;
    assert(c == n + 8);
    assert(s1.subrange(0, 4) =~= s1.subrange(0, c).subrange(0, 4));
    assert(s2.subrange(0, 4) =~= s2.subrange(0, c).subrange(0, 4));
    assert(s1.subrange(4, 4 + n) =~= s1.subrange(0, c).subrange(4, 4 + n));
    assert(s2.subrange(4, 4 + n) =~= s2.subrange(0, c).subrange(4, 4 + n));
    assert(s1.subrange(4 + n, 8 + n) =~= s1.subrange(0, c).subrange(4 + n, 8 + n));
    assert(s2.subrange(4 + n, 8 + n) =~= s2.subrange(0, c).subrange(4 + n, 8 + n));
}

/// A batch header decodes the same from any buffer that starts with the same
/// sixteen bytes.
pub proof fn lemma_batch_header_decode_prefix(s1: Seq<u8>, s2: Seq<u8>)
    requires
        spec_decode_batch_header(s1) is Complete,
        s2.len() >= BATCH_HEADER_SIZE,
        s2.subrange(0, BATCH_HEADER_SIZE as int) == s1.subrange(0, BATCH_HEADER_SIZE as int),
    ensures
        spec_decode_batch_header(s2) == spec_decode_batch_header(s1),
{
    let c = BATCH_HEADER_SIZE as int;
    assert(s1.subrange(0, 4) =~= s1.subrange(0, c).subrange(0, 4));
    assert(s2.subrange(0, 4) =~= s2.subrange(0, c).subrange(0, 4));
    assert(s1.subrange(4, 8) =~= s1.subrange(0, c).subrange(4, 8));
    assert(s2.subrange(4, 8) =~= s2.subrange(0, c).subrange(4, 8));
    assert(s1.subrange(8, 16) =~= s1.subrange(0, c).subrange(8, 16));
    assert(s2.subrange(8, 16) =~= s2.subrange(0, c).subrange(8, 16));
}

/// A batch footer decodes the same from any buffer that starts with the same
/// eight bytes.
pub proof fn lemma_batch_footer_decode_prefix(s1: Seq<u8>, s2: Seq<u8>)
    requires
        spec_decode_batch_footer(s1) is Complete,
        s2.len() >= BATCH_FOOTER_SIZE,
        s2.subrange(0, BATCH_FOOTER_SIZE as int) == s1.subrange(0, BATCH_FOOTER_SIZE as int),
    ensures
        spec_decode_batch_footer(s2) == spec_decode_batch_footer(s1),
{
    let c = BATCH_FOOTER_SIZE as int;
    assert(s1.subrange(0, 4) =~= s1.subrange(0, c).subrange(0, 4));
    assert(s2.subrange(0, 4) =~= s2.subrange(0, c).subrange(0, 4));
    assert(s1.subrange(4, 8) =~= s1.subrange(0, c).subrange(4, 8));
    assert(s2.subrange(4, 8) =~= s2.subrange(0, c).subrange(4, 8));
}

} // verus!
