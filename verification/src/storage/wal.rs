//! Write-ahead log record format: a 23-byte little-endian header, then the
//! (optionally LZ4-compressed) payload. Encoding, the per-segment scan that
//! replay runs, and the law that a scan gives back what was encoded.

use vstd::prelude::*;
use crate::bytes::{
    decode_le, encode_le, le_bytes, le_value, lemma_le_value_of_bytes, lemma_pow256_values, pow256,
};
use crate::checksum::{crc32, crc32_of};
use crate::types::error::RsError;

verus! {

/// One logical write-ahead-log entry (serialised as the record payload).
#[derive(Debug, Clone)]
pub enum WalEntry {
    BlockIp { ip: String, reason: String, ttl_secs: Option<u64>, ts_ns: u64 },
    UnblockIp { ip: String, ts_ns: u64 },
    Insert { key: String, value_json: String, ttl_secs: Option<u64>, ts_ns: u64 },
    Delete { key: String, ts_ns: u64 },
    Checkpoint { snapshot_path: String, ts_ns: u64 },
}


/// On-disk format version; bumped when the layout changes.
pub const FORMAT_VERSION: u16 = 1;

/// Record magic, `RSHW`.
pub const MAGIC: u32 = 0x5253_4857;

/// Header size: magic(4) + version(2) + lsn(8) + payload_len(4) + crc(4) + flags(1).
pub const HEADER: usize = 23;

/// Largest payload a record may carry, before and after compression.
pub const MAX_RECORD_SIZE: usize = 65536;

/// Flag bit: the payload is LZ4-compressed with its size prepended.
pub const FLAG_COMPRESSED: u8 = 0x01;

/// The bytes `lz4_flex::compress_prepend_size` produces for `raw`.
pub uninterp spec fn lz4_compressed(raw: Seq<u8>) -> Seq<u8>;

/// What `lz4_flex::decompress_size_prepended` returns for `input`
/// (`None` for its error).
pub uninterp spec fn lz4_decompressed(input: Seq<u8>) -> Option<Seq<u8>>;

/// `lz4_flex::compress_prepend_size`: LZ4 block compression with the input
/// length prepended as a little-endian `u32`. The crate documents the output
/// for use with `decompress_size_prepended`, which gives the input back.
#[verifier::external_body]
fn lz4_compress(raw: &[u8]) -> (r: Vec<u8>)
    requires
        raw@.len() <= u32::MAX,
    ensures
        r@ == lz4_compressed(raw@),
        r@.len() >= 4,
        le_value(r@.take(4)) == raw@.len(),
        lz4_decompressed(r@) == Some(raw@),
{
    lz4_flex::compress_prepend_size(raw)
}

/// `lz4_flex::decompress_size_prepended`, its error mapped to `None`. The
/// crate allocates the size the first four bytes declare, so callers bound
/// that size first.
#[verifier::external_body]
fn lz4_decompress(input: &[u8]) -> (r: Option<Vec<u8>>)
    requires
        input@.len() >= 4,
        le_value(input@.take(4)) <= MAX_RECORD_SIZE,
    ensures
        r is Some <==> lz4_decompressed(input@) is Some,
        r is Some ==> r->Some_0@ == lz4_decompressed(input@)->Some_0,
{
    lz4_flex::decompress_size_prepended(input).ok()
}

/// The fixed-size header written before each payload.
#[derive(Debug, Clone, Copy, PartialEq, Eq, Structural)]
pub struct RecordHeader {
    pub magic: u32,
    pub version: u16,
    pub lsn: u64,
    pub payload_len: u32,
    pub crc: u32,
    pub flags: u8,
}

/// The serialized header: every field little-endian, in declaration order.
pub open spec fn header_bytes(h: RecordHeader) -> Seq<u8> {
    le_bytes(h.magic as nat, 4) + le_bytes(h.version as nat, 2) + le_bytes(h.lsn as nat, 8)
        + le_bytes(h.payload_len as nat, 4) + le_bytes(h.crc as nat, 4) + seq![h.flags]
}

/// The header that 23 bytes decode to.
pub open spec fn header_of(s: Seq<u8>) -> RecordHeader {
    RecordHeader {
        magic: le_value(s.subrange(0, 4)) as u32,
        version: le_value(s.subrange(4, 6)) as u16,
        lsn: le_value(s.subrange(6, 14)) as u64,
        payload_len: le_value(s.subrange(14, 18)) as u32,
        crc: le_value(s.subrange(18, 22)) as u32,
        flags: s[22],
    }
}

impl RecordHeader {
    /// Serialize the header.
    pub fn to_bytes(&self) -> (r: [u8; 23])
        ensures
            r@ == header_bytes(*self),
    {
        let mut v = encode_le(self.magic as u128, 4);
        let mut b = encode_le(self.version as u128, 2);
        v.append(&mut b);
        let mut b = encode_le(self.lsn as u128, 8);
        v.append(&mut b);
        let mut b = encode_le(self.payload_len as u128, 4);
        v.append(&mut b);
        let mut b = encode_le(self.crc as u128, 4);
        v.append(&mut b);
        v.push(self.flags);
        proof {
            lemma_le_lengths();
        }
        assert(v@ == header_bytes(*self));
        let r: [u8; 23] = [
            v[0], v[1], v[2], v[3], v[4], v[5], v[6], v[7], v[8], v[9], v[10], v[11], v[12],
            v[13], v[14], v[15], v[16], v[17], v[18], v[19], v[20], v[21], v[22],
        ];
        assert(r@ =~= v@);
        r
    }

    /// Decode a header from its 23 bytes.
    pub fn from_bytes(buf: &[u8; 23]) -> (r: RecordHeader)
        ensures
            r == header_of(buf@),
    {
        let r = from_slice(buf.as_slice(), 0);
        assert(buf@.subrange(0, 23) =~= buf@);
        r
    }
}

/// Decode the header at `buf[pos..pos + 23]`.
pub(crate) fn from_slice(buf: &[u8], pos: usize) -> (r: RecordHeader)
    requires
        pos + HEADER <= buf@.len(),
    ensures
        r == header_of(buf@.subrange(pos as int, pos + HEADER)),
{
    let _len: usize = buf.len();
    let ghost h = buf@.subrange(pos as int, pos + HEADER);
    let magic = decode_le(buf, pos, 4);
    let version = decode_le(buf, pos + 4, 2);
    let lsn = decode_le(buf, pos + 6, 8);
    let payload_len = decode_le(buf, pos + 14, 4);
    let crc = decode_le(buf, pos + 18, 4);
    assert(h.subrange(0, 4) =~= buf@.subrange(pos as int, pos + 4));
    assert(h.subrange(4, 6) =~= buf@.subrange(pos + 4, pos + 6));
    assert(h.subrange(6, 14) =~= buf@.subrange(pos + 6, pos + 14));
    assert(h.subrange(14, 18) =~= buf@.subrange(pos + 14, pos + 18));
    assert(h.subrange(18, 22) =~= buf@.subrange(pos + 18, pos + 22));
    proof {
        crate::bytes::lemma_le_bytes_of_value(buf@.subrange(pos as int, pos + 4));
        crate::bytes::lemma_le_bytes_of_value(buf@.subrange(pos + 4, pos + 6));
        crate::bytes::lemma_le_bytes_of_value(buf@.subrange(pos + 6, pos + 14));
        crate::bytes::lemma_le_bytes_of_value(buf@.subrange(pos + 14, pos + 18));
        crate::bytes::lemma_le_bytes_of_value(buf@.subrange(pos + 18, pos + 22));
        lemma_pow256_values();
    }
    RecordHeader {
        magic: magic as u32,
        version: version as u16,
        lsn: lsn as u64,
        payload_len: payload_len as u32,
        crc: crc as u32,
        flags: buf[pos + 22],
    }
}

/// Every little-endian encoding has the length asked for.
pub proof fn lemma_le_lengths_pub()
    ensures
        forall|x: nat, n: nat| #[trigger] le_bytes(x, n).len() == n,
{
    lemma_le_lengths();
}

proof fn lemma_le_lengths()
    ensures
        forall|x: nat, n: nat| #[trigger] le_bytes(x, n).len() == n,
{
    assert forall|x: nat, n: nat| #[trigger] le_bytes(x, n).len() == n by {
        lemma_le_len(x, n);
    }
}

proof fn lemma_le_len(x: nat, n: nat)
    ensures
        le_bytes(x, n).len() == n,
    decreases n,
{
    if n > 0 {
        lemma_le_len(x / 256, (n - 1) as nat);
    }
}

/// Decoding a serialized header gives the header back.
pub proof fn lemma_header_roundtrip(h: RecordHeader)
    ensures
        header_bytes(h).len() == HEADER,
        header_of(header_bytes(h)) == h,
{
    lemma_pow256_values();
    lemma_le_lengths();
    let s = header_bytes(h);
    assert(s.subrange(0, 4) =~= le_bytes(h.magic as nat, 4));
    assert(s.subrange(4, 6) =~= le_bytes(h.version as nat, 2));
    assert(s.subrange(6, 14) =~= le_bytes(h.lsn as nat, 8));
    assert(s.subrange(14, 18) =~= le_bytes(h.payload_len as nat, 4));
    assert(s.subrange(18, 22) =~= le_bytes(h.crc as nat, 4));
    lemma_le_value_of_bytes(h.magic as nat, 4);
    lemma_le_value_of_bytes(h.version as nat, 2);
    lemma_le_value_of_bytes(h.lsn as nat, 8);
    lemma_le_value_of_bytes(h.payload_len as nat, 4);
    lemma_le_value_of_bytes(h.crc as nat, 4);
}

} // verus!

verus! {

/// The header of a record carrying `payload` under `lsn` with `flags`.
pub open spec fn header_for(lsn: u64, payload: Seq<u8>, flags: u8) -> RecordHeader {
    RecordHeader {
        magic: MAGIC,
        version: FORMAT_VERSION,
        lsn,
        payload_len: payload.len() as u32,
        crc: crc32_of(payload),
        flags,
    }
}

/// A framed record: header, then payload.
pub open spec fn frame(lsn: u64, payload: Seq<u8>, flags: u8) -> Seq<u8> {
    header_bytes(header_for(lsn, payload, flags)) + payload
}

/// The payload and flags a raw entry is stored with: LZ4 when compression is
/// on and the entry exceeds 64 bytes, as is otherwise.
pub open spec fn stored_payload(raw: Seq<u8>, compress: bool) -> (Seq<u8>, u8) {
    if compress && raw.len() > 64 {
        (lz4_compressed(raw), FLAG_COMPRESSED)
    } else {
        (raw, 0)
    }
}

/// The record bytes for a raw entry, or the oversized length that refused it.
pub open spec fn encode_record_spec(raw: Seq<u8>, lsn: u64, compress: bool) -> Result<Seq<u8>, nat> {
    if raw.len() > MAX_RECORD_SIZE {
        Err(raw.len())
    } else {
        let (payload, flags) = stored_payload(raw, compress);
        if payload.len() > MAX_RECORD_SIZE {
            Err(payload.len())
        } else {
            Ok(frame(lsn, payload, flags))
        }
    }
}

/// What the LZ4 crate guarantees of the payload it produced for `raw`: it
/// declares `raw`'s length and decompresses back to `raw`.
pub open spec fn lz4_roundtrips(raw: Seq<u8>) -> bool {
    &&& declared_len(lz4_compressed(raw)) == raw.len()
    &&& lz4_decompressed(lz4_compressed(raw)) == Some(raw)
}

/// Frame one serialized entry as a WAL record: refused with `RecordTooLarge`
/// when the entry, or its compressed form, exceeds `MAX_RECORD_SIZE`.
pub fn encode_record(raw: &[u8], lsn: u64, compress: bool) -> (r: Result<Vec<u8>, RsError>)
    ensures
        r is Ok && compress && raw@.len() > 64 ==> lz4_roundtrips(raw@),
        match (r, encode_record_spec(raw@, lsn, compress)) {
            (Ok(v), Ok(s)) => v@ == s,
            (Err(RsError::RecordTooLarge { size, max }), Err(n)) => size == n && max
                == MAX_RECORD_SIZE,
            _ => false,
        },
{
    if raw.len() > MAX_RECORD_SIZE {
        return Err(RsError::RecordTooLarge { size: raw.len(), max: MAX_RECORD_SIZE });
    }
    let compressed: bool = compress && raw.len() > 64;
    let stored: Vec<u8>;
    let flags: u8;
    if compressed {
        stored = lz4_compress(raw);
        flags = FLAG_COMPRESSED;
        assert(lz4_roundtrips(raw@));
    } else {
        stored = copy_range(raw, 0, raw.len());
        assert(raw@.subrange(0, raw@.len() as int) =~= raw@);
        flags = 0;
    }
    if stored.len() > MAX_RECORD_SIZE {
        return Err(RsError::RecordTooLarge { size: stored.len(), max: MAX_RECORD_SIZE });
    }
    let crc = crc32(stored.as_slice());
    let header = RecordHeader {
        magic: MAGIC,
        version: FORMAT_VERSION,
        lsn,
        payload_len: stored.len() as u32,
        crc,
        flags,
    };
    let hb = header.to_bytes();
    let mut out: Vec<u8> = Vec::new();
    let mut i: usize = 0;
    while i < HEADER
        invariant
            i <= HEADER,
            hb@.len() == HEADER,
            out@ == hb@.take(i as int),
        decreases HEADER - i,
    {
        out.push(hb[i]);
        assert(hb@.take(i + 1) =~= hb@.take(i as int).push(hb@[i as int]));
        i = i + 1;
    }
    let mut j: usize = 0;
    while j < stored.len()
        invariant
            j <= stored@.len(),
            hb@.len() == HEADER,
            out@ == hb@ + stored@.take(j as int),
        decreases stored@.len() - j,
    {
        out.push(stored[j]);
        assert(stored@.take(j + 1) =~= stored@.take(j as int).push(stored@[j as int]));
        j = j + 1;
    }
    assert(hb@.take(HEADER as int) =~= hb@);
    assert(stored@.take(stored@.len() as int) =~= stored@);
    Ok(out)
}

/// Why a segment scan stopped at a record.
#[derive(Debug, Clone, Copy, PartialEq, Eq, Structural)]
pub enum CorruptKind {
    /// Fewer than 23 bytes remained for the header.
    PartialHeader,
    /// The magic did not match.
    BadMagic,
    /// The record was written by a newer format version.
    FutureVersion,
    /// The declared payload length exceeds `MAX_RECORD_SIZE`.
    TooLarge,
    /// The segment ends inside the payload.
    TruncatedPayload,
    /// The payload checksum did not match.
    CrcMismatch,
    /// A compressed payload declares more than `MAX_RECORD_SIZE` bytes.
    DecompressionBomb,
    /// The compressed payload did not decompress.
    DecompressFailed,
}

/// The decompressed size a compressed payload declares (all ones when the
/// payload is too short to declare one).
pub open spec fn declared_len(p: Seq<u8>) -> nat {
    if p.len() >= 4 {
        le_value(p.take(4))
    } else {
        usize::MAX as nat
    }
}

/// One step of the segment scan at byte offset `pos`: `None` at the clean end
/// of the segment, else the corruption found or the record's LSN, entry bytes
/// and the offset just past it.
pub open spec fn parse_record_spec(buf: Seq<u8>, pos: int) -> Option<Result<(u64, Seq<u8>, int), CorruptKind>> {
    if pos >= buf.len() {
        None
    } else if buf.len() - pos < HEADER {
        Some(Err(CorruptKind::PartialHeader))
    } else {
        let h = header_of(buf.subrange(pos, pos + HEADER));
        if h.magic != MAGIC {
            Some(Err(CorruptKind::BadMagic))
        } else if h.version > FORMAT_VERSION {
            Some(Err(CorruptKind::FutureVersion))
        } else if h.payload_len > MAX_RECORD_SIZE {
            Some(Err(CorruptKind::TooLarge))
        } else if buf.len() - pos - HEADER < h.payload_len {
            Some(Err(CorruptKind::TruncatedPayload))
        } else {
            let end = pos + HEADER + h.payload_len;
            let p = buf.subrange(pos + HEADER, end);
            if crc32_of(p) != h.crc {
                Some(Err(CorruptKind::CrcMismatch))
            } else if h.flags % 2 == 1 {
                if declared_len(p) > MAX_RECORD_SIZE {
                    Some(Err(CorruptKind::DecompressionBomb))
                } else {
                    match lz4_decompressed(p) {
                        None => Some(Err(CorruptKind::DecompressFailed)),
                        Some(d) => Some(Ok((h.lsn, d, end))),
                    }
                }
            } else {
                Some(Ok((h.lsn, p, end)))
            }
        }
    }
}

/// A record found by a segment scan.
#[derive(Debug)]
pub struct ScannedRecord {
    pub lsn: u64,
    /// The entry bytes (decompressed when the record was compressed).
    pub data: Vec<u8>,
    /// Byte offset just past the record in its segment.
    pub end: usize,
}

/// The outcome of one scan step.
#[derive(Debug)]
pub enum RecordParse {
    End,
    Corrupt(CorruptKind),
    Record(ScannedRecord),
}

/// Whether an executable scan step matches its specification.
pub open spec fn parse_matches(r: RecordParse, s: Option<Result<(u64, Seq<u8>, int), CorruptKind>>) -> bool {
    match (r, s) {
        (RecordParse::End, None) => true,
        (RecordParse::Corrupt(k), Some(Err(k2))) => k == k2,
        (RecordParse::Record(rec), Some(Ok((lsn, d, end)))) => rec.lsn == lsn && rec.data@ == d
            && rec.end == end,
        _ => false,
    }
}

proof fn lemma_flag_bit(f: u8)
    ensures
        (f & 1u8 != 0u8) == (f % 2 == 1),
{
    assert((f & 1u8 != 0u8) == (f % 2 == 1)) by (bit_vector);
}

/// Read the record at `pos` of a segment's bytes.
pub fn parse_record(buf: &[u8], pos: usize) -> (r: RecordParse)
    requires
        pos <= buf@.len(),
    ensures
        parse_matches(r, parse_record_spec(buf@, pos as int)),
{
    let len: usize = buf.len();
    if pos >= len {
        return RecordParse::End;
    }
    if len - pos < HEADER {
        return RecordParse::Corrupt(CorruptKind::PartialHeader);
    }
    let h = from_slice(buf, pos);
    if h.magic != MAGIC {
        return RecordParse::Corrupt(CorruptKind::BadMagic);
    }
    if h.version > FORMAT_VERSION {
        return RecordParse::Corrupt(CorruptKind::FutureVersion);
    }
    if h.payload_len as usize > MAX_RECORD_SIZE {
        return RecordParse::Corrupt(CorruptKind::TooLarge);
    }
    let plen: usize = h.payload_len as usize;
    if len - pos - HEADER < plen {
        return RecordParse::Corrupt(CorruptKind::TruncatedPayload);
    }
    let start: usize = pos + HEADER;
    let end: usize = start + plen;
    let payload = copy_range(buf, start, end);
    if crc32(payload.as_slice()) != h.crc {
        return RecordParse::Corrupt(CorruptKind::CrcMismatch);
    }
    proof {
        lemma_flag_bit(h.flags);
    }
    if h.flags & 1 != 0 {
        if payload.len() < 4 {
            return RecordParse::Corrupt(CorruptKind::DecompressionBomb);
        }
        let declared = decode_le(payload.as_slice(), 0, 4);
        assert(payload@.subrange(0, 4) =~= payload@.take(4));
        if declared > MAX_RECORD_SIZE as u128 {
            return RecordParse::Corrupt(CorruptKind::DecompressionBomb);
        }
        match lz4_decompress(payload.as_slice()) {
            None => RecordParse::Corrupt(CorruptKind::DecompressFailed),
            Some(d) => RecordParse::Record(ScannedRecord { lsn: h.lsn, data: d, end }),
        }
    } else {
        RecordParse::Record(ScannedRecord { lsn: h.lsn, data: payload, end })
    }
}

/// A copy of `buf[start..end]`.
pub fn copy_range(buf: &[u8], start: usize, end: usize) -> (r: Vec<u8>)
    requires
        start <= end <= buf@.len(),
    ensures
        r@ == buf@.subrange(start as int, end as int),
{
    let mut out: Vec<u8> = Vec::new();
    let mut i: usize = start;
    while i < end
        invariant
            start <= i <= end <= buf@.len(),
            out@ == buf@.subrange(start as int, i as int),
        decreases end - i,
    {
        out.push(buf[i]);
        assert(buf@.subrange(start as int, i + 1) =~= buf@.subrange(start as int, i as int).push(
            buf@[i as int],
        ));
        i = i + 1;
    }
    out
}

} // verus!

verus! {

/// The scan of a segment from byte offset `pos`: the records read, in order,
/// and whether it stopped at corruption (rather than at the clean end).
pub open spec fn scan_spec(buf: Seq<u8>, pos: int) -> (Seq<(u64, Seq<u8>, int)>, bool)
    decreases buf.len() - pos,
{
    if pos < 0 || pos >= buf.len() {
        (Seq::empty(), false)
    } else {
        match parse_record_spec(buf, pos) {
            None => (Seq::empty(), false),
            Some(Err(_)) => (Seq::empty(), true),
            Some(Ok((l, d, next))) => {
                if next > pos {
                    let rest = scan_spec(buf, next);
                    (seq![(l, d, next)] + rest.0, rest.1)
                } else {
                    (Seq::empty(), true)
                }
            },
        }
    }
}

/// The spec view of scanned records.
pub open spec fn records_view(rs: Seq<ScannedRecord>) -> Seq<(u64, Seq<u8>, int)> {
    rs.map_values(|r: ScannedRecord| (r.lsn, r.data@, r.end as int))
}

/// All records of one segment, up to its end or to the first corrupt record.
#[derive(Debug)]
pub struct SegmentScan {
    pub records: Vec<ScannedRecord>,
    /// True when the scan stopped at corruption; the valid prefix of the
    /// segment then ends at the last record's `end` (or at 0).
    pub corrupted: bool,
}

/// Scan a whole segment from its first byte.
pub fn scan_segment(buf: &[u8]) -> (r: SegmentScan)
    ensures
        records_view(r.records@) == scan_spec(buf@, 0).0,
        r.corrupted == scan_spec(buf@, 0).1,
{
    let len: usize = buf.len();
    let mut records: Vec<ScannedRecord> = Vec::new();
    let mut pos: usize = 0;
    let mut corrupted: bool = false;
    loop
        invariant_except_break
            pos <= len,
            len == buf@.len(),
            records_view(records@) + scan_spec(buf@, pos as int).0 == scan_spec(buf@, 0).0,
            scan_spec(buf@, pos as int).1 == scan_spec(buf@, 0).1,
            !corrupted,
        ensures
            records_view(records@) == scan_spec(buf@, 0).0,
            corrupted == scan_spec(buf@, 0).1,
        decreases len - pos,
    {
        let ghost before = records@;
        match parse_record(buf, pos) {
            RecordParse::End => {
                assert(records_view(records@) + Seq::empty() =~= records_view(records@));
                break ;
            },
            RecordParse::Corrupt(_) => {
                assert(records_view(records@) + Seq::empty() =~= records_view(records@));
                corrupted = true;
                break ;
            },
            RecordParse::Record(rec) => {
                let next = rec.end;
                let ghost item = (rec.lsn, rec.data@, rec.end as int);
                records.push(rec);
                assert(records_view(records@) =~= records_view(before).push(item));
                assert(records_view(before) + scan_spec(buf@, pos as int).0 =~= records_view(records@)
                    + scan_spec(buf@, next as int).0);
                pos = next;
            },
        }
    }
    SegmentScan { records, corrupted }
}

/// A log entry to be framed: its serialized bytes, its LSN and whether
/// compression is on.
pub open spec fn encodes(e: (Seq<u8>, u64, bool)) -> bool {
    &&& encode_record_spec(e.0, e.1, e.2) is Ok
    &&& (e.2 && e.0.len() > 64 ==> lz4_roundtrips(e.0))
}

/// The bytes of a segment written by appending `es` in order.
pub open spec fn encoded_log(es: Seq<(Seq<u8>, u64, bool)>) -> Seq<u8>
    decreases es.len(),
{
    if es.len() == 0 {
        Seq::empty()
    } else {
        encode_record_spec(es[0].0, es[0].1, es[0].2)->Ok_0 + encoded_log(es.drop_first())
    }
}

/// The records a scan of `encoded_log(es)` placed after `base` bytes reads:
/// each entry's LSN and bytes, and the offset just past its record.
pub open spec fn expected_records(es: Seq<(Seq<u8>, u64, bool)>, base: int) -> Seq<(u64, Seq<u8>, int)>
    decreases es.len(),
{
    if es.len() == 0 {
        Seq::empty()
    } else {
        let end = base + encode_record_spec(es[0].0, es[0].1, es[0].2)->Ok_0.len();
        seq![(es[0].1, es[0].0, end)] + expected_records(es.drop_first(), end)
    }
}

/// A record framed by `encode_record`, wherever it sits in a segment, reads
/// back as its LSN and entry bytes.
proof fn lemma_parse_encoded(p: Seq<u8>, e: (Seq<u8>, u64, bool), q: Seq<u8>)
    requires
        encodes(e),
    ensures
        parse_record_spec(p + encode_record_spec(e.0, e.1, e.2)->Ok_0 + q, p.len() as int) == Some(
            Ok::<(u64, Seq<u8>, int), CorruptKind>(
                (e.1, e.0, (p.len() + encode_record_spec(e.0, e.1, e.2)->Ok_0.len()) as int),
            ),
        ),
        encode_record_spec(e.0, e.1, e.2)->Ok_0.len() >= HEADER,
{
    let (raw, lsn, compress) = e;
    let (payload, flags) = stored_payload(raw, compress);
    let h = header_for(lsn, payload, flags);
    lemma_header_roundtrip(h);
    let enc = frame(lsn, payload, flags);
    assert(encode_record_spec(raw, lsn, compress)->Ok_0 == enc);
    let buf = p + enc + q;
    let pos = p.len() as int;
    assert(buf.subrange(pos, pos + HEADER) =~= header_bytes(h));
    assert(h.payload_len == payload.len());
    assert(buf.subrange(pos + HEADER, pos + HEADER + h.payload_len) =~= payload);
}

/// Replay law of the log format: scanning the bytes written by appending a
/// sequence of entries gives back every entry, in order, with its LSN, and
/// reports no corruption.
pub proof fn lemma_scan_reads_back_appends(es: Seq<(Seq<u8>, u64, bool)>)
    requires
        forall|i: int| 0 <= i < es.len() ==> encodes(#[trigger] es[i]),
    ensures
        scan_spec(encoded_log(es), 0) == (expected_records(es, 0), false),
{
    lemma_scan_from(Seq::empty(), es);
    assert(Seq::<u8>::empty() + encoded_log(es) =~= encoded_log(es));
}

proof fn lemma_scan_from(p: Seq<u8>, es: Seq<(Seq<u8>, u64, bool)>)
    requires
        forall|i: int| 0 <= i < es.len() ==> encodes(#[trigger] es[i]),
    ensures
        scan_spec(p + encoded_log(es), p.len() as int) == (expected_records(es, p.len() as int), false),
    decreases es.len(),
{
    let buf = p + encoded_log(es);
    if es.len() == 0 {
        assert(buf =~= p);
    } else {
        let e = es[0];
        assert(encodes(es[0]));
        let enc = encode_record_spec(e.0, e.1, e.2)->Ok_0;
        let rest = es.drop_first();
        assert forall|i: int| 0 <= i < rest.len() implies encodes(#[trigger] rest[i]) by {
            assert(rest[i] == es[i + 1]);
        }
        lemma_parse_encoded(p, e, encoded_log(rest));
        assert(buf =~= p + enc + encoded_log(rest));
        let p2 = p + enc;
        lemma_scan_from(p2, rest);
        assert(p2 + encoded_log(rest) =~= buf);
        assert(scan_spec(buf, p.len() as int).0 =~= expected_records(es, p.len() as int));
    }
}

#[verifier::rlimit(40)]
proof fn lemma_scan_before_tail(p: Seq<u8>, es: Seq<(Seq<u8>, u64, bool)>, q: Seq<u8>)
    requires
        forall|i: int| 0 <= i < es.len() ==> encodes(#[trigger] es[i]),
    ensures
        ({
            let buf = p + encoded_log(es) + q;
            let at = (p.len() + encoded_log(es).len()) as int;
            scan_spec(buf, p.len() as int) == (
                expected_records(es, p.len() as int) + scan_spec(buf, at).0,
                scan_spec(buf, at).1,
            )
        }),
    decreases es.len(),
{
    let buf = p + encoded_log(es) + q;
    if es.len() == 0 {
        assert(encoded_log(es) =~= Seq::<u8>::empty());
        assert(expected_records(es, p.len() as int) + scan_spec(buf, p.len() as int).0 =~= scan_spec(
            buf,
            p.len() as int,
        ).0);
    } else {
        let e = es[0];
        assert(encodes(es[0]));
        let enc = encode_record_spec(e.0, e.1, e.2)->Ok_0;
        let rest = es.drop_first();
        assert forall|i: int| 0 <= i < rest.len() implies encodes(#[trigger] rest[i]) by {
            assert(rest[i] == es[i + 1]);
        }
        lemma_parse_encoded(p, e, encoded_log(rest) + q);
        assert(buf =~= p + enc + (encoded_log(rest) + q));
        let p2 = p + enc;
        lemma_scan_before_tail(p2, rest, q);
        assert(p2 + encoded_log(rest) + q =~= buf);
        let pos = p.len() as int;
        let next = pos + enc.len();
        let at = (p.len() + encoded_log(es).len()) as int;
        assert(encoded_log(es) == enc + encoded_log(rest));
        assert(at == p2.len() + encoded_log(rest).len());
        let r2 = scan_spec(buf, next);
        let tail = scan_spec(buf, at);
        assert(r2 == (expected_records(rest, next) + tail.0, tail.1));
        assert(scan_spec(buf, pos) == (seq![(e.1, e.0, next)] + r2.0, r2.1));
        assert(expected_records(es, pos) == seq![(e.1, e.0, next)] + expected_records(rest, next));
        assert(seq![(e.1, e.0, next)] + (expected_records(rest, next) + tail.0) =~= expected_records(es, pos)
            + tail.0);
    }
}

proof fn lemma_expected_ends(es: Seq<(Seq<u8>, u64, bool)>, base: int)
    requires
        forall|i: int| 0 <= i < es.len() ==> encodes(#[trigger] es[i]),
    ensures
        expected_records(es, base).len() == es.len(),
        es.len() > 0 ==> expected_records(es, base).last().2 == base + encoded_log(es).len(),
        forall|i: int| 0 <= i < es.len() ==> (#[trigger] expected_records(es, base)[i]).2 >= base + HEADER,
    decreases es.len(),
{
    if es.len() > 0 {
        let e = es[0];
        assert(encodes(es[0]));
        let enc = encode_record_spec(e.0, e.1, e.2)->Ok_0;
        let rest = es.drop_first();
        assert forall|i: int| 0 <= i < rest.len() implies encodes(#[trigger] rest[i]) by {
            assert(rest[i] == es[i + 1]);
        }
        lemma_parse_encoded(Seq::empty(), e, Seq::empty());
        let end = base + enc.len();
        lemma_expected_ends(rest, end);
        let x = expected_records(es, base);
        let y = expected_records(rest, end);
        assert(x =~= seq![(e.1, e.0, end)] + y);
        assert forall|i: int| 0 <= i < es.len() implies (#[trigger] x[i]).2 >= base + HEADER by {
            if i > 0 {
                assert(x[i] == y[i - 1]);
            }
        }
        if rest.len() > 0 {
            assert(x.last() == y.last());
        }
    }
}

proof fn lemma_good_prefix_all(parsed: Seq<bool>)
    requires
        forall|i: int| 0 <= i < parsed.len() ==> #[trigger] parsed[i],
    ensures
        good_prefix(parsed) == parsed.len(),
    decreases parsed.len(),
{
    if parsed.len() > 0 {
        assert(parsed[0]);
        let rest = parsed.drop_first();
        assert forall|i: int| 0 <= i < rest.len() implies #[trigger] rest[i] by {
            assert(rest[i] == parsed[i + 1]);
        }
        lemma_good_prefix_all(rest);
    }
}

/// Corruption law of the log format: when the bytes appended for a sequence
/// of entries are followed by bytes that do not begin a record (a partial
/// header, or a header with the wrong magic number), the scan still gives
/// back every entry, in order, and reports the corruption; and when every
/// entry decodes, recovery keeps them all and cuts the segment just after
/// the last one, or quarantines it when there was none.
pub proof fn lemma_scan_keeps_records_before_garbage(
    es: Seq<(Seq<u8>, u64, bool)>,
    q: Seq<u8>,
    ends: Seq<usize>,
    parsed: Seq<bool>,
)
    requires
        forall|i: int| 0 <= i < es.len() ==> encodes(#[trigger] es[i]),
        q.len() > 0,
        q.len() < HEADER || header_of(q.take(HEADER as int)).magic != MAGIC,
        encoded_log(es).len() <= usize::MAX,
        ends.len() == es.len(),
        forall|i: int| 0 <= i < es.len() ==> #[trigger] ends[i] == expected_records(es, 0)[i].2,
        parsed.len() == es.len(),
        forall|i: int| 0 <= i < parsed.len() ==> #[trigger] parsed[i],
    ensures
        scan_spec(encoded_log(es) + q, 0) == (expected_records(es, 0), true),
        recovery_spec(ends, parsed, true) == (
            es.len(),
            if es.len() > 0 {
                TailAction::Truncate(encoded_log(es).len() as usize)
            } else {
                TailAction::Quarantine
            },
        ),
{
    let log = encoded_log(es);
    let buf = log + q;
    lemma_scan_before_tail(Seq::empty(), es, q);
    assert(Seq::<u8>::empty() + log + q =~= buf);
    let at = log.len() as int;
    if q.len() >= HEADER {
        assert(buf.subrange(at, at + HEADER) =~= q.take(HEADER as int));
    }
    assert(parse_record_spec(buf, at) is Some && parse_record_spec(buf, at)->Some_0 is Err);
    assert(scan_spec(buf, at) == (Seq::<(u64, Seq<u8>, int)>::empty(), true));
    assert(expected_records(es, 0) + Seq::<(u64, Seq<u8>, int)>::empty() =~= expected_records(es, 0));
    lemma_expected_ends(es, 0);
    lemma_good_prefix_all(parsed);
    if es.len() > 0 {
        assert(ends[es.len() - 1] == expected_records(es, 0)[es.len() - 1].2);
    }
}

/// What replay does with a segment's file after reading it.
#[derive(Debug, Clone, Copy, PartialEq, Eq, Structural)]
pub enum TailAction {
    /// The segment read cleanly: leave it.
    Keep,
    /// Cut the file after its last good record, at this byte offset.
    Truncate(usize),
    /// Nothing in it is good: move it aside.
    Quarantine,
}

/// How many records lead `parsed` before the first one whose entry did not
/// decode.
pub open spec fn good_prefix(parsed: Seq<bool>) -> nat
    decreases parsed.len(),
{
    if parsed.len() == 0 || !parsed[0] {
        0
    } else {
        1 + good_prefix(parsed.drop_first())
    }
}

/// The recovery of a scanned segment: the records kept are those before
/// the first whose entry did not decode (`parsed`); the segment is corrupt
/// when the scan stopped at corruption or an entry did not decode; a
/// corrupt segment is cut after its last kept record, or quarantined when
/// none was kept.
pub open spec fn recovery_spec(ends: Seq<usize>, parsed: Seq<bool>, corrupted: bool) -> (nat, TailAction) {
    let k = good_prefix(parsed);
    let bad = corrupted || k < parsed.len();
    let action = if !bad {
        TailAction::Keep
    } else if k > 0 && ends[k - 1] > 0 {
        TailAction::Truncate(ends[k - 1])
    } else {
        TailAction::Quarantine
    };
    (k, action)
}

/// Decide the recovery of a scanned segment (see `recovery_spec`):
/// `parsed[i]` tells whether record `i`'s entry decoded. Returns how many
/// leading records to keep and what to do with the file.
pub fn plan_recovery(records: &Vec<ScannedRecord>, parsed: &Vec<bool>, corrupted: bool) -> (r: (usize, TailAction))
    requires
        parsed@.len() == records@.len(),
    ensures
        r.0 == recovery_spec(Seq::new(records@.len(), |i: int| records@[i].end), parsed@, corrupted).0,
        r.1 == recovery_spec(Seq::new(records@.len(), |i: int| records@[i].end), parsed@, corrupted).1,
{
    let n = parsed.len();
    let mut k: usize = 0;
    assert(parsed@.skip(0) =~= parsed@);
    while k < n && parsed[k]
        invariant
            n == parsed@.len(),
            k <= n,
            good_prefix(parsed@) == k + good_prefix(parsed@.skip(k as int)),
        decreases n - k,
    {
        assert(parsed@.skip(k as int).drop_first() =~= parsed@.skip(k + 1));
        k = k + 1;
    }
    if k == n {
        assert(parsed@.skip(k as int) =~= Seq::<bool>::empty());
    }
    let bad = corrupted || k < n;
    let ghost ends = Seq::new(records@.len(), |i: int| records@[i].end);
    let action = if !bad {
        TailAction::Keep
    } else if k > 0 && records[k - 1].end > 0 {
        TailAction::Truncate(records[k - 1].end)
    } else {
        TailAction::Quarantine
    };
    proof {
        if k > 0 {
            assert(ends[k - 1] == records@[k - 1].end);
        }
    }
    (k, action)
}

} // verus!
