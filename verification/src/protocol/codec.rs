//! Binary framing of IPC messages:
//! `[magic: u32 | version: u16 | len: u32 | payload | crc: u32]`, all
//! little-endian, the CRC taken over the payload.

use vstd::prelude::*;
use crate::bytes::{decode_le, encode_le, le_bytes, le_value, lemma_le_value_of_bytes, lemma_pow256_values};
use crate::checksum::{crc32, crc32_of};

verus! {

/// Wire magic `RSHP`.
pub const MAGIC: u32 = 0x5253_4850;

/// The protocol version this implementation speaks.
pub const PROTOCOL_VERSION: u16 = 1;

/// Largest payload a frame may carry (1 MiB).
pub const MAX_PAYLOAD_LEN: usize = 1048576;

/// Bytes a frame adds around its payload.
pub const FRAME_OVERHEAD: usize = 14;

/// The I/O error kinds a frame reader reports.
#[derive(Debug, Clone, Copy, PartialEq, Eq)]
pub enum IoErrorKind {
    UnexpectedEof,
}

/// Why a frame could not be decoded.
#[derive(Debug, Clone, PartialEq)]
pub enum DecodeError {
    /// Not enough bytes for a complete frame.
    IncompleteHeader,
    /// The magic did not match.
    InvalidMagic(u32),
    /// The version is not the one this implementation speaks.
    UnsupportedVersion(u16),
    /// The payload length exceeds `MAX_PAYLOAD_LEN`.
    PayloadTooLarge(usize),
    /// The CRC over the payload did not match.
    CrcMismatch { expected: u32, actual: u32 },
    /// An I/O error while reading.
    Io(IoErrorKind),
    /// The payload did not (de)serialize.
    Deserialize(String),
}

/// The frame around `payload` with `version`; the length field holds the
/// payload length truncated to 32 bits.
pub open spec fn frame_spec(version: u16, payload: Seq<u8>) -> Seq<u8> {
    le_bytes(MAGIC as nat, 4) + le_bytes(version as nat, 2) + le_bytes(
        (payload.len() % 0x1_0000_0000) as nat,
        4,
    ) + payload + le_bytes(crc32_of(payload) as nat, 4)
}

/// Frame `payload`, refused with `PayloadTooLarge` when its length (as the
/// 32-bit length field holds it) exceeds `MAX_PAYLOAD_LEN`.
pub fn encode_frame(version: u16, payload: &[u8]) -> (r: Result<Vec<u8>, DecodeError>)
    ensures
        (payload@.len() % 0x1_0000_0000) > MAX_PAYLOAD_LEN ==> r == Err::<Vec<u8>, DecodeError>(
            DecodeError::PayloadTooLarge((payload@.len() % 0x1_0000_0000) as usize),
        ),
        (payload@.len() % 0x1_0000_0000) <= MAX_PAYLOAD_LEN ==> r is Ok && r->Ok_0@ == frame_spec(
            version,
            payload@,
        ),
{
    let n: usize = payload.len();
    let payload_len: u32 = #[verifier::truncate] (n as u32);
    proof {
        lemma_trunc32(n);
    }
    if payload_len as usize > MAX_PAYLOAD_LEN {
        return Err(DecodeError::PayloadTooLarge(payload_len as usize));
    }
    let mut frame = encode_le(MAGIC as u128, 4);
    let mut b = encode_le(version as u128, 2);
    frame.append(&mut b);
    let mut b = encode_le(payload_len as u128, 4);
    frame.append(&mut b);
    let ghost head = frame@;
    let mut i: usize = 0;
    while i < payload.len()
        invariant
            i <= payload@.len(),
            frame@ == head + payload@.take(i as int),
        decreases payload@.len() - i,
    {
        frame.push(payload[i]);
        assert(payload@.take(i + 1) =~= payload@.take(i as int).push(payload@[i as int]));
        i = i + 1;
    }
    assert(payload@.take(payload@.len() as int) =~= payload@);
    let crc = crc32(payload);
    let mut b = encode_le(crc as u128, 4);
    frame.append(&mut b);
    Ok(frame)
}

proof fn lemma_trunc32(x: usize)
    ensures
        (#[verifier::truncate] (x as u32)) as nat == x as nat % 0x1_0000_0000,
{
    assert((#[verifier::truncate] (x as u32)) as nat == x as nat % 0x1_0000_0000) by (bit_vector);
}

/// The outcome of decoding the frame at the start of `buf`: the payload and
/// the bytes the frame took, or the first check that failed.
pub open spec fn decode_frame_spec(buf: Seq<u8>) -> Result<(Seq<u8>, nat), DecodeError> {
    if buf.len() < FRAME_OVERHEAD {
        Err(DecodeError::IncompleteHeader)
    } else {
        let magic = le_value(buf.subrange(0, 4)) as u32;
        let version = le_value(buf.subrange(4, 6)) as u16;
        let plen = le_value(buf.subrange(6, 10)) as int;
        if magic != MAGIC {
            Err(DecodeError::InvalidMagic(magic))
        } else if version != PROTOCOL_VERSION {
            Err(DecodeError::UnsupportedVersion(version))
        } else if plen > MAX_PAYLOAD_LEN {
            Err(DecodeError::PayloadTooLarge(plen as usize))
        } else if buf.len() < FRAME_OVERHEAD + plen {
            Err(DecodeError::IncompleteHeader)
        } else {
            let payload = buf.subrange(10, 10 + plen);
            let expected = crc32_of(payload);
            let actual = le_value(buf.subrange(10 + plen, 14 + plen)) as u32;
            if expected != actual {
                Err(DecodeError::CrcMismatch { expected, actual })
            } else {
                Ok((payload, (FRAME_OVERHEAD + plen) as nat))
            }
        }
    }
}

/// Decode the frame at the start of `buf`, returning its payload and the
/// number of bytes it took; the caller advances by that count for the next
/// frame.
pub fn decode_frame(buf: &[u8]) -> (r: Result<(Vec<u8>, usize), DecodeError>)
    ensures
        match (r, decode_frame_spec(buf@)) {
            (Ok((p, n)), Ok((sp, sn))) => p@ == sp && n == sn,
            (Err(e), Err(se)) => e == se,
            _ => false,
        },
{
    let len: usize = buf.len();
    if len < FRAME_OVERHEAD {
        return Err(DecodeError::IncompleteHeader);
    }
    proof {
        lemma_pow256_values();
        crate::bytes::lemma_le_bytes_of_value(buf@.subrange(0, 4));
        crate::bytes::lemma_le_bytes_of_value(buf@.subrange(4, 6));
        crate::bytes::lemma_le_bytes_of_value(buf@.subrange(6, 10));
    }
    let magic: u32 = decode_le(buf, 0, 4) as u32;
    if magic != MAGIC {
        return Err(DecodeError::InvalidMagic(magic));
    }
    let version: u16 = decode_le(buf, 4, 2) as u16;
    if version != PROTOCOL_VERSION {
        return Err(DecodeError::UnsupportedVersion(version));
    }
    let plen: usize = decode_le(buf, 6, 4) as usize;
    if plen > MAX_PAYLOAD_LEN {
        return Err(DecodeError::PayloadTooLarge(plen));
    }
    let total: usize = FRAME_OVERHEAD + plen;
    if len < total {
        return Err(DecodeError::IncompleteHeader);
    }
    let payload = crate::storage::wal::copy_range(buf, 10, 10 + plen);
    let expected = crc32(payload.as_slice());
    proof {
        crate::bytes::lemma_le_bytes_of_value(buf@.subrange(10 + plen, 14 + plen));
    }
    let actual: u32 = decode_le(buf, 10 + plen, 4) as u32;
    if expected != actual {
        return Err(DecodeError::CrcMismatch { expected, actual });
    }
    Ok((payload, total))
}

/// Codec law: a frame encoded with this protocol's version decodes to its
/// payload and its own length, whatever bytes follow it in the buffer.
pub proof fn lemma_frame_roundtrip(payload: Seq<u8>, rest: Seq<u8>)
    requires
        payload.len() <= MAX_PAYLOAD_LEN,
    ensures
        decode_frame_spec(frame_spec(PROTOCOL_VERSION, payload) + rest) == Ok::<(Seq<u8>, nat), DecodeError>(
            (payload, (FRAME_OVERHEAD + payload.len()) as nat),
        ),
{
    lemma_pow256_values();
    crate::storage::wal::lemma_le_lengths_pub();
    let f = frame_spec(PROTOCOL_VERSION, payload);
    let buf = f + rest;
    let n = payload.len() as int;
    assert(n % 0x1_0000_0000 == n);
    assert(buf.subrange(0, 4) =~= le_bytes(MAGIC as nat, 4));
    assert(buf.subrange(4, 6) =~= le_bytes(PROTOCOL_VERSION as nat, 2));
    assert(buf.subrange(6, 10) =~= le_bytes(n as nat, 4));
    assert(buf.subrange(10, 10 + n) =~= payload);
    assert(buf.subrange(10 + n, 14 + n) =~= le_bytes(crc32_of(payload) as nat, 4));
    lemma_le_value_of_bytes(MAGIC as nat, 4);
    lemma_le_value_of_bytes(PROTOCOL_VERSION as nat, 2);
    lemma_le_value_of_bytes(n as nat, 4);
    lemma_le_value_of_bytes(crc32_of(payload) as nat, 4);
}

} // verus!
