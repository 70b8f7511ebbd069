use ramshield::protocol::auth::{sign, verify, MAX_CLOCK_SKEW_MS};
use ramshield::protocol::codec::{decode_frame, encode_frame, DecodeError, PROTOCOL_VERSION};
use ramshield::protocol::replay_store::ReplayStore;

fn now_ms() -> u64 {
    std::time::SystemTime::now()
        .duration_since(std::time::UNIX_EPOCH)
        .unwrap()
        .as_millis() as u64
}

fn keys() -> Vec<(String, Vec<u8>)> {
    vec![("k1".to_string(), b"secret-key".to_vec())]
}

/// The JSON payload a `GetStatus` request message carries.
const GET_STATUS: &[u8] = br#"{"version":1,"body":{"Request":"GetStatus"}}"#;
const GET_STATS: &[u8] = br#"{"version":1,"body":{"Request":"GetStats"}}"#;

fn roundtrip(payload: &[u8]) {
    let frame = encode_frame(PROTOCOL_VERSION, payload).unwrap();
    let (decoded, consumed) = decode_frame(&frame).unwrap();
    assert_eq!(decoded, payload);
    assert_eq!(consumed, frame.len());
}

#[test]
fn replay_without_store_accepted() {
    let now = now_ms();
    let payload = br#"{"type":"check_ip","ip":"1.2.3.4"}"#;
    let sig = sign(b"secret-key", now, payload);
    assert!(verify(&keys(), "k1", now, &sig, payload, None).is_ok());
    assert!(verify(&keys(), "k1", now, &sig, payload, None).is_ok());
}

#[test]
fn replay_different_key_id_is_allowed() {
    let keys = vec![("k1".to_string(), b"key-a".to_vec()), ("k2".to_string(), b"key-b".to_vec())];
    let now = now_ms();
    let payload = br#"{"type":"check_ip","ip":"5.6.7.8"}"#;
    let sig1 = sign(b"key-a", now, payload);
    let sig2 = sign(b"key-b", now, payload);
    let mut store = ReplayStore::new(64, MAX_CLOCK_SKEW_MS);
    assert!(verify(&keys, "k1", now, &sig1, payload, Some(&mut store)).is_ok());
    assert!(verify(&keys, "k2", now, &sig2, payload, Some(&mut store)).is_ok());
}

#[test]
fn replay_different_payload_same_ts_is_allowed() {
    let now = now_ms();
    let sig1 = sign(b"secret-key", now, b"payload-a");
    let sig2 = sign(b"secret-key", now, b"payload-b");
    let mut store = ReplayStore::new(64, MAX_CLOCK_SKEW_MS);
    assert!(verify(&keys(), "k1", now, &sig1, b"payload-a", Some(&mut store)).is_ok());
    assert!(verify(&keys(), "k1", now, &sig2, b"payload-b", Some(&mut store)).is_ok());
}

#[test]
fn first_seen_ok_then_replay_rejected() {
    let mut s = ReplayStore::new(16, 100);
    let sig: &[u8] = &[1u8; 32];
    assert!(s.check_and_record("k1", sig).is_ok());
    assert!(s.check_and_record("k1", sig).is_err());
}

#[test]
fn lru_bound_holds() {
    let mut s = ReplayStore::new(4, 60_000);
    for i in 0u8..16 {
        let n = format!("n{}", i);
        s.check_and_record("k1", n.as_bytes()).unwrap();
    }
    assert!(s.len() <= 4);
}

#[test]
fn replay_protection_requires_store() {
    let k = vec![("k1".to_string(), b"server-key".to_vec())];
    let payload = br#"{"type":"check_ip","ip":"1.2.3.4"}"#;
    let ts = now_ms();
    let sig = sign(b"server-key", ts, payload);
    assert!(verify(&k, "k1", ts, &sig, payload, None).is_ok());
    let second = verify(&k, "k1", ts, &sig, payload, None);
    assert!(second.is_ok());
}

#[test]
fn replay_outside_window_rejected() {
    let k = vec![("k1".to_string(), b"server-key".to_vec())];
    let payload = b"x";
    let stale_ts = now_ms() - MAX_CLOCK_SKEW_MS - 1;
    let sig = sign(b"server-key", stale_ts, payload);
    assert!(verify(&k, "k1", stale_ts, &sig, payload, None).is_err());
}

#[test]
fn replay_store_distinguishes_nonces() {
    let mut store = ReplayStore::new(1024, 200);
    let n1: &[u8] = b"nonce-1";
    let n2: &[u8] = b"nonce-2";
    assert!(store.check_and_record("k1", n1).is_ok());
    assert!(store.check_and_record("k1", n1).is_err());
    assert!(store.check_and_record("k1", n2).is_ok());
}

#[test]
fn replay_store_per_key_isolation() {
    let mut store = ReplayStore::new(1024, 200);
    let nonce: &[u8] = b"shared";
    assert!(store.check_and_record("k1", nonce).is_ok());
    assert!(store.check_and_record("k2", nonce).is_ok());
}

#[test]
fn replay_store_lru_bounded() {
    let cap = 8;
    let mut store = ReplayStore::new(cap, 60_000);
    for i in 0u8..(cap as u8 * 4) {
        let n = format!("n{}", i);
        store.check_and_record("k1", n.as_bytes()).unwrap();
    }
    assert!(store.len() <= cap);
}

#[test]
fn roundtrip_get_status() {
    roundtrip(GET_STATUS);
}

#[test]
fn roundtrip_block_ip() {
    roundtrip(br#"{"version":1,"body":{"Request":{"BlockIp":{"ip":"10.0.0.1","reason":"syn_flood","ttl_secs":3600}}}}"#);
}

#[test]
fn roundtrip_response_ok() {
    roundtrip(br#"{"version":1,"body":{"Response":{"Ok":{"message":"ok","state":null}}}}"#);
}

#[test]
fn roundtrip_batch_response() {
    roundtrip(br#"{"version":1,"body":{"Response":{"BatchOk":{"accepted":500,"rejected":2}}}}"#);
}

#[test]
fn rejects_bad_magic() {
    let mut frame = encode_frame(PROTOCOL_VERSION, GET_STATUS).unwrap();
    frame[0] = 0x00;
    let err = decode_frame(&frame).unwrap_err();
    assert!(matches!(err, DecodeError::InvalidMagic(_)));
}

#[test]
fn rejects_bad_crc() {
    let frame = encode_frame(PROTOCOL_VERSION, GET_STATUS).unwrap();
    let last_idx = frame.len() - 1;
    let mut corrupted = frame.clone();
    corrupted[last_idx] ^= 0xFF;
    let err = decode_frame(&corrupted).unwrap_err();
    assert!(matches!(err, DecodeError::CrcMismatch { .. }));
}

#[test]
fn rejects_bad_version() {
    let frame = encode_frame(PROTOCOL_VERSION, GET_STATUS).unwrap();
    let mut corrupted = frame.clone();
    corrupted[4] = 0xFF;
    let err = decode_frame(&corrupted).unwrap_err();
    assert!(matches!(err, DecodeError::UnsupportedVersion(_)));
}

#[test]
fn incomplete_header() {
    let err = decode_frame(&[0x52, 0x53, 0x48]).unwrap_err();
    assert!(matches!(err, DecodeError::IncompleteHeader));
}

#[test]
fn double_frame_in_buffer() {
    let frame1 = encode_frame(PROTOCOL_VERSION, GET_STATUS).unwrap();
    let frame2 = encode_frame(PROTOCOL_VERSION, GET_STATS).unwrap();
    let mut buf = frame1.clone();
    buf.extend_from_slice(&frame2);
    let (decoded1, consumed1) = decode_frame(&buf).unwrap();
    assert_eq!(decoded1, GET_STATUS);
    let remaining = &buf[consumed1..];
    let (decoded2, consumed2) = decode_frame(remaining).unwrap();
    assert_eq!(decoded2, GET_STATS);
    assert_eq!(consumed2, remaining.len());
}
