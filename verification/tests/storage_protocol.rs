use ramshield::storage::segments::{order_by_lsn, LsnCounter};
use ramshield::protocol::codec::{decode_frame, encode_frame, DecodeError, FRAME_OVERHEAD, MAGIC, PROTOCOL_VERSION};
use ramshield::storage::store::{merge_subnet_window, BlockState, SubnetRecord};
use ramshield::storage::subnet::{subnet_key_u128, subnet_key_v4};
use ramshield::storage::wal::{encode_record, parse_record, plan_recovery, scan_segment, CorruptKind, RecordParse, ScannedRecord, TailAction, HEADER};
use ramshield::types::error::BlockReason;
use ramshield::types::ip_network::IpNetwork;
use ramshield::types::net::IpAddr;

#[test]
fn wal_records_scan_back_in_order() {
    let mut seg = Vec::new();
    seg.extend(encode_record(b"first", 1, false).unwrap());
    seg.extend(encode_record(&[7u8; 300], 2, true).unwrap());
    seg.extend(encode_record(b"", 3, false).unwrap());
    let scan = scan_segment(&seg);
    assert!(!scan.corrupted);
    assert_eq!(scan.records.len(), 3);
    assert_eq!(scan.records[0].lsn, 1);
    assert_eq!(scan.records[0].data, b"first".to_vec());
    assert_eq!(scan.records[1].data, vec![7u8; 300]);
    assert_eq!(scan.records[2].lsn, 3);
    assert_eq!(scan.records[2].end, seg.len());
}

#[test]
fn wal_truncated_tail_is_corrupt_prefix_kept() {
    let mut seg = encode_record(b"ok", 9, false).unwrap();
    let good = seg.len();
    seg.extend(encode_record(b"torn", 10, false).unwrap());
    seg.truncate(seg.len() - 2);
    let scan = scan_segment(&seg);
    assert!(scan.corrupted);
    assert_eq!(scan.records.len(), 1);
    assert_eq!(scan.records[0].end, good);
    assert!(matches!(parse_record(&seg, good), RecordParse::Corrupt(CorruptKind::TruncatedPayload)));
    assert!(matches!(parse_record(&seg, seg.len()), RecordParse::End));
}

#[test]
fn wal_bit_flip_is_crc_mismatch() {
    let mut seg = encode_record(b"payload", 1, false).unwrap();
    seg[HEADER + 1] ^= 0xff;
    assert!(matches!(parse_record(&seg, 0), RecordParse::Corrupt(CorruptKind::CrcMismatch)));
    seg[0] ^= 0xff;
    assert!(matches!(parse_record(&seg, 0), RecordParse::Corrupt(CorruptKind::BadMagic)));
}

#[test]
fn frame_roundtrip_and_errors() {
    let frame = encode_frame(PROTOCOL_VERSION, b"hello").unwrap();
    assert_eq!(frame.len(), FRAME_OVERHEAD + 5);
    let (payload, used) = decode_frame(&frame).unwrap();
    assert_eq!(payload, b"hello".to_vec());
    assert_eq!(used, frame.len());
    assert!(matches!(decode_frame(&frame[..5]), Err(DecodeError::IncompleteHeader)));
    let mut bad = frame.clone();
    bad[0] ^= 1;
    assert!(matches!(decode_frame(&bad), Err(DecodeError::InvalidMagic(m)) if m != MAGIC));
    let mut flipped = frame.clone();
    let last = flipped.len() - 1;
    flipped[last] ^= 1;
    assert!(matches!(decode_frame(&flipped), Err(DecodeError::CrcMismatch { .. })));
}

#[test]
fn block_state_since() {
    assert_eq!(BlockState::Clean.since_ns(), 0);
    assert_eq!(BlockState::Suspicious.since_ns(), 0);
    assert_eq!(
        BlockState::Blocked { reason: BlockReason::HighRps, since_ns: 42 }.since_ns(),
        42
    );
}

#[test]
fn subnet_window_marks_hosts_and_rolls_over() {
    let net = IpNetwork::of_ip(IpAddr::from_v4_octets([10, 0, 0, 5]));
    let members = [
        IpAddr::from_v4_octets([10, 0, 0, 5]),
        IpAddr::from_v4_octets([10, 0, 0, 6]),
        IpAddr::from_v4_octets([10, 0, 0, 5]),
        IpAddr::V6(1),
    ];
    let r = merge_subnet_window(None, net, 3, &members, 1_000);
    assert_eq!(r.prefix, [10, 0, 0]);
    assert_eq!(r.total_rps, 3);
    assert_eq!(r.unique_ips(), 2);
    let r2 = merge_subnet_window(Some(r), net, 4, &[IpAddr::from_v4_octets([10, 0, 0, 200])], 2_000);
    assert_eq!(r2.total_rps, 7);
    assert_eq!(r2.unique_ips(), 3);
    let r3 = merge_subnet_window(Some(r2), net, 1, &[], 2_000 + 2_000_000_001);
    assert_eq!(r3.total_rps, 1);
    assert_eq!(r3.unique_ips(), 0);
    assert_eq!(r3.last_updated_ns, 2_000_000_001 + 2_000);
}

#[test]
fn mark_host_is_idempotent() {
    let mut r = SubnetRecord { prefix: [1, 2, 3], total_rps: 0, host_bitmap: [0; 4], last_updated_ns: 0 };
    r.mark_host_v4(IpAddr::from_v4_octets([1, 2, 3, 255]));
    let once = r.host_bitmap;
    r.mark_host_v4(IpAddr::from_v4_octets([1, 2, 3, 255]));
    assert_eq!(r.host_bitmap, once);
    assert_eq!(r.host_bitmap[3], 1u64 << 63);
    assert_eq!(r.unique_ips(), 1);
}

#[test]
fn storage_subnet_keys() {
    assert_eq!(subnet_key_v4([10, 20, 30, 40]), 0x0a14_1e00);
    assert_eq!(subnet_key_u128(IpAddr::from_v4_octets([10, 20, 30, 40])), Some(0x0a14_1e00));
    let v6 = subnet_key_u128(IpAddr::V6(0x0102_0304)).unwrap();
    assert_eq!(v6, 0);
    assert_ne!(subnet_key_u128(IpAddr::from_v4_octets([1, 2, 3, 4])).unwrap(), subnet_key_u128(IpAddr::V6((1u128 << 64) + 5)).unwrap());
}

use ramshield::storage::segments::{
    append_plan, max_lsn_across, max_lsn_in_segment, parse_seg_name, retention_victims, seg_file_name,
};
use ramshield::types::error::Durability;

#[test]
fn segment_names_roundtrip() {
    assert_eq!(seg_file_name(7), "wal-00000007.rshw");
    assert_eq!(seg_file_name(123_456_789), "wal-123456789.rshw");
    assert_eq!(parse_seg_name("wal-00000007.rshw"), Some(7));
    assert_eq!(parse_seg_name("wal-.rshw"), None);
    assert_eq!(parse_seg_name("wal-12.log"), None);
    assert_eq!(parse_seg_name("xal-12.rshw"), None);
    assert_eq!(parse_seg_name(&seg_file_name(u64::MAX)), Some(u64::MAX));
}

#[test]
fn append_plan_decisions() {
    let p = append_plan(Durability::GroupCommit, 10, 100, 500, 400);
    assert!(p.must_sync && p.must_flush && !p.must_rotate);
    assert_eq!(p.next_sync_due_ns, 100_000_500);
    let p = append_plan(Durability::GroupCommit, 10, 100, 300, 400);
    assert!(!p.must_sync && !p.must_flush);
    assert_eq!(p.next_sync_due_ns, 400);
    let p = append_plan(Durability::NoSync, 100, 100, 0, 0);
    assert!(p.must_rotate && p.must_flush && !p.must_sync);
    let p = append_plan(Durability::Flush, 1, 100, 0, 0);
    assert!(p.must_flush && !p.must_sync);
}

#[test]
fn wal_retention_deletes_oldest_segments() {
    let segs = vec![(1, 40), (2, 40), (3, 40), (4, 40)];
    assert_eq!(retention_victims(&segs, 100), vec![1, 2]);
    assert_eq!(retention_victims(&segs, 0), Vec::<u64>::new());
    assert_eq!(retention_victims(&segs, 160), Vec::<u64>::new());
    assert_eq!(retention_victims(&vec![(9, 500)], 10), Vec::<u64>::new());
    assert_eq!(retention_victims(&segs, 1), vec![1, 2, 3]);
}

#[test]
fn max_lsn_scans_headers() {
    let mut seg = encode_record(b"a", 5, false).unwrap();
    seg.extend(encode_record(b"b", 3, false).unwrap());
    seg.extend(encode_record(b"c", 9, false).unwrap());
    assert_eq!(max_lsn_in_segment(&seg), 9);
    seg.truncate(seg.len() - 1);
    assert_eq!(max_lsn_in_segment(&seg), 9);
    assert_eq!(max_lsn_in_segment(&[]), 0);
    assert_eq!(max_lsn_across(&[0, 4, 2]), Some(4));
    assert_eq!(max_lsn_across(&[0, 0]), None);
}

#[test]
fn replay_order_keeps_first_record_per_lsn() {
    let recs = vec![(5u64, "e"), (2, "b"), (9, "x"), (2, "b-dup"), (1, "a"), (5, "e-dup")];
    assert_eq!(order_by_lsn(recs), vec![(1, "a"), (2, "b"), (5, "e"), (9, "x")]);
    assert!(order_by_lsn(Vec::<(u64, u8)>::new()).is_empty());
}

#[test]
fn recovery_truncates_after_last_good_record_or_quarantines() {
    let rec = |lsn: u64, end: usize| ScannedRecord { lsn, data: vec![], end };
    let recs = vec![rec(1, 40), rec(2, 90), rec(3, 130)];
    assert_eq!(plan_recovery(&recs, &vec![true, true, true], false), (3, TailAction::Keep));
    assert_eq!(plan_recovery(&recs, &vec![true, true, true], true), (3, TailAction::Truncate(130)));
    assert_eq!(plan_recovery(&recs, &vec![true, false, true], false), (1, TailAction::Truncate(40)));
    assert_eq!(plan_recovery(&recs, &vec![false, true, true], false), (0, TailAction::Quarantine));
    assert_eq!(plan_recovery(&vec![], &vec![], true), (0, TailAction::Quarantine));
    assert_eq!(plan_recovery(&vec![], &vec![], false), (0, TailAction::Keep));
}

#[test]
fn lsn_counter_resumes_past_every_segment() {
    let mut c = LsnCounter::resume(&[0, 17, 5]);
    assert_eq!(c.peek(), 18);
    assert_eq!((c.take(), c.take()), (18, 19));
    assert_eq!(c.peek(), 20);
    assert_eq!(LsnCounter::resume(&[]).peek(), 1);
    assert_eq!(LsnCounter::resume(&[0, 0]).peek(), 1);
}

#[test]
fn wal_garbage_tail_keeps_records_and_truncates() {
    let mut seg = Vec::new();
    seg.extend(encode_record(b"one", 1, true).unwrap());
    seg.extend(encode_record(&[5u8; 200], 2, true).unwrap());
    seg.extend(encode_record(b"three", 3, true).unwrap());
    let good = seg.len();
    seg.extend(vec![0xFFu8; 23]);
    let scan = scan_segment(&seg);
    assert!(scan.corrupted);
    assert_eq!(scan.records.len(), 3);
    assert_eq!(scan.records[1].data, vec![5u8; 200]);
    assert_eq!(scan.records[2].end, good);
    assert!(matches!(parse_record(&seg, good), RecordParse::Corrupt(CorruptKind::BadMagic)));
    let parsed = vec![true; 3];
    assert_eq!(plan_recovery(&scan.records, &parsed, scan.corrupted), (3, TailAction::Truncate(good)));
}
