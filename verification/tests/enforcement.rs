use ramshield::enforcement::coordinator::{ban_expired, cgnat_veto, is_shared_infrastructure, tier_default_ttl_ns};
use ramshield::enforcement::xdp::{
    blocklist_value, parse_drop_event, split_by_family, xdp_map_for, BlocklistKey, PERMANENT,
};
use ramshield::enforcement::{
    accept_reconciliation, apply_command, enforce_result, fold_wal_blocks, live_blocks, replay_wal_blocks, replay_wal_into_store, wal_entry_for, EnforceCheck, EnforcementLedger,
    ReconciliationState, StubXdpApplier, XdpApplier,
};
use ramshield::metrics::Metrics;
use ramshield::storage::store::{BlockState, Store, Value};
use ramshield::storage::wal::WalEntry;
use ramshield::types::command::{EnforceAction, EnforceCommand, EnforcementError};
use ramshield::types::error::BlockReason;
use ramshield::types::net::IpAddr;

#[test]
fn blocklist_value_ttl_zero_is_permanent() {
    assert_eq!(blocklist_value(1_000, 0), PERMANENT);
}

#[test]
fn blocklist_value_encodes_absolute_expiry() {
    assert_eq!(blocklist_value(5_000_000_000, 10), 15_000_000_000);
}

#[test]
fn blocklist_value_saturates() {
    assert_eq!(blocklist_value(u64::MAX - 5, 1), u64::MAX);
}

fn v4(a: u8, b: u8, c: u8, d: u8) -> IpAddr {
    IpAddr::from_v4_octets([a, b, c, d])
}

fn v6_2001_db8_1() -> IpAddr {
    IpAddr::V6((0x2001_0db8u128 << 96) + 1)
}

#[test]
fn v4_key_bytes_match_dataplane_layout() {
    let key = BlocklistKey::from_ip(v4(1, 2, 3, 4));
    let mem = key.0.to_le_bytes();
    assert_eq!(&mem[0..4], &[1, 2, 3, 4], "octet order reversed vs C");
    assert_eq!(&mem[4..], &[0; 12], "padding must be zero");
}

#[test]
fn v6_key_bytes_match_dataplane_layout() {
    let key = BlocklistKey::from_ip(v6_2001_db8_1());
    let mem = key.0.to_le_bytes();
    assert_eq!(&mem[0..2], &[0x20, 0x01]);
    assert_eq!(&mem[2..4], &[0x0d, 0xb8]);
    assert_eq!(mem[15], 1, "last octet at memory[15] = wire order");
}

#[test]
fn family_routes_to_dedicated_map() {
    assert_eq!(xdp_map_for(v4(1, 2, 3, 4)), "BLOCKLIST");
    assert_eq!(xdp_map_for(v6_2001_db8_1()), "BLOCKLIST6");
}

#[test]
fn split_by_family_never_crosses_maps() {
    let ips = vec![v4(1, 2, 3, 4), v6_2001_db8_1(), v4(5, 6, 7, 8), IpAddr::V6((0xfd00u128 << 112) + 9)];
    let (v4k, v6k) = split_by_family(&ips);
    assert_eq!(v4k.len(), 2);
    assert_eq!(v6k.len(), 2);
    assert_eq!(v6k[0].0, BlocklistKey::from_ip(ips[1]).0);
    assert_eq!(v6k[1].0, BlocklistKey::from_ip(ips[3]).0);
    assert!(!v4k.iter().any(|k| v6k.contains(k)), "a key must not appear in both sweeps");
}

fn rec(ip: &[u8; 16], ts_ns: u64, slot: u8) -> Vec<u8> {
    let mut r = Vec::with_capacity(26);
    r.extend_from_slice(ip);
    r.extend_from_slice(&ts_ns.to_le_bytes());
    r.push(0);
    r.push(slot);
    r
}

#[test]
fn parse_v4_drop_event() {
    let mut ip = [0u8; 16];
    ip[0..4].copy_from_slice(&[1, 2, 3, 4]);
    let ev = parse_drop_event(&rec(&ip, 42, 0)).unwrap();
    assert_eq!(ev.ip, v4(1, 2, 3, 4));
    assert_eq!(ev.ts_ns, 42);
    assert_eq!(ev.slot, 0);
}

#[test]
fn parse_v6_drop_event() {
    let ip = b"\x20\x01\x0d\xb8\x00\x00\x00\x00\x00\x00\x00\x00\x00\x00\x00\x01";
    let ev = parse_drop_event(&rec(ip, 7, 1)).unwrap();
    assert_eq!(ev.ip, v6_2001_db8_1());
    assert_eq!(ev.ts_ns, 7);
    assert_eq!(ev.slot, 1);
}

#[test]
fn parse_short_record_is_none() {
    assert!(parse_drop_event(&[0u8; 25]).is_none());
    assert!(parse_drop_event(&[]).is_none());
}

fn cmd(id: u128, ip: IpAddr, action: EnforceAction, ttl: u64) -> EnforceCommand {
    EnforceCommand {
        decision_id: id,
        policy_version: 1,
        source: "test".to_string(),
        actor: "test".to_string(),
        timestamp_utc: 0,
        ttl_seconds: ttl,
        reason: "high_rps".to_string(),
        ip,
        action,
    }
}

#[test]
fn duplicate_decision_is_idempotent() {
    let mut l = EnforcementLedger::new();
    let ip = v4(9, 9, 9, 9);
    let c = cmd(7, ip, EnforceAction::Block, 60);
    assert!(matches!(l.check(&c), EnforceCheck::Proceed));
    l.commit_block(ip, 7, 60, 1_000);
    match l.check(&c) {
        EnforceCheck::Duplicate(r) => {
            assert!(r.committed && r.applied && r.xdp_applied);
            assert_eq!(r.wal_lsn, None);
            assert_eq!(r.decision_id, 7);
        }
        _ => panic!("expected duplicate"),
    }
}

#[test]
fn unspecified_ip_is_refused() {
    let l = EnforcementLedger::new();
    match l.check(&cmd(1, IpAddr::V4(0), EnforceAction::Block, 0)) {
        EnforceCheck::Invalid(EnforcementError::InvalidCommand(m)) => {
            assert_eq!(m, "unspecified IP is not blockable")
        }
        _ => panic!("expected refusal"),
    }
}

#[test]
fn block_then_unblock_clears_state() {
    let mut l = EnforcementLedger::new();
    let ip = v4(9, 9, 9, 9);
    l.commit_block(ip, 1, 3600, 0);
    assert!(l.is_blocked(ip));
    assert_eq!(l.pending_expirations(), vec![(3_600_000, ip)]);
    l.commit_unblock(ip, 2);
    assert!(!l.is_blocked(ip));
    assert!(l.pending_expirations().is_empty());
    assert!(l.is_processed(1) && l.is_processed(2));
}

#[test]
fn reblock_replaces_expiration() {
    let mut l = EnforcementLedger::new();
    let ip = v4(1, 1, 1, 1);
    let other = v4(2, 2, 2, 2);
    l.commit_block(ip, 1, 10, 0);
    l.commit_block(other, 2, 5, 0);
    l.commit_block(ip, 3, 20, 1_000);
    assert_eq!(l.pending_expirations(), vec![(5_000, other), (21_000, ip)]);
    l.commit_block(ip, 4, 0, 2_000);
    assert_eq!(l.pending_expirations(), vec![(5_000, other)]);
    assert_eq!(l.blocked_ips(), vec![ip, other]);
}

#[test]
fn take_due_returns_due_in_order() {
    let mut l = EnforcementLedger::new();
    let a = v4(1, 0, 0, 1);
    let b = v4(1, 0, 0, 2);
    let c = v4(1, 0, 0, 3);
    l.commit_block(a, 1, 1, 0);
    l.commit_block(b, 2, 10, 0);
    l.commit_block(c, 3, 2, 0);
    let due = l.take_due(2_000);
    assert_eq!(due, vec![a, c]);
    assert_eq!(l.pending_expirations(), vec![(10_000, b)]);
}

#[test]
fn wal_entry_records_intent() {
    let ip = v4(10, 0, 0, 1);
    match wal_entry_for(&cmd(1, ip, EnforceAction::Block, 0), 55) {
        WalEntry::BlockIp { ip, reason, ttl_secs, ts_ns } => {
            assert_eq!(ip, "10.0.0.1");
            assert_eq!(reason, "high_rps");
            assert_eq!(ttl_secs, None);
            assert_eq!(ts_ns, 55);
        }
        _ => panic!("expected a block entry"),
    }
    match wal_entry_for(&cmd(1, ip, EnforceAction::Unblock, 9), 56) {
        WalEntry::UnblockIp { ip, ts_ns } => {
            assert_eq!(ip, "10.0.0.1");
            assert_eq!(ts_ns, 56);
        }
        _ => panic!("expected an unblock entry"),
    }
}

fn block(ip: &str, reason: &str, ttl: Option<u64>, ts: u64) -> WalEntry {
    WalEntry::BlockIp { ip: ip.to_string(), reason: reason.to_string(), ttl_secs: ttl, ts_ns: ts }
}

#[test]
fn wal_fold_later_entries_win() {
    let entries = vec![
        block("1.1.1.1", "high_rps", None, 1),
        block("2.2.2.2", "SUBNET_BURST", Some(10), 2),
        WalEntry::UnblockIp { ip: "1.1.1.1".to_string(), ts_ns: 3 },
        WalEntry::Delete { key: "x".to_string(), ts_ns: 4 },
        block("3.3.3.3", "nonsense", None, 5),
        block("not-an-ip", "high_rps", None, 6),
        block("3.3.3.3", "high_rps", Some(1), 7),
    ];
    let out = fold_wal_blocks(&entries);
    assert_eq!(out.len(), 2);
    let three = out.iter().find(|b| b.ip == v4(3, 3, 3, 3)).unwrap();
    assert_eq!(three.reason, BlockReason::HighRps);
    assert_eq!(three.since_ns, 7);
    assert_eq!(three.ttl_secs, Some(1));
    let two = out.iter().find(|b| b.ip == v4(2, 2, 2, 2)).unwrap();
    assert_eq!(two.reason, BlockReason::SubnetBatch);
    assert!(out.iter().all(|b| b.ip != v4(1, 1, 1, 1)));

    let live = live_blocks(&out, 1_000_000_007);
    assert_eq!(live.len(), 1);
    assert_eq!(live[0].ip, v4(2, 2, 2, 2));
    assert_eq!(live_blocks(&out, 1_000_000_006).len(), 2);
}

#[test]
fn stub_applier_accepts_everything() {
    let mut s = StubXdpApplier;
    assert!(s.apply_block(v4(1, 2, 3, 4), 1).is_ok());
    assert!(s.apply_unblock(v4(1, 2, 3, 4), 1).is_ok());
    assert!(s.reconcile(&[]).unwrap().pending_blocks.is_empty());
    let r = enforce_result(3, Some(9), false);
    assert_eq!(r.wal_lsn, Some(9));
    assert!(!r.xdp_applied);
}

struct RecordingApplier {
    log: Vec<(String, IpAddr)>,
    refuse_unblock: bool,
    last_ok: bool,
}

impl XdpApplier for RecordingApplier {
    fn accepted_last(&self) -> bool {
        self.last_ok
    }
    fn apply_block(&mut self, ip: IpAddr, _d: u128) -> Result<(), EnforcementError> {
        self.log.push(("block".into(), ip));
        self.last_ok = true;
        Ok(())
    }
    fn apply_unblock(&mut self, ip: IpAddr, _d: u128) -> Result<(), EnforcementError> {
        self.log.push(("unblock".into(), ip));
        self.last_ok = !self.refuse_unblock;
        if self.refuse_unblock {
            Err(EnforcementError::Xdp("map busy".into()))
        } else {
            Ok(())
        }
    }
    fn reconcile(&mut self, _expected: &[IpAddr]) -> Result<ReconciliationState, EnforcementError> {
        self.last_ok = true;
        Ok(ReconciliationState::default())
    }
}

#[test]
fn apply_command_reaches_dataplane_and_counts_blocks() {
    let mut l = EnforcementLedger::new();
    let mut store = Store::new(16);
    store.set_ram_limit_mb_for_testing(512);
    let mut m = Metrics::new();
    let mut xdp = RecordingApplier { log: Vec::new(), refuse_unblock: true, last_ok: false };
    let target = v4(9, 9, 9, 9);
    let r = apply_command(&mut l, &mut store, &mut m, &mut xdp, &cmd(1, target, EnforceAction::Block, 3600), Some(42), 0, 77)
        .unwrap();
    assert!(r.committed && r.applied && r.xdp_applied);
    assert_eq!(r.wal_lsn, Some(42));
    assert_eq!(m.blocks_total, 1);
    assert!(l.is_blocked(target));
    assert_eq!(l.pending_expirations(), vec![(3_600_000, target)]);
    match store.get(target, 0) {
        Some(Value::IpRecord(rec)) => {
            assert_eq!(rec.block_state, BlockState::Blocked { reason: BlockReason::HighRps, since_ns: 77 });
            assert_eq!((rec.first_seen_ns, rec.last_seen_ns), (77, 77));
        }
        _ => panic!("block must write the record before the dataplane"),
    }
    let r = apply_command(&mut l, &mut store, &mut m, &mut xdp, &cmd(2, target, EnforceAction::Unblock, 0), None, 5_000_000, 99)
        .unwrap();
    assert!(r.committed && !r.xdp_applied);
    assert_eq!(r.decision_id, 2);
    assert_eq!(m.blocks_total, 1);
    assert!(!l.is_blocked(target));
    assert!(l.pending_expirations().is_empty());
    assert!(matches!(store.get(target, 0), Some(Value::IpRecord(rec)) if rec.block_state == BlockState::Clean));
    assert_eq!(xdp.log, vec![("block".to_string(), target), ("unblock".to_string(), target)]);
    assert!(matches!(l.check(&cmd(2, target, EnforceAction::Unblock, 0)), EnforceCheck::Duplicate(_)));
}

#[test]
fn apply_command_reports_storage_refusal() {
    let mut l = EnforcementLedger::new();
    let mut store = Store::new(16);
    let mut m = Metrics::new();
    let mut xdp = RecordingApplier { log: Vec::new(), refuse_unblock: false, last_ok: false };
    let target = v4(9, 9, 9, 8);
    // a store configured with no memory refuses the new record
    match apply_command(&mut l, &mut store, &mut m, &mut xdp, &cmd(3, target, EnforceAction::Block, 60), None, 0, 0) {
        Err(EnforcementError::Storage(msg)) => assert_eq!(msg, "capacity exceeded: 0 MB"),
        _ => panic!("expected a storage refusal"),
    }
    assert!(!l.is_blocked(target) && !l.is_processed(3));
    assert!(xdp.log.is_empty());
    assert_eq!(m.blocks_total, 0);
}

#[test]
fn replay_restores_live_blocks_into_store() {
    let mut store = Store::new(16);
    store.set_ram_limit_mb_for_testing(64);
    let a = "203.0.113.1";
    let b = "203.0.113.2";
    let c = "203.0.113.3";
    let es = vec![
        block(a, "high_rps", None, 10),
        block(b, "subnet_burst", Some(1), 20),
        block(c, "manual_block", None, 30),
        WalEntry::UnblockIp { ip: c.to_string(), ts_ns: 40 },
    ];
    let mut ledger = EnforcementLedger::new();
    let n = replay_wal_into_store(&mut store, &mut ledger, &es, 0, 5_000_000_000).unwrap();
    assert!(ledger.pending_expirations().is_empty(), "a's block is permanent");
    assert_eq!(n, 1, "b's TTL ran out and c was unblocked");
    match store.get(IpAddr::V4(0xcb00_7101), 0) {
        Some(Value::IpRecord(rec)) => {
            assert_eq!(rec.block_state, BlockState::Blocked { reason: BlockReason::HighRps, since_ns: 10 })
        }
        _ => panic!("a must be restored"),
    }
    assert!(store.get(IpAddr::V4(0xcb00_7102), 0).is_none());
    assert_eq!(store.get_stats().blocked, 1);
}

#[test]
fn coordinator_veto_and_ban_expiry() {
    assert_eq!(cgnat_veto(3, true), 2);
    assert_eq!(cgnat_veto(3, false), 3);
    assert_eq!(cgnat_veto(1, true), 1);
    assert!(is_shared_infrastructure(IpAddr::V6(1)));
    assert!(!is_shared_infrastructure(IpAddr::V4(1)));
    assert_eq!(tier_default_ttl_ns(2), 3_600_000_000_000);
    assert_eq!(tier_default_ttl_ns(9), 300_000_000_000);
    let mut store = Store::new(2);
    store.set_ram_limit_mb_for_testing(64);
    let mut l = EnforcementLedger::new();
    let mut m = Metrics::new();
    let mut xdp = StubXdpApplier;
    let ip = v4(198, 51, 100, 7);
    assert!(ban_expired(&store, ip, 0, 0), "no record means the ban is over");
    apply_command(&mut l, &mut store, &mut m, &mut xdp, &cmd(5, ip, EnforceAction::Block, 0), None, 0, 1_000).unwrap();
    assert!(!ban_expired(&store, ip, 0, 300_000_001_000));
    assert!(ban_expired(&store, ip, 0, 300_000_001_001));
    assert!(!ban_expired(&store, ip, 3, 300_000_001_001));
}

#[test]
fn reconciliation_outcome_sets_or_keeps_blocked_set() {
    let mut l = EnforcementLedger::new();
    let a = v4(10, 0, 0, 1);
    let b = v4(10, 0, 0, 2);
    assert!(accept_reconciliation(&mut l, vec![a, b], Ok(ReconciliationState::default())));
    assert!(l.is_blocked(a) && l.is_blocked(b));
    assert!(!accept_reconciliation(&mut l, vec![], Err(EnforcementError::Xdp("down".into()))));
    assert!(l.is_blocked(a) && l.is_blocked(b), "a refused reconciliation leaves the ledger as it was");
    assert!(accept_reconciliation(&mut l, vec![b], Ok(ReconciliationState::default())));
    assert!(!l.is_blocked(a) && l.is_blocked(b));
}

#[test]
fn replayed_ttl_blocks_are_rearmed_at_their_deadline() {
    let mut store = Store::new(16);
    store.set_ram_limit_mb_for_testing(64);
    let a = "203.0.113.7";
    let p = "203.0.113.8";
    // a blocked at wall time 10 s for 60 s; p blocked for good
    let es = vec![block(a, "high_rps", Some(60), 10_000_000_000), block(p, "manual_block", None, 11_000_000_000)];
    let live = replay_wal_blocks(&mut store, &es, 0, 40_000_000_000).unwrap();
    assert_eq!(live.len(), 2);
    let mut l = EnforcementLedger::new();
    // the ledger clock reads 1_000 ms when the wall clock reads 40 s
    l.rearm_replayed(&live, 1_000, 40_000_000_000);
    // 70 s wall deadline - 40 s elapsed = 30 s left: 1_000 + 30_000 ms
    assert_eq!(l.pending_expirations(), vec![(31_000, IpAddr::V4(0xcb00_7107))]);
    let due = l.take_due(31_000);
    assert_eq!(due, vec![IpAddr::V4(0xcb00_7107)]);
}

#[test]
fn replay_refused_when_a_record_does_not_fit() {
    let mut store = Store::new(16);
    store.set_ram_limit_mb_for_testing(1);
    store.set_ram_bytes_for_testing(1024 * 1024);
    let es = vec![block("203.0.113.9", "high_rps", None, 1)];
    let mut ledger = EnforcementLedger::new();
    match replay_wal_into_store(&mut store, &mut ledger, &es, 0, 2) {
        Err(e) => assert_eq!(e.to_text(), "capacity exceeded: 1 MB"),
        Ok(_) => panic!("the store is full"),
    }
    assert!(store.is_empty());
}

#[test]
fn ledger_sequence_keeps_one_expiration_per_blocked_ip() {
    let mut l = EnforcementLedger::new();
    let ips: Vec<IpAddr> = (0..6u8).map(|i| v4(10, 0, 0, i)).collect();
    let mut id = 0u128;
    for round in 0..30u64 {
        let ip = ips[(round * 7 % 6) as usize];
        id += 1;
        if round % 3 == 2 {
            l.commit_unblock(ip, id);
            assert!(!l.is_blocked(ip));
            assert!(l.pending_expirations().iter().all(|e| e.1 != ip));
        } else {
            l.commit_block(ip, id, round % 4, round * 10);
            assert!(l.is_blocked(ip));
        }
        let exps = l.pending_expirations();
        let blocked = l.blocked_ips();
        assert!(exps.len() <= blocked.len());
        for (i, e) in exps.iter().enumerate() {
            assert!(blocked.contains(&e.1));
            assert!(exps[i + 1..].iter().all(|f| f.1 != e.1));
        }
    }
}

#[test]
fn replay_into_store_rearms_ttl_schedule() {
    let mut store = Store::new(16);
    store.set_ram_limit_mb_for_testing(64);
    let mut ledger = EnforcementLedger::new();
    let es = vec![block("203.0.113.20", "high_rps", Some(60), 10_000_000_000)];
    // boot at wall time 40 s, ledger clock 2 s (2_000 ms): 30 s remain
    let n = replay_wal_into_store(&mut store, &mut ledger, &es, 2_000_000_000, 40_000_000_000).unwrap();
    assert_eq!(n, 1);
    assert_eq!(ledger.pending_expirations(), vec![(32_000, IpAddr::V4(0xcb00_7114))]);
}

#[test]
fn command_run_keeps_expirations_within_blocked() {
    let mut l = EnforcementLedger::new();
    let mut store = Store::new(16);
    store.set_ram_limit_mb_for_testing(512);
    let mut m = Metrics::new();
    let mut xdp = RecordingApplier { log: Vec::new(), refuse_unblock: false, last_ok: false };
    // (seed, is_block, ttl)
    let ops: [(u8, bool, u64); 10] = [
        (4, true, 30),
        (4, true, 0),
        (7, true, 99),
        (9, false, 0),
        (7, false, 0),
        (12, true, 1),
        (4, true, 5),
        (12, true, 60),
        (4, false, 0),
        (200, true, 0),
    ];
    let mut id: u128 = 100;
    for (seed, is_block, ttl) in ops {
        id += 1;
        let target = v4(10, 0, seed / 2, seed);
        if is_block {
            let r = apply_command(&mut l, &mut store, &mut m, &mut xdp, &cmd(id, target, EnforceAction::Block, ttl), None, 0, 1)
                .unwrap();
            assert!(r.committed);
            assert!(l.is_blocked(target));
        } else {
            let _ = apply_command(&mut l, &mut store, &mut m, &mut xdp, &cmd(id, target, EnforceAction::Unblock, 0), None, 0, 1)
                .unwrap();
            assert!(!l.is_blocked(target));
            assert!(l.pending_expirations().iter().all(|(_, i)| *i != target));
        }
        let pending = l.pending_expirations();
        assert!(pending.len() <= l.blocked_ips().len());
        for (_, i) in &pending {
            assert!(l.is_blocked(*i));
            assert_eq!(pending.iter().filter(|(_, j)| j == i).count(), 1);
        }
    }
    assert_eq!(l.blocked_ips().len(), 2);
    assert_eq!(l.pending_expirations(), vec![(60_000, v4(10, 0, 6, 12))]);
}
