//! Enforcement bookkeeping: the single writer's memory of processed
//! decisions, blocked addresses and pending TTL expirations, and the
//! decisions it takes on each command. The store, the write-ahead log and
//! the dataplane are driven by the caller from these decisions.

pub mod xdp;
pub mod coordinator;

use vstd::prelude::*;
use std::collections::VecDeque;
use crate::arith::{sat_add_u64_spec, sat_mul_u64, sat_mul_u64_spec, sat_sub_u64_spec};
use crate::metrics::Metrics;
use crate::storage::store::{blocked_value, entry_size, expired_at, BlockState, EntryModel, IpRecord, Store, Value, ValueModel};
use crate::storage::wal::WalEntry;
use crate::types::error::RsError;
use crate::types::command::{EnforceAction, EnforceCommand, EnforceResult, EnforcementError};
use crate::types::error::{error_text, reason_of_text, reason_to_block_reason, BlockReason};
use crate::types::net::{ip_of_text, ip_text, ip_to_string, parse_ip, IpAddr};
use vstd::wrapping::u64_specs::wrapping_add;
use vstd::wrapping::usize_specs::wrapping_add as wrapping_add_usize;

verus! {

broadcast use vstd::std_specs::vecdeque::group_vec_dequeue_axioms;

/// How many processed decision ids are remembered for deduplication.
pub const DECISION_MEMORY: usize = 65_536;

/// The decision ring after remembering `id`: unchanged when `id` is
/// already in it, else `id` appended and the oldest id dropped when the
/// ring is full.
pub open spec fn remember_spec(q: Seq<u128>, id: u128) -> Seq<u128> {
    if q.contains(id) {
        q
    } else if q.len() >= DECISION_MEMORY {
        q.drop_first().push(id)
    } else {
        q.push(id)
    }
}

/// The elements of `s` that satisfy `p`, in order.
pub open spec fn keep<A>(s: Seq<A>, p: spec_fn(A) -> bool) -> Seq<A>
    decreases s.len(),
{
    if s.len() == 0 {
        s
    } else {
        let r = keep(s.drop_last(), p);
        if p(s.last()) {
            r.push(s.last())
        } else {
            r
        }
    }
}

/// Entries not for `ip`.
pub open spec fn not_for(ip: IpAddr) -> spec_fn((u64, IpAddr)) -> bool {
    |e: (u64, IpAddr)| e.1 != ip
}

/// Entries due at `now`.
pub open spec fn due_at(now: u64) -> spec_fn((u64, IpAddr)) -> bool {
    |e: (u64, IpAddr)| e.0 <= now
}

/// Entries still pending at `now`.
pub open spec fn pending_at(now: u64) -> spec_fn((u64, IpAddr)) -> bool {
    |e: (u64, IpAddr)| e.0 > now
}

/// Addresses other than `ip`.
pub open spec fn other_than(ip: IpAddr) -> spec_fn(IpAddr) -> bool {
    |x: IpAddr| x != ip
}

/// The expirations with every entry for `ip` dropped.
pub open spec fn without_ip(es: Seq<(u64, IpAddr)>, ip: IpAddr) -> Seq<(u64, IpAddr)> {
    keep(es, not_for(ip))
}

/// The addresses whose expiration is due at `now`, in schedule order.
pub open spec fn due_ips(es: Seq<(u64, IpAddr)>, now: u64) -> Seq<IpAddr> {
    keep(es, due_at(now)).map_values(|e: (u64, IpAddr)| e.1)
}

/// The expirations still pending at `now`.
pub open spec fn pending(es: Seq<(u64, IpAddr)>, now: u64) -> Seq<(u64, IpAddr)> {
    keep(es, pending_at(now))
}

/// Whether some expiration entry is for `ip`.
pub open spec fn has_entry_for(es: Seq<(u64, IpAddr)>, ip: IpAddr) -> bool {
    exists|i: int| 0 <= i < es.len() && #[trigger] es[i].1 == ip
}

/// No two expiration entries are for the same address.
pub open spec fn one_per_ip(es: Seq<(u64, IpAddr)>) -> bool {
    forall|i: int, j: int| 0 <= i < j < es.len() ==> #[trigger] es[i].1 != #[trigger] es[j].1
}

/// `keep` holds exactly the elements of `s` that satisfy `p`.
pub proof fn lemma_keep_contains<A>(s: Seq<A>, p: spec_fn(A) -> bool, x: A)
    ensures
        keep(s, p).contains(x) <==> (s.contains(x) && p(x)),
    decreases s.len(),
{
    if s.len() > 0 {
        let t = s.drop_last();
        let l = s.last();
        lemma_keep_contains(t, p, x);
        let r = keep(t, p);
        assert(s =~= t.push(l));
        assert(s.contains(x) <==> (t.contains(x) || x == l)) by {
            if s.contains(x) {
                let i = choose|i: int| 0 <= i < s.len() && s[i] == x;
                if i < t.len() {
                    assert(t[i] == x);
                }
            }
            if t.contains(x) {
                let i = choose|i: int| 0 <= i < t.len() && t[i] == x;
                assert(s[i] == x);
            }
            if x == l {
                assert(s[s.len() - 1] == x);
            }
        }
        assert(r.push(l).contains(x) <==> (r.contains(x) || x == l)) by {
            let rp = r.push(l);
            if rp.contains(x) {
                let i = choose|i: int| 0 <= i < rp.len() && rp[i] == x;
                if i < r.len() {
                    assert(r[i] == x);
                }
            }
            if r.contains(x) {
                let i = choose|i: int| 0 <= i < r.len() && r[i] == x;
                assert(rp[i] == x);
            }
            if x == l {
                assert(rp[rp.len() - 1] == x);
            }
        }
    }
}

/// `keep` never repeats what `s` does not.
pub proof fn lemma_keep_no_duplicates<A>(s: Seq<A>, p: spec_fn(A) -> bool)
    requires
        s.no_duplicates(),
    ensures
        keep(s, p).no_duplicates(),
    decreases s.len(),
{
    if s.len() > 0 {
        lemma_keep_no_duplicates(s.drop_last(), p);
        lemma_keep_contains(s.drop_last(), p, s.last());
        assert(!s.drop_last().contains(s.last())) by {
            if s.drop_last().contains(s.last()) {
                let i = choose|i: int| 0 <= i < s.drop_last().len() && s.drop_last()[i] == s.last();
                assert(s[i] == s[s.len() - 1]);
            }
        }
    }
}

/// `keep` keeps at most one entry per address if `s` does.
pub proof fn lemma_keep_one_per_ip(s: Seq<(u64, IpAddr)>, p: spec_fn((u64, IpAddr)) -> bool)
    requires
        one_per_ip(s),
    ensures
        one_per_ip(keep(s, p)),
        forall|ip: IpAddr| #[trigger] has_entry_for(keep(s, p), ip) ==> has_entry_for(s, ip),
    decreases s.len(),
{
    if s.len() > 0 {
        let t = s.drop_last();
        assert(one_per_ip(t));
        lemma_keep_one_per_ip(t, p);
        let r = keep(t, p);
        if p(s.last()) {
            assert(!has_entry_for(r, s.last().1)) by {
                if has_entry_for(r, s.last().1) {
                    assert(has_entry_for(t, s.last().1));
                    let i = choose|i: int| 0 <= i < t.len() && #[trigger] t[i].1 == s.last().1;
                    assert(s[i].1 == s[s.len() - 1].1);
                }
            }
            let k = keep(s, p);
            assert forall|i: int, j: int| 0 <= i < j < k.len() implies #[trigger] k[i].1
                != #[trigger] k[j].1 by {
                if j == k.len() - 1 {
                    assert(k[i] == r[i]);
                    if k[i].1 == k[j].1 {
                        assert(has_entry_for(r, s.last().1));
                    }
                } else {
                    assert(k[i] == r[i]);
                    assert(k[j] == r[j]);
                }
            }
            assert forall|ip: IpAddr| has_entry_for(k, ip) implies has_entry_for(s, ip) by {
                let i = choose|i: int| 0 <= i < k.len() && #[trigger] k[i].1 == ip;
                if i == k.len() - 1 {
                    assert(s[s.len() - 1].1 == ip);
                } else {
                    assert(r[i].1 == ip);
                    assert(has_entry_for(r, ip));
                    let i2 = choose|i2: int| 0 <= i2 < t.len() && #[trigger] t[i2].1 == ip;
                    assert(s[i2].1 == ip);
                }
            }
        } else {
            assert forall|ip: IpAddr| has_entry_for(keep(s, p), ip) implies has_entry_for(s, ip) by {
                let i2 = choose|i2: int| 0 <= i2 < t.len() && #[trigger] t[i2].1 == ip;
                assert(s[i2].1 == ip);
            }
        }
    }
}

/// Dropping the entries of `ip` leaves none for it.
pub proof fn lemma_without_ip_has_none(s: Seq<(u64, IpAddr)>, ip: IpAddr)
    ensures
        !has_entry_for(without_ip(s, ip), ip),
    decreases s.len(),
{
    if s.len() > 0 {
        lemma_without_ip_has_none(s.drop_last(), ip);
        let r = without_ip(s.drop_last(), ip);
        let k = without_ip(s, ip);
        if has_entry_for(k, ip) {
            let i = choose|i: int| 0 <= i < k.len() && #[trigger] k[i].1 == ip;
            if (not_for(ip))(s.last()) && i == r.len() {
                assert(k[i] == s.last());
            } else {
                assert(k[i] == r[i]);
            }
        }
    }
}

/// The deadline of a TTL of `ttl_secs` seconds starting at `now_ms`
/// (saturating).
pub open spec fn deadline_ms(now_ms: u64, ttl_secs: u64) -> u64 {
    let span: int = if ttl_secs * 1000 > u64::MAX {
        u64::MAX as int
    } else {
        ttl_secs * 1000
    };
    if now_ms + span > u64::MAX {
        u64::MAX
    } else {
        (now_ms + span) as u64
    }
}

/// The expirations after scheduling a block of `ip`: any earlier entry of
/// `ip` is dropped, and a TTL of more than zero adds one at its deadline.
pub open spec fn schedule_spec(
    es: Seq<(u64, IpAddr)>,
    ip: IpAddr,
    ttl_secs: u64,
    now_ms: u64,
) -> Seq<(u64, IpAddr)> {
    if ttl_secs > 0 {
        without_ip(es, ip).push((deadline_ms(now_ms, ttl_secs), ip))
    } else {
        without_ip(es, ip)
    }
}

/// The blocked set after adding `ip`.
pub open spec fn insert_ip(s: Seq<IpAddr>, ip: IpAddr) -> Seq<IpAddr> {
    if s.contains(ip) {
        s
    } else {
        s.push(ip)
    }
}

/// The blocked set after removing `ip`.
pub open spec fn remove_ip(s: Seq<IpAddr>, ip: IpAddr) -> Seq<IpAddr> {
    keep(s, other_than(ip))
}

/// What the enforcement service remembers between commands.
pub struct EnforcementLedger {
    processed_order: VecDeque<u128>,
    blocked_ips: Vec<IpAddr>,
    expirations: Vec<(u64, IpAddr)>,
}

impl EnforcementLedger {
    /// Remembered decision ids, oldest first.
    pub closed spec fn processed(&self) -> Seq<u128> {
        self.processed_order@
    }

    /// Addresses currently blocked.
    pub closed spec fn blocked(&self) -> Seq<IpAddr> {
        self.blocked_ips@
    }

    /// Pending TTL expirations `(deadline_ms, ip)`, in schedule order.
    pub closed spec fn expirations(&self) -> Seq<(u64, IpAddr)> {
        self.expirations@
    }

    /// The ledger's invariant: no decision remembered twice and at most
    /// `DECISION_MEMORY` of them; no address blocked twice; at most one
    /// pending expiration per address.
    pub open spec fn wf(&self) -> bool {
        &&& self.processed().no_duplicates()
        &&& self.processed().len() <= DECISION_MEMORY
        &&& self.blocked().no_duplicates()
        &&& one_per_ip(self.expirations())
    }

    /// An empty ledger.
    pub fn new() -> (r: Self)
        ensures
            r.wf(),
            r.processed() == Seq::<u128>::empty(),
            r.blocked() == Seq::<IpAddr>::empty(),
            r.expirations() == Seq::<(u64, IpAddr)>::empty(),
    {
        let r = EnforcementLedger {
            processed_order: VecDeque::new(),
            blocked_ips: Vec::new(),
            expirations: Vec::new(),
        };
        r
    }
}

impl EnforcementLedger {
    /// Whether decision `id` was already processed.
    pub fn is_processed(&self, id: u128) -> (r: bool)
        ensures
            r == self.processed().contains(id),
    {
        let n: usize = self.processed_order.len();
        let mut i: usize = 0;
        while i < n
            invariant
                n == self.processed_order@.len(),
                i <= n,
                forall|j: int| 0 <= j < i ==> self.processed_order@[j] != id,
            decreases n - i,
        {
            if self.processed_order[i] == id {
                return true;
            }
            i = i + 1;
        }
        false
    }

    /// Whether `ip` is blocked.
    pub fn is_blocked(&self, ip: IpAddr) -> (r: bool)
        ensures
            r == self.blocked().contains(ip),
    {
        let n: usize = self.blocked_ips.len();
        let mut i: usize = 0;
        while i < n
            invariant
                n == self.blocked_ips@.len(),
                i <= n,
                forall|j: int| 0 <= j < i ==> self.blocked_ips@[j] != ip,
            decreases n - i,
        {
            if self.blocked_ips[i] == ip {
                return true;
            }
            i = i + 1;
        }
        false
    }

    /// Remember a processed decision, forgetting the oldest one beyond
    /// `DECISION_MEMORY`.
    pub fn remember_decision(&mut self, id: u128)
        requires
            old(self).wf(),
        ensures
            final(self).wf(),
            final(self).processed() == remember_spec(old(self).processed(), id),
            final(self).blocked() == old(self).blocked(),
            final(self).expirations() == old(self).expirations(),
    {
        if !self.is_processed(id) {
            let ghost q = self.processed_order@;
            self.processed_order.push_back(id);
            if self.processed_order.len() > DECISION_MEMORY {
                let _ = self.processed_order.pop_front();
                assert(self.processed_order@ =~= q.drop_first().push(id));
            }
            proof {
                assert(self.processed_order@.no_duplicates()) by {
                    assert forall|a: int, b: int|
                        0 <= a < b < self.processed_order@.len() implies self.processed_order@[a]
                        != self.processed_order@[b] by {
                        if b == self.processed_order@.len() - 1 {
                            if q.len() >= DECISION_MEMORY {
                                assert(self.processed_order@[a] == q[a + 1]);
                            } else {
                                assert(self.processed_order@[a] == q[a]);
                            }
                        } else if q.len() >= DECISION_MEMORY {
                            assert(self.processed_order@[a] == q[a + 1]);
                            assert(self.processed_order@[b] == q[b + 1]);
                        }
                    }
                }
            }
        }
    }
}

/// The entries of `es` that are not for `ip`.
fn entries_without(es: &Vec<(u64, IpAddr)>, ip: IpAddr) -> (r: Vec<(u64, IpAddr)>)
    ensures
        r@ == without_ip(es@, ip),
{
    let n: usize = es.len();
    let mut out: Vec<(u64, IpAddr)> = Vec::new();
    let mut i: usize = 0;
    while i < n
        invariant
            n == es@.len(),
            i <= n,
            out@ == keep(es@.take(i as int), not_for(ip)),
        decreases n - i,
    {
        let e = es[i];
        assert(es@.take(i + 1).drop_last() =~= es@.take(i as int));
        if e.1 != ip {
            out.push(e);
        }
        i = i + 1;
    }
    assert(es@.take(n as int) =~= es@);
    out
}

/// The addresses other than `ip`.
fn ips_without(s: &Vec<IpAddr>, ip: IpAddr) -> (r: Vec<IpAddr>)
    ensures
        r@ == remove_ip(s@, ip),
{
    let n: usize = s.len();
    let mut out: Vec<IpAddr> = Vec::new();
    let mut i: usize = 0;
    while i < n
        invariant
            n == s@.len(),
            i <= n,
            out@ == keep(s@.take(i as int), other_than(ip)),
        decreases n - i,
    {
        let x = s[i];
        assert(s@.take(i + 1).drop_last() =~= s@.take(i as int));
        if x != ip {
            out.push(x);
        }
        i = i + 1;
    }
    assert(s@.take(n as int) =~= s@);
    out
}

/// The saturating deadline of a TTL.
fn deadline(now_ms: u64, ttl_secs: u64) -> (r: u64)
    ensures
        r == deadline_ms(now_ms, ttl_secs),
{
    now_ms.saturating_add(crate::arith::sat_mul_u64(ttl_secs, 1000))
}

/// What the service does with a command before touching any state.
pub enum EnforceCheck {
    /// The decision was already processed: report success, change nothing.
    Duplicate(EnforceResult),
    /// The command is refused.
    Invalid(EnforcementError),
    /// Go on: write the intent to the WAL, then mutate.
    Proceed,
}

/// The result reported for a command that was carried out.
pub open spec fn applied_result(id: u128, wal_lsn: Option<u64>, xdp_applied: bool) -> EnforceResult {
    EnforceResult {
        decision_id: id,
        committed: true,
        applied: true,
        wal_lsn,
        xdp_applied,
        error: None,
    }
}

/// The result reported for a command that was carried out.
pub fn enforce_result(id: u128, wal_lsn: Option<u64>, xdp_applied: bool) -> (r: EnforceResult)
    ensures
        r == applied_result(id, wal_lsn, xdp_applied),
{
    EnforceResult { decision_id: id, committed: true, applied: true, wal_lsn, xdp_applied, error: None }
}

impl EnforcementLedger {
    /// Classify a command: a remembered decision is a duplicate (reported
    /// as applied, with no WAL position); an unspecified address is refused;
    /// anything else proceeds.
    pub fn check(&self, cmd: &EnforceCommand) -> (r: EnforceCheck)
        ensures
            self.processed().contains(cmd.decision_id) <==> r is Duplicate,
            r is Duplicate ==> r->Duplicate_0 == applied_result(cmd.decision_id, None, true),
            !self.processed().contains(cmd.decision_id) && (cmd.ip == IpAddr::V4(0) || cmd.ip
                == IpAddr::V6(0)) <==> r is Invalid,
            r is Invalid ==> (r->Invalid_0 matches EnforcementError::InvalidCommand(m) && m@
                == "unspecified IP is not blockable"@),
    {
        if self.is_processed(cmd.decision_id) {
            return EnforceCheck::Duplicate(enforce_result(cmd.decision_id, None, true));
        }
        if cmd.ip.is_unspecified() {
            return EnforceCheck::Invalid(
                EnforcementError::InvalidCommand("unspecified IP is not blockable".to_owned()),
            );
        }
        EnforceCheck::Proceed
    }

    /// Record a committed block of `ip` at `now_ms`: the address is
    /// blocked, its expiration replaced (a TTL of zero leaves none), and the
    /// decision remembered.
    pub fn commit_block(&mut self, ip: IpAddr, decision_id: u128, ttl_secs: u64, now_ms: u64)
        requires
            old(self).wf(),
        ensures
            final(self).wf(),
            final(self).blocked() == insert_ip(old(self).blocked(), ip),
            final(self).expirations() == schedule_spec(
                old(self).expirations(),
                ip,
                ttl_secs,
                now_ms,
            ),
            final(self).processed() == remember_spec(old(self).processed(), decision_id),
    {
        if !self.is_blocked(ip) {
            self.blocked_ips.push(ip);
            proof {
                assert(self.blocked_ips@.no_duplicates()) by {
                    let b = self.blocked_ips@;
                    assert forall|i: int, j: int| 0 <= i < j < b.len() implies b[i] != b[j] by {
                        if j == b.len() - 1 {
                            assert(old(self).blocked_ips@[i] == b[i]);
                            assert(old(self).blocked_ips@.contains(b[i]));
                        } else {
                            assert(old(self).blocked_ips@[i] == b[i]);
                            assert(old(self).blocked_ips@[j] == b[j]);
                        }
                    }
                }
            }
        }
        self.schedule_expiration(ip, ttl_secs, now_ms);
        self.remember_decision(decision_id);
    }

    /// Schedule the expiration of a block of `ip` with `ttl_secs` from
    /// `now_ms`: any earlier entry of `ip` is dropped, and a TTL of more
    /// than zero adds one at its deadline.
    pub fn schedule_expiration(&mut self, ip: IpAddr, ttl_secs: u64, now_ms: u64)
        requires
            old(self).wf(),
        ensures
            final(self).wf(),
            final(self).blocked() == old(self).blocked(),
            final(self).expirations() == schedule_spec(old(self).expirations(), ip, ttl_secs, now_ms),
            final(self).processed() == old(self).processed(),
    {
        if ttl_secs > 0 {
            self.reschedule(ip, Some(deadline(now_ms, ttl_secs)));
        } else {
            self.reschedule(ip, None);
        }
    }

    /// Drop any pending expiration of `ip`, then schedule one at `at` if given.
    fn reschedule(&mut self, ip: IpAddr, at: Option<u64>)
        requires
            old(self).wf(),
        ensures
            final(self).wf(),
            final(self).blocked() == old(self).blocked(),
            final(self).expirations() == (match at {
                Some(d) => without_ip(old(self).expirations(), ip).push((d, ip)),
                None => without_ip(old(self).expirations(), ip),
            }),
            final(self).processed() == old(self).processed(),
    {
        let mut es = entries_without(&self.expirations, ip);
        proof {
            lemma_keep_one_per_ip(self.expirations@, not_for(ip));
            lemma_without_ip_has_none(self.expirations@, ip);
        }
        if let Some(d) = at {
            let ghost before = es@;
            es.push((d, ip));
            proof {
                assert forall|i: int, j: int| 0 <= i < j < es@.len() implies #[trigger] es@[i].1
                    != #[trigger] es@[j].1 by {
                    if j == es@.len() - 1 {
                        assert(es@[i] == before[i]);
                        if es@[i].1 == ip {
                            assert(has_entry_for(before, ip));
                        }
                    } else {
                        assert(es@[i] == before[i]);
                        assert(es@[j] == before[j]);
                    }
                }
            }
        }
        self.expirations = es;
    }

    /// Record a committed unblock of `ip`: the address is no longer
    /// blocked, its pending expiration is dropped, and the decision
    /// remembered.
    pub fn commit_unblock(&mut self, ip: IpAddr, decision_id: u128)
        requires
            old(self).wf(),
        ensures
            final(self).wf(),
            final(self).blocked() == remove_ip(old(self).blocked(), ip),
            final(self).expirations() == without_ip(old(self).expirations(), ip),
            final(self).processed() == remember_spec(old(self).processed(), decision_id),
    {
        let b = ips_without(&self.blocked_ips, ip);
        proof {
            lemma_keep_no_duplicates(self.blocked_ips@, other_than(ip));
            lemma_keep_one_per_ip(self.expirations@, not_for(ip));
        }
        self.blocked_ips = b;
        self.expirations = entries_without(&self.expirations, ip);
        self.remember_decision(decision_id);
    }

    /// Take the expirations due at `now_ms`: returns their addresses in
    /// schedule order and keeps the rest.
    pub fn take_due(&mut self, now_ms: u64) -> (due: Vec<IpAddr>)
        requires
            old(self).wf(),
        ensures
            final(self).wf(),
            due@ == due_ips(old(self).expirations(), now_ms),
            final(self).expirations() == pending(old(self).expirations(), now_ms),
            final(self).blocked() == old(self).blocked(),
            final(self).processed() == old(self).processed(),
    {
        let n: usize = self.expirations.len();
        let mut due: Vec<IpAddr> = Vec::new();
        let mut rest: Vec<(u64, IpAddr)> = Vec::new();
        let mut i: usize = 0;
        while i < n
            invariant
                n == self.expirations@.len(),
                i <= n,
                rest@ == keep(self.expirations@.take(i as int), pending_at(now_ms)),
                due@ == keep(self.expirations@.take(i as int), due_at(now_ms)).map_values(
                    |e: (u64, IpAddr)| e.1,
                ),
            decreases n - i,
        {
            let e = self.expirations[i];
            let ghost kd = keep(self.expirations@.take(i as int), due_at(now_ms));
            assert(self.expirations@.take(i + 1).drop_last() =~= self.expirations@.take(i as int));
            if e.0 <= now_ms {
                due.push(e.1);
                assert(kd.push(e).map_values(|e: (u64, IpAddr)| e.1) =~= kd.map_values(
                    |e: (u64, IpAddr)| e.1,
                ).push(e.1));
            } else {
                rest.push(e);
            }
            i = i + 1;
        }
        assert(self.expirations@.take(n as int) =~= self.expirations@);
        proof {
            lemma_keep_one_per_ip(self.expirations@, pending_at(now_ms));
        }
        self.expirations = rest;
        due
    }

    /// The blocked addresses.
    pub fn blocked_ips(&self) -> (r: Vec<IpAddr>)
        ensures
            r@ == self.blocked(),
    {
        self.blocked_ips.clone()
    }

    /// The pending expirations `(deadline_ms, ip)`, in schedule order.
    pub fn pending_expirations(&self) -> (r: Vec<(u64, IpAddr)>)
        ensures
            r@ == self.expirations(),
    {
        let n: usize = self.expirations.len();
        let mut out: Vec<(u64, IpAddr)> = Vec::new();
        let mut i: usize = 0;
        while i < n
            invariant
                n == self.expirations@.len(),
                i <= n,
                out@ == self.expirations@.take(i as int),
            decreases n - i,
        {
            out.push(self.expirations[i]);
            assert(self.expirations@.take(i + 1) =~= self.expirations@.take(i as int).push(
                self.expirations@[i as int],
            ));
            i = i + 1;
        }
        assert(self.expirations@.take(n as int) =~= self.expirations@);
        out
    }

    /// Replace the blocked set after a dataplane reconciliation.
    pub fn set_blocked(&mut self, ips: Vec<IpAddr>)
        requires
            old(self).wf(),
            ips@.no_duplicates(),
        ensures
            final(self).wf(),
            final(self).blocked() == ips@,
            final(self).expirations() == old(self).expirations(),
            final(self).processed() == old(self).processed(),
    {
        self.blocked_ips = ips;
    }
}

/// Whether writing record `rec` without expiry under `ip` took the store
/// from `s0` to `s1`, succeeding (`ok`) exactly when the store does not
/// refuse the growth; a refused write changes nothing.
pub open spec fn stored(s0: Store, s1: Store, ip: IpAddr, rec: IpRecord, limit: usize, ok: bool) -> bool {
    if s0.insert_refused(ip, ValueModel::IpRecord(rec), limit) {
        !ok && s1.entries() == s0.entries()
    } else {
        ok && s1.entries() == s0.entries().insert(
            ip,
            EntryModel { value: ValueModel::IpRecord(rec), expires_at_ns: None },
        )
    }
}

/// The block a command restores for its address, since `wall_ns`.
pub open spec fn command_block(cmd: EnforceCommand, wall_ns: u64) -> RestoredBlock {
    RestoredBlock { ip: cmd.ip, reason: reason_of_text(cmd.reason@), since_ns: wall_ns, ttl_secs: None }
}

/// Whether the store step of `cmd` took the store from `s0` to `s1`
/// (succeeding exactly when `ok`): a block writes the address's record (the
/// live one read at `mono_ns`, or a fresh one) marked blocked since
/// `wall_ns`; an unblock marks a live record clean and leaves an absent one
/// alone.
pub open spec fn store_step(s0: Store, s1: Store, cmd: EnforceCommand, limit: usize, mono_ns: u64, wall_ns: u64, ok: bool) -> bool {
    match cmd.action {
        EnforceAction::Block => exists|rec: IpRecord|
            replayed_record(s0.entries().get(cmd.ip), command_block(cmd, wall_ns), mono_ns, rec) && stored(
                s0,
                s1,
                cmd.ip,
                rec,
                limit,
                ok,
            ),
        EnforceAction::Unblock => match s0.entries().get(cmd.ip) {
            Some(e) if !expired_at(e, mono_ns) && e.value is IpRecord => stored(
                s0,
                s1,
                cmd.ip,
                IpRecord { block_state: BlockState::Clean, ..e.value->IpRecord_0 },
                limit,
                ok,
            ),
            _ => ok && s1.entries() == s0.entries(),
        },
    }
}

fn store_command(store: &mut Store, cmd: &EnforceCommand, limit: usize, mono_ns: u64, wall_ns: u64) -> (r: Result<
    (),
    RsError,
>)
    ensures
        store_step(*old(store), *final(store), *cmd, limit, mono_ns, wall_ns, (r is Ok)),
        r is Err ==> r->Err_0 == (RsError::CapacityExceeded { limit_mb: (limit / 1_048_576) as usize }),
        final(store).subnets() == old(store).subnets(),
        final(store).members() == old(store).members(),
{
    match cmd.action {
        EnforceAction::Block => {
            let b = RestoredBlock {
                ip: cmd.ip,
                reason: reason_to_block_reason(cmd.reason.as_str()),
                since_ns: wall_ns,
                ttl_secs: None,
            };
            let rec = replayed_record_for(store, &b, mono_ns);
            let r = store.insert(cmd.ip, Value::IpRecord(rec), None, limit, mono_ns);
            assert(replayed_record(old(store).entries().get(cmd.ip), command_block(*cmd, wall_ns), mono_ns, rec));
            assert(stored(*old(store), *store, cmd.ip, rec, limit, r is Ok));
            r
        },
        EnforceAction::Unblock => match store.get(cmd.ip, mono_ns) {
            Some(Value::IpRecord(mut rec)) => {
                let ghost before = rec;
                rec.block_state = BlockState::Clean;
                assert(rec == (IpRecord { block_state: BlockState::Clean, ..before }));
                let r = store.insert(cmd.ip, Value::IpRecord(rec), None, limit, mono_ns);
                assert(stored(*old(store), *store, cmd.ip, rec, limit, r is Ok));
                r
            },
            _ => Ok(()),
        },
    }
}

/// The byte limit of a store configured with `mb` megabytes (saturating).
pub open spec fn store_limit(mb: usize) -> usize {
    if mb * 1_048_576 > usize::MAX {
        usize::MAX
    } else {
        (mb * 1_048_576) as usize
    }
}

/// Carry out a command that `check` let proceed, once its intent is in the
/// WAL at `wal_lsn` (`None` without a WAL), at monotonic time `mono_ns`
/// and wall time `wall_ns`: write the address's record to the store under
/// its configured limit (a refusal is reported as a storage error and
/// nothing else changes), then commit the command to the ledger, count a
/// block, push it to the dataplane, and report it applied, with
/// `xdp_applied` saying whether the dataplane accepted it.
pub fn apply_command<X: XdpApplier>(
    ledger: &mut EnforcementLedger,
    store: &mut Store,
    metrics: &mut Metrics,
    xdp: &mut X,
    cmd: &EnforceCommand,
    wal_lsn: Option<u64>,
    mono_ns: u64,
    wall_ns: u64,
) -> (r: Result<EnforceResult, EnforcementError>)
    requires
        old(ledger).wf(),
    ensures
        final(ledger).wf(),
        store_step(
            *old(store),
            *final(store),
            *cmd,
            store_limit(old(store).traffic.ram_limit_mb),
            mono_ns,
            wall_ns,
            (r is Ok),
        ),
        final(store).subnets() == old(store).subnets(),
        final(store).members() == old(store).members(),
        r is Err ==> {
            &&& r->Err_0 matches EnforcementError::Storage(m) && m@ == error_text(
                (RsError::CapacityExceeded {
                    limit_mb: (store_limit(old(store).traffic.ram_limit_mb) / 1_048_576) as usize,
                }),
            )
            &&& *final(ledger) == *old(ledger)
            &&& *final(metrics) == *old(metrics)
        },
        r is Ok ==> {
            let now_ms = (mono_ns / 1_000_000) as u64;
            let res = r->Ok_0;
            &&& final(ledger).processed() == remember_spec(old(ledger).processed(), cmd.decision_id)
            &&& cmd.action is Block ==> final(ledger).blocked() == insert_ip(old(ledger).blocked(), cmd.ip)
                && final(ledger).expirations() == schedule_spec(
                old(ledger).expirations(),
                cmd.ip,
                cmd.ttl_seconds,
                now_ms,
            ) && final(metrics).blocks_total == wrapping_add(old(metrics).blocks_total, 1)
            &&& cmd.action is Unblock ==> final(ledger).blocked() == remove_ip(old(ledger).blocked(), cmd.ip)
                && final(ledger).expirations() == without_ip(old(ledger).expirations(), cmd.ip)
                && final(metrics).blocks_total == old(metrics).blocks_total
            &&& final(metrics).same_but_counters(*old(metrics))
            &&& final(metrics).requests_total == old(metrics).requests_total
            &&& res == applied_result(cmd.decision_id, wal_lsn, final(xdp).accepted_last())
        },
        r is Ok ==> ledger_step(*old(ledger), *final(ledger), *cmd, (mono_ns / 1_000_000) as u64),
{
    let limit: usize = match store.traffic.ram_limit_mb.checked_mul(1_048_576) {
        Some(v) => v,
        None => usize::MAX,
    };
    match store_command(store, cmd, limit, mono_ns, wall_ns) {
        Ok(()) => {},
        Err(e) => {
            return Err(EnforcementError::Storage(e.to_text()));
        },
    }
    let now_ms: u64 = mono_ns / 1_000_000;
    match cmd.action {
        EnforceAction::Block => {
            ledger.commit_block(cmd.ip, cmd.decision_id, cmd.ttl_seconds, now_ms);
            metrics.inc_blocks();
            let xdp_applied = xdp.apply_block(cmd.ip, cmd.decision_id).is_ok();
            Ok(enforce_result(cmd.decision_id, wal_lsn, xdp_applied))
        },
        EnforceAction::Unblock => {
            ledger.commit_unblock(cmd.ip, cmd.decision_id);
            let xdp_applied = xdp.apply_unblock(cmd.ip, cmd.decision_id).is_ok();
            Ok(enforce_result(cmd.decision_id, wal_lsn, xdp_applied))
        },
    }
}

/// `uuid::Uuid::new_v4`, as its 128-bit value: a fresh random decision
/// id. Nothing is stated of the value.
#[verifier::external_body]
pub(crate) fn new_decision_id() -> (r: u128) {
    uuid::Uuid::new_v4().as_u128()
}

/// The command that lifts an expired block of `ip`.
pub fn ttl_unblock_command(ip: IpAddr, decision_id: u128, timestamp_utc: i64) -> (c: EnforceCommand)
    ensures
        c.decision_id == decision_id,
        c.policy_version == 0,
        c.source@ == "ttl"@,
        c.actor@ == "system"@,
        c.timestamp_utc == timestamp_utc,
        c.ttl_seconds == 0,
        c.reason@ == "ttl_expired"@,
        c.ip == ip,
        c.action == EnforceAction::Unblock,
{
    EnforceCommand {
        decision_id,
        policy_version: 0,
        source: "ttl".to_string(),
        actor: "system".to_string(),
        timestamp_utc,
        ttl_seconds: 0,
        reason: "ttl_expired".to_string(),
        ip,
        action: EnforceAction::Unblock,
    }
}

impl EnforcementLedger {
    /// Take the expirations due at `now_ms` and return, in schedule order,
    /// the unblock command for each (a fresh decision id each, stamped with
    /// the wall-clock seconds of `wall_ns`); the caller enforces them.
    pub fn due_unblock_commands(&mut self, now_ms: u64, wall_ns: u64) -> (r: Vec<EnforceCommand>)
        requires
            old(self).wf(),
        ensures
            final(self).wf(),
            final(self).expirations() == pending(old(self).expirations(), now_ms),
            final(self).blocked() == old(self).blocked(),
            final(self).processed() == old(self).processed(),
            r@.len() == due_ips(old(self).expirations(), now_ms).len(),
            forall|i: int|
                0 <= i < r@.len() ==> {
                    let c = #[trigger] r@[i];
                    &&& c.ip == due_ips(old(self).expirations(), now_ms)[i]
                    &&& c.action == EnforceAction::Unblock
                    &&& c.source@ == "ttl"@
                    &&& c.actor@ == "system"@
                    &&& c.reason@ == "ttl_expired"@
                    &&& c.ttl_seconds == 0
                    &&& c.policy_version == 0
                    &&& c.timestamp_utc == wall_ns / 1_000_000_000
                },
    {
        let due = self.take_due(now_ms);
        let secs: i64 = (wall_ns / 1_000_000_000) as i64;
        let mut out: Vec<EnforceCommand> = Vec::new();
        let n = due.len();
        let mut i: usize = 0;
        while i < n
            invariant
                n == due@.len(),
                i <= n,
                out@.len() == i,
                secs == wall_ns / 1_000_000_000,
                forall|j: int|
                    0 <= j < i ==> {
                        let c = #[trigger] out@[j];
                        &&& c.ip == due@[j]
                        &&& c.action == EnforceAction::Unblock
                        &&& c.source@ == "ttl"@
                        &&& c.actor@ == "system"@
                        &&& c.reason@ == "ttl_expired"@
                        &&& c.ttl_seconds == 0
                        &&& c.policy_version == 0
                        &&& c.timestamp_utc == secs
                    },
            decreases n - i,
        {
            out.push(ttl_unblock_command(due[i], new_decision_id(), secs));
            i = i + 1;
        }
        out
    }
}

/// Take the dataplane's answer to a reconciliation with `expected`: when it
/// accepted, the ledger's blocked set becomes exactly `expected`; when it
/// refused, the ledger is left as it was. Returns whether it accepted.
pub fn accept_reconciliation(
    ledger: &mut EnforcementLedger,
    expected: Vec<IpAddr>,
    outcome: Result<ReconciliationState, EnforcementError>,
) -> (r: bool)
    requires
        old(ledger).wf(),
        expected@.no_duplicates(),
    ensures
        r == (outcome is Ok),
        final(ledger).wf(),
        r ==> final(ledger).blocked() == expected@,
        !r ==> final(ledger).blocked() == old(ledger).blocked(),
        final(ledger).processed() == old(ledger).processed(),
        final(ledger).expirations() == old(ledger).expirations(),
{
    match outcome {
        Ok(_) => {
            ledger.set_blocked(expected);
            true
        },
        Err(_) => false,
    }
}

/// On start, reconcile the dataplane with the store's blocked addresses
/// (each once, the list that `Store::get_all_blocked_ips` gives); when it
/// accepts, the ledger's blocked set becomes exactly those. Returns whether
/// it accepted.
pub fn reconcile_on_start<X: XdpApplier>(ledger: &mut EnforcementLedger, store: &Store, xdp: &mut X) -> (r: bool)
    requires
        old(ledger).wf(),
    ensures
        final(ledger).wf(),
        r ==> forall|k: IpAddr|
            final(ledger).blocked().contains(k) <==> (store.entries().contains_key(k) && blocked_value(
                store.entries()[k].value,
            )),
        !r ==> final(ledger).blocked() == old(ledger).blocked(),
        r == final(xdp).accepted_last(),
        final(ledger).processed() == old(ledger).processed(),
        final(ledger).expirations() == old(ledger).expirations(),
{
    let expected = store.get_all_blocked_ips();
    let outcome = xdp.reconcile(expected.as_slice());
    proof {
        assert(expected@.no_duplicates());
    }
    accept_reconciliation(ledger, expected, outcome)
}

/// Whether every pending expiration is for a blocked address.
pub open spec fn scheduled_are_blocked(es: Seq<(u64, IpAddr)>, blocked: Seq<IpAddr>) -> bool {
    forall|e: (u64, IpAddr)| #[trigger] es.contains(e) ==> blocked.contains(e.1)
}

/// The addresses of the pending expirations.
pub open spec fn scheduled_ips(es: Seq<(u64, IpAddr)>) -> Seq<IpAddr> {
    es.map_values(|e: (u64, IpAddr)| e.1)
}

/// Sequence law, block step: a block keeps every pending expiration on a
/// blocked address.
pub proof fn lemma_block_keeps_schedule_blocked(
    es: Seq<(u64, IpAddr)>,
    blocked: Seq<IpAddr>,
    ip: IpAddr,
    ttl_secs: u64,
    now_ms: u64,
)
    requires
        scheduled_are_blocked(es, blocked),
    ensures
        scheduled_are_blocked(schedule_spec(es, ip, ttl_secs, now_ms), insert_ip(blocked, ip)),
{
    let b2 = insert_ip(blocked, ip);
    assert(b2.contains(ip)) by {
        if !blocked.contains(ip) {
            assert(b2[blocked.len() as int] == ip);
        }
    }
    assert forall|x: IpAddr| blocked.contains(x) implies #[trigger] b2.contains(x) by {
        if !blocked.contains(ip) {
            let w = choose|w: int| 0 <= w < blocked.len() && blocked[w] == x;
            assert(b2[w] == x);
        }
    }
    let w = without_ip(es, ip);
    assert forall|e: (u64, IpAddr)| #[trigger] schedule_spec(es, ip, ttl_secs, now_ms).contains(e) implies b2.contains(
        e.1,
    ) by {
        lemma_keep_contains(es, not_for(ip), e);
        if ttl_secs > 0 {
            let s2 = w.push((deadline_ms(now_ms, ttl_secs), ip));
            let k = choose|k: int| 0 <= k < s2.len() && s2[k] == e;
            if k < w.len() {
                assert(w.contains(e));
                assert(blocked.contains(e.1));
            }
        } else {
            assert(blocked.contains(e.1));
        }
    }
}

/// Sequence law, unblock step: an unblock keeps every pending expiration
/// on a blocked address, and leaves none for the unblocked one.
pub proof fn lemma_unblock_keeps_schedule_blocked(es: Seq<(u64, IpAddr)>, blocked: Seq<IpAddr>, ip: IpAddr)
    requires
        scheduled_are_blocked(es, blocked),
    ensures
        scheduled_are_blocked(without_ip(es, ip), remove_ip(blocked, ip)),
        !has_entry_for(without_ip(es, ip), ip),
{
    assert forall|e: (u64, IpAddr)| #[trigger] without_ip(es, ip).contains(e) implies remove_ip(blocked, ip).contains(
        e.1,
    ) by {
        lemma_keep_contains(es, not_for(ip), e);
        lemma_keep_contains(blocked, other_than(ip), e.1);
    }
    lemma_without_ip_has_none(es, ip);
}

/// Sequence law, expiry step: taking the due expirations keeps every
/// remaining one on a blocked address.
pub proof fn lemma_due_keeps_schedule_blocked(es: Seq<(u64, IpAddr)>, blocked: Seq<IpAddr>, now_ms: u64)
    requires
        scheduled_are_blocked(es, blocked),
    ensures
        scheduled_are_blocked(pending(es, now_ms), blocked),
{
    assert forall|e: (u64, IpAddr)| #[trigger] pending(es, now_ms).contains(e) implies blocked.contains(e.1) by {
        lemma_keep_contains(es, pending_at(now_ms), e);
    }
}

/// Sequence law, bound: with at most one expiration per address, no address
/// blocked twice and every expiration on a blocked address, there are no
/// more pending expirations than blocked addresses.
pub proof fn lemma_schedule_within_blocked(es: Seq<(u64, IpAddr)>, blocked: Seq<IpAddr>)
    requires
        one_per_ip(es),
        blocked.no_duplicates(),
        scheduled_are_blocked(es, blocked),
    ensures
        es.len() <= blocked.len(),
{
    let ips = scheduled_ips(es);
    assert(ips.no_duplicates()) by {
        assert forall|i: int, j: int| 0 <= i < ips.len() && 0 <= j < ips.len() && i != j implies ips[i] != ips[j] by {
            if i < j {
                assert(es[i].1 != es[j].1);
            } else {
                assert(es[j].1 != es[i].1);
            }
        }
    }
    ips.unique_seq_to_set();
    blocked.unique_seq_to_set();
    assert(ips.to_set().subset_of(blocked.to_set())) by {
        assert forall|x: IpAddr| ips.to_set().contains(x) implies blocked.to_set().contains(x) by {
            let k = choose|k: int| 0 <= k < ips.len() && ips[k] == x;
            assert(es.contains(es[k]));
        }
    }
    vstd::seq_lib::seq_to_set_is_finite(blocked);
    vstd::set_lib::lemma_len_subset(ips.to_set(), blocked.to_set());
}

/// What a carried-out command `cmd` at `now_ms` makes of the ledger's
/// blocked set and pending expirations.
pub open spec fn ledger_step(
    before: EnforcementLedger,
    after: EnforcementLedger,
    cmd: EnforceCommand,
    now_ms: u64,
) -> bool {
    &&& after.wf()
    &&& match cmd.action {
        EnforceAction::Block => after.blocked() == insert_ip(before.blocked(), cmd.ip)
            && after.expirations() == schedule_spec(
            before.expirations(),
            cmd.ip,
            cmd.ttl_seconds,
            now_ms,
        ),
        EnforceAction::Unblock => after.blocked() == remove_ip(before.blocked(), cmd.ip)
            && after.expirations() == without_ip(before.expirations(), cmd.ip),
    }
}

/// Sequence law: from an empty ledger, through any run of carried-out block
/// and unblock commands, each ledger keeps its invariant (at most one pending
/// expiration per address), every pending expiration is for a blocked
/// address and there are no more of them than blocked addresses; after a
/// block its address is blocked, and after an unblock its address is neither
/// blocked nor scheduled to expire.
pub proof fn lemma_command_run_keeps_schedule(
    ls: Seq<EnforcementLedger>,
    cmds: Seq<EnforceCommand>,
    nows: Seq<u64>,
)
    requires
        ls.len() == cmds.len() + 1,
        nows.len() == cmds.len(),
        ls[0].wf(),
        ls[0].blocked().len() == 0,
        ls[0].expirations().len() == 0,
        forall|i: int| 0 <= i < cmds.len() ==> ledger_step(ls[i], ls[i + 1], #[trigger] cmds[i], nows[i]),
    ensures
        forall|i: int|
            0 <= i < ls.len() ==> {
                &&& (#[trigger] ls[i]).wf()
                &&& scheduled_are_blocked(ls[i].expirations(), ls[i].blocked())
                &&& ls[i].expirations().len() <= ls[i].blocked().len()
            },
        forall|i: int|
            0 <= i < cmds.len() && (#[trigger] cmds[i]).action is Block ==> ls[i + 1].blocked().contains(
                cmds[i].ip,
            ),
        forall|i: int|
            0 <= i < cmds.len() && (#[trigger] cmds[i]).action is Unblock ==> !ls[i + 1].blocked().contains(
                cmds[i].ip,
            ) && !has_entry_for(ls[i + 1].expirations(), cmds[i].ip),
{
    assert forall|i: int| 0 <= i < ls.len() implies {
        &&& (#[trigger] ls[i]).wf()
        &&& scheduled_are_blocked(ls[i].expirations(), ls[i].blocked())
        &&& ls[i].expirations().len() <= ls[i].blocked().len()
    } by {
        lemma_run_schedule_blocked(ls, cmds, nows, i);
        if i > 0 {
            assert(ledger_step(ls[i - 1], ls[i], cmds[i - 1], nows[i - 1]));
        }
        lemma_schedule_within_blocked(ls[i].expirations(), ls[i].blocked());
    }
    assert forall|i: int| 0 <= i < cmds.len() && (#[trigger] cmds[i]).action is Block implies ls[i
        + 1].blocked().contains(cmds[i].ip) by {
        assert(ledger_step(ls[i], ls[i + 1], cmds[i], nows[i]));
        let b = ls[i].blocked();
        if !b.contains(cmds[i].ip) {
            assert(b.push(cmds[i].ip)[b.len() as int] == cmds[i].ip);
        }
    }
    assert forall|i: int| 0 <= i < cmds.len() && (#[trigger] cmds[i]).action is Unblock implies !ls[i
        + 1].blocked().contains(cmds[i].ip) && !has_entry_for(ls[i + 1].expirations(), cmds[i].ip) by {
        assert(ledger_step(ls[i], ls[i + 1], cmds[i], nows[i]));
        lemma_unblock_clears(ls[i].blocked(), ls[i].expirations(), cmds[i].ip);
    }
}

proof fn lemma_run_schedule_blocked(
    ls: Seq<EnforcementLedger>,
    cmds: Seq<EnforceCommand>,
    nows: Seq<u64>,
    k: int,
)
    requires
        ls.len() == cmds.len() + 1,
        nows.len() == cmds.len(),
        ls[0].expirations().len() == 0,
        forall|i: int| 0 <= i < cmds.len() ==> ledger_step(ls[i], ls[i + 1], #[trigger] cmds[i], nows[i]),
        0 <= k < ls.len(),
    ensures
        scheduled_are_blocked(ls[k].expirations(), ls[k].blocked()),
    decreases k,
{
    if k == 0 {
        assert forall|e: (u64, IpAddr)| #[trigger] ls[0].expirations().contains(e) implies ls[0].blocked().contains(
            e.1,
        ) by {
            assert(ls[0].expirations().len() == 0);
        }
    } else {
        lemma_run_schedule_blocked(ls, cmds, nows, k - 1);
        let c = cmds[k - 1];
        assert(ledger_step(ls[k - 1], ls[k], c, nows[k - 1]));
        match c.action {
            EnforceAction::Block => {
                lemma_block_keeps_schedule_blocked(
                    ls[k - 1].expirations(),
                    ls[k - 1].blocked(),
                    c.ip,
                    c.ttl_seconds,
                    nows[k - 1],
                );
            },
            EnforceAction::Unblock => {
                lemma_unblock_keeps_schedule_blocked(ls[k - 1].expirations(), ls[k - 1].blocked(), c.ip);
            },
        }
    }
}

/// Idempotence: once a decision is committed it is remembered, so the
/// same decision arriving again is reported as a duplicate and changes
/// nothing.
pub proof fn lemma_committed_decision_is_duplicate(q: Seq<u128>, id: u128)
    ensures
        remember_spec(q, id).contains(id),
{
    let r = remember_spec(q, id);
    if !q.contains(id) {
        assert(r[r.len() - 1] == id);
    }
}

/// A block with a TTL leaves exactly one pending expiration for the
/// address, at the new deadline; a re-block never inherits an older one.
pub proof fn lemma_block_schedules_one_expiration(
    es: Seq<(u64, IpAddr)>,
    ip: IpAddr,
    ttl_secs: u64,
    now_ms: u64,
)
    requires
        ttl_secs > 0,
    ensures
        ({
            let s = schedule_spec(es, ip, ttl_secs, now_ms);
            &&& s.last() == (deadline_ms(now_ms, ttl_secs), ip)
            &&& forall|i: int| 0 <= i < s.len() - 1 ==> s[i].1 != ip
        }),
{
    lemma_without_ip_has_none(es, ip);
    let w = without_ip(es, ip);
    assert forall|i: int| 0 <= i < w.len() implies w[i].1 != ip by {
        if w[i].1 == ip {
            assert(has_entry_for(w, ip));
        }
    }
}

/// After an unblock the address is neither blocked nor scheduled to
/// expire.
pub proof fn lemma_unblock_clears(s: Seq<IpAddr>, es: Seq<(u64, IpAddr)>, ip: IpAddr)
    ensures
        !remove_ip(s, ip).contains(ip),
        !has_entry_for(without_ip(es, ip), ip),
{
    lemma_keep_contains(s, other_than(ip), ip);
    lemma_without_ip_has_none(es, ip);
}

/// The WAL entry that records a command's intent at `ts_ns`: a block with
/// its reason and TTL (none for a TTL of zero), or an unblock.
pub open spec fn wal_intent(cmd: EnforceCommand, ts_ns: u64, e: WalEntry) -> bool {
    match cmd.action {
        EnforceAction::Block => e matches WalEntry::BlockIp { ip, reason, ttl_secs, ts_ns: t } && ip@
            == ip_text(cmd.ip) && reason@ == cmd.reason@ && ttl_secs == (if cmd.ttl_seconds > 0 {
            Some(cmd.ttl_seconds)
        } else {
            None
        }) && t == ts_ns,
        EnforceAction::Unblock => e matches WalEntry::UnblockIp { ip, ts_ns: t } && ip@ == ip_text(
            cmd.ip,
        ) && t == ts_ns,
    }
}

/// The WAL entry recording a command's intent, written before any state
/// changes.
pub fn wal_entry_for(cmd: &EnforceCommand, ts_ns: u64) -> (e: WalEntry)
    ensures
        wal_intent(*cmd, ts_ns, e),
        mentioned_ip(e) == Some(cmd.ip),
{
    match cmd.action {
        EnforceAction::Block => WalEntry::BlockIp {
            ip: ip_to_string(&cmd.ip),
            reason: cmd.reason.clone(),
            ttl_secs: if cmd.ttl_seconds > 0 {
                Some(cmd.ttl_seconds)
            } else {
                None
            },
            ts_ns,
        },
        EnforceAction::Unblock => WalEntry::UnblockIp { ip: ip_to_string(&cmd.ip), ts_ns },
    }
}

/// A block recovered from the WAL.
#[derive(Debug, Clone, Copy, PartialEq, Eq, Structural)]
pub struct RestoredBlock {
    pub ip: IpAddr,
    pub reason: BlockReason,
    pub since_ns: u64,
    pub ttl_secs: Option<u64>,
}

/// The address a block-state entry is about, when its text parses.
pub open spec fn mentioned_ip(e: WalEntry) -> Option<IpAddr> {
    match e {
        WalEntry::BlockIp { ip, .. } => ip_of_text(ip@),
        WalEntry::UnblockIp { ip, .. } => ip_of_text(ip@),
        _ => None,
    }
}

/// Whether entry `i` is a block that no later entry about the same address
/// overrides (later entries win; an unblock cancels an earlier block).
pub open spec fn is_final_block(es: Seq<WalEntry>, i: int) -> bool {
    &&& 0 <= i < es.len()
    &&& es[i] is BlockIp
    &&& mentioned_ip(es[i]) is Some
    &&& forall|j: int| i < j < es.len() ==> #[trigger] mentioned_ip(es[j]) != mentioned_ip(es[i])
}

/// The block entry `i` restores.
pub open spec fn restored_of(e: WalEntry) -> RestoredBlock {
    match e {
        WalEntry::BlockIp { ip, reason, ttl_secs, ts_ns } => RestoredBlock {
            ip: ip_of_text(ip@)->Some_0,
            reason: reason_of_text(reason@),
            since_ns: ts_ns,
            ttl_secs,
        },
        _ => arbitrary(),
    }
}

/// Whether `a` is mentioned by some entry of `es` from position `i` on.
pub open spec fn mentioned_from(es: Seq<WalEntry>, i: int, a: IpAddr) -> bool {
    exists|j: int| i <= j < es.len() && #[trigger] mentioned_ip(es[j]) == Some(a)
}

fn contains_ip(v: &Vec<IpAddr>, a: IpAddr) -> (r: bool)
    ensures
        r == v@.contains(a),
{
    let n: usize = v.len();
    let mut i: usize = 0;
    while i < n
        invariant
            n == v@.len(),
            i <= n,
            forall|j: int| 0 <= j < i ==> v@[j] != a,
        decreases n - i,
    {
        if v[i] == a {
            return true;
        }
        i = i + 1;
    }
    false
}

/// The final blocks among the entries from `i` on, newest first.
pub open spec fn final_blocks_from(es: Seq<WalEntry>, i: int) -> Seq<RestoredBlock>
    decreases es.len() - i,
{
    if i < 0 || i >= es.len() {
        Seq::empty()
    } else {
        let rest = final_blocks_from(es, i + 1);
        if is_final_block(es, i) {
            rest.push(restored_of(es[i]))
        } else {
            rest
        }
    }
}

/// Whether entry `j` mentions an address not mentioned after it.
pub open spec fn fresh_at(es: Seq<WalEntry>, j: int, seen: Seq<IpAddr>) -> bool {
    mentioned_ip(es[j]) is Some && !seen.contains(mentioned_ip(es[j])->Some_0)
}

/// The `seen` half of a backward step.
proof fn lemma_fold_seen(es: Seq<WalEntry>, j: int, seen0: Seq<IpAddr>, seen1: Seq<IpAddr>)
    requires
        0 <= j < es.len(),
        forall|a: IpAddr| #[trigger] seen0.contains(a) <==> mentioned_from(es, j + 1, a),
        seen1 == (if fresh_at(es, j, seen0) {
            seen0.push(mentioned_ip(es[j])->Some_0)
        } else {
            seen0
        }),
    ensures
        forall|a: IpAddr| #[trigger] seen1.contains(a) <==> mentioned_from(es, j, a),
        forall|a: IpAddr| seen0.contains(a) ==> #[trigger] seen1.contains(a),
{
    let fresh = fresh_at(es, j, seen0);
    assert forall|a: IpAddr| seen0.contains(a) implies #[trigger] seen1.contains(a) by {
        if fresh {
            let w = choose|w: int| 0 <= w < seen0.len() && seen0[w] == a;
            assert(seen1[w] == a);
        }
    }
    assert forall|a: IpAddr| #[trigger] seen1.contains(a) <==> mentioned_from(es, j, a) by {
        if seen1.contains(a) {
            if fresh && a == mentioned_ip(es[j])->Some_0 {
                assert(mentioned_ip(es[j]) == Some(a));
            } else {
                if fresh {
                    let w = choose|w: int| 0 <= w < seen1.len() && seen1[w] == a;
                    assert(w < seen0.len());
                    assert(seen0[w] == a);
                }
                assert(seen0.contains(a));
                let q = choose|q: int| j + 1 <= q < es.len() && #[trigger] mentioned_ip(es[q]) == Some(a);
                assert(j <= q);
            }
        }
        if mentioned_from(es, j, a) {
            let q = choose|q: int| j <= q < es.len() && #[trigger] mentioned_ip(es[q]) == Some(a);
            if q == j {
                if fresh {
                    assert(seen1[seen1.len() - 1] == a);
                } else {
                    assert(seen0.contains(a));
                }
            } else {
                assert(mentioned_from(es, j + 1, a));
            }
        }
    }
}

/// Entry `j` is a final block exactly when it is a block of a fresh address.
proof fn lemma_fold_final(es: Seq<WalEntry>, j: int, seen0: Seq<IpAddr>)
    requires
        0 <= j < es.len(),
        forall|a: IpAddr| #[trigger] seen0.contains(a) <==> mentioned_from(es, j + 1, a),
    ensures
        is_final_block(es, j) <==> (es[j] is BlockIp && fresh_at(es, j, seen0)),
{
    let m = mentioned_ip(es[j]);
    if m is Some {
        let a = m->Some_0;
        if !seen0.contains(a) {
            assert forall|q: int| j < q < es.len() implies #[trigger] mentioned_ip(es[q]) != m by {
                if mentioned_ip(es[q]) == Some(a) {
                    assert(mentioned_from(es, j + 1, a));
                }
            }
        } else {
            assert(mentioned_from(es, j + 1, a));
            let w = choose|w: int| j + 1 <= w < es.len() && #[trigger] mentioned_ip(es[w]) == Some(a);
            assert(mentioned_ip(es[w]) == mentioned_ip(es[j]));
        }
    }
}

/// Fold the WAL's block-state entries, in log order, into the blocks that
/// stand at its end: one per address whose last entry is a block, with that
/// entry's reason, time and TTL. Other entries are ignored, as are entries
/// whose address does not parse.
pub fn fold_wal_blocks(es: &Vec<WalEntry>) -> (r: Vec<RestoredBlock>)
    ensures
        r@ == final_blocks_from(es@, 0),
{
    let n: usize = es.len();
    let mut seen: Vec<IpAddr> = Vec::new();
    let mut out: Vec<RestoredBlock> = Vec::new();
    let mut i: usize = n;
    while i > 0
        invariant
            n == es@.len(),
            i <= n,
            forall|a: IpAddr| #[trigger] seen@.contains(a) <==> mentioned_from(es@, i as int, a),
            out@ == final_blocks_from(es@, i as int),
        decreases i,
    {
        let j: usize = i - 1;
        let m: Option<IpAddr> = match &es[j] {
            WalEntry::BlockIp { ip, .. } => parse_ip(ip.as_str()),
            WalEntry::UnblockIp { ip, .. } => parse_ip(ip.as_str()),
            _ => None,
        };
        assert(m == mentioned_ip(es@[j as int]));
        let ghost seen0 = seen@;
        proof {
            lemma_fold_final(es@, j as int, seen0);
        }
        if let Some(a) = m {
            if !contains_ip(&seen, a) {
                if let WalEntry::BlockIp { ip: _, reason, ttl_secs, ts_ns } = &es[j] {
                    let rb = RestoredBlock {
                        ip: a,
                        reason: reason_to_block_reason(reason.as_str()),
                        since_ns: *ts_ns,
                        ttl_secs: *ttl_secs,
                    };
                    out.push(rb);
                }
                seen.push(a);
            }
        }
        proof {
            lemma_fold_seen(es@, j as int, seen0, seen@);
        }
        i = j;
    }
    out
}

/// A final block entry is among the blocks restored from any earlier
/// position of the log.
proof fn lemma_final_block_restored_from(es: Seq<WalEntry>, i: int, j: int)
    requires
        0 <= i <= j,
        is_final_block(es, j),
    ensures
        final_blocks_from(es, i).contains(restored_of(es[j])),
    decreases j - i,
{
    if i == j {
        let rest = final_blocks_from(es, i + 1);
        assert(final_blocks_from(es, i) == rest.push(restored_of(es[i])));
        assert(final_blocks_from(es, i)[rest.len() as int] == restored_of(es[j]));
    } else {
        lemma_final_block_restored_from(es, i + 1, j);
        let rest = final_blocks_from(es, i + 1);
        let w = choose|w: int| 0 <= w < rest.len() && rest[w] == restored_of(es[j]);
        if is_final_block(es, i) {
            assert(final_blocks_from(es, i)[w] == rest[w]);
        }
    }
}

/// Restart law: when the last entry of the log about an address is a
/// block written for it (`wal_entry_for` names the address so that it
/// parses back), replay restores that block of that very address.
pub proof fn lemma_last_block_is_restored(es: Seq<WalEntry>, a: IpAddr, k: int)
    requires
        0 <= k < es.len(),
        es[k] is BlockIp,
        mentioned_ip(es[k]) == Some(a),
        forall|j: int| k < j < es.len() ==> #[trigger] mentioned_ip(es[j]) != Some(a),
    ensures
        final_blocks_from(es, 0).contains(restored_of(es[k])),
        restored_of(es[k]).ip == a,
{
    assert(is_final_block(es, k));
    lemma_final_block_restored_from(es, 0, k);
}

/// Every address is restored at most once.
pub proof fn lemma_final_blocks_distinct(es: Seq<WalEntry>, i: int)
    requires
        0 <= i,
    ensures
        forall|k1: int, k2: int|
            0 <= k1 < k2 < final_blocks_from(es, i).len() ==> #[trigger] final_blocks_from(
                es,
                i,
            )[k1].ip != #[trigger] final_blocks_from(es, i)[k2].ip,
        forall|k: int|
            0 <= k < final_blocks_from(es, i).len() ==> mentioned_from(
                es,
                i,
                #[trigger] final_blocks_from(es, i)[k].ip,
            ),
    decreases es.len() - i,
{
    if i < es.len() {
        lemma_final_blocks_distinct(es, i + 1);
        let rest = final_blocks_from(es, i + 1);
        let f = final_blocks_from(es, i);
        assert forall|k: int| 0 <= k < f.len() implies mentioned_from(es, i, #[trigger] f[k].ip) by {
            if k < rest.len() {
                assert(f[k] == rest[k]);
                assert(mentioned_from(es, i + 1, rest[k].ip));
                let q = choose|q: int| i + 1 <= q < es.len() && #[trigger] mentioned_ip(es[q]) == Some(rest[k].ip);
                assert(i <= q);
            } else {
                assert(mentioned_ip(es[i]) == Some(f[k].ip));
            }
        }
        assert forall|k1: int, k2: int| 0 <= k1 < k2 < f.len() implies #[trigger] f[k1].ip
            != #[trigger] f[k2].ip by {
            assert(f[k1] == rest[k1]);
            if k2 < rest.len() {
                assert(f[k2] == rest[k2]);
            } else {
                assert(mentioned_from(es, i + 1, rest[k1].ip));
                let q = choose|q: int| i + 1 <= q < es.len() && #[trigger] mentioned_ip(es[q]) == Some(rest[k1].ip);
                assert(mentioned_ip(es[q]) != mentioned_ip(es[i]));
            }
        }
    }
}

/// Whether a restored block's TTL has run out at `now_ns` (the sum wraps
/// as the unchecked addition does).
pub open spec fn block_expired(b: RestoredBlock, now_ns: u64) -> bool {
    match b.ttl_secs {
        Some(ttl) => wrapping_add(b.since_ns, sat_mul_u64_spec(ttl, 1_000_000_000)) <= now_ns,
        None => false,
    }
}

/// Whether a restored block is still live at `now_ns`.
pub open spec fn live_at(now_ns: u64) -> spec_fn(RestoredBlock) -> bool {
    |b: RestoredBlock| !block_expired(b, now_ns)
}

/// The blocks still live at `now_ns`, in order; blocks whose TTL ran out
/// are not resurrected.
pub fn live_blocks(bs: &Vec<RestoredBlock>, now_ns: u64) -> (r: Vec<RestoredBlock>)
    ensures
        r@ == keep(bs@, live_at(now_ns)),
{
    let n: usize = bs.len();
    let mut out: Vec<RestoredBlock> = Vec::new();
    let mut i: usize = 0;
    while i < n
        invariant
            n == bs@.len(),
            i <= n,
            out@ == keep(bs@.take(i as int), live_at(now_ns)),
        decreases n - i,
    {
        let b = bs[i];
        assert(bs@.take(i + 1).drop_last() =~= bs@.take(i as int));
        let expired: bool = match b.ttl_secs {
            Some(ttl) => b.since_ns.wrapping_add(sat_mul_u64(ttl, 1_000_000_000)) <= now_ns,
            None => false,
        };
        if !expired {
            out.push(b);
        }
        i = i + 1;
    }
    assert(bs@.take(n as int) =~= bs@);
    out
}

/// Whether `r` is the record a replayed block leaves for its address: the
/// live record found there (`old`, read at `now_ns`) marked blocked, or a
/// fresh record first and last seen at the block's time.
pub open spec fn replayed_record(old: Option<EntryModel>, b: RestoredBlock, now_ns: u64, r: IpRecord) -> bool {
    &&& r.block_state == BlockState::Blocked { reason: b.reason, since_ns: b.since_ns }
    &&& match old {
        Some(e) if !expired_at(e, now_ns) && e.value is IpRecord => {
            let o = e.value->IpRecord_0;
            &&& r.ip == o.ip
            &&& r.request_count == o.request_count
            &&& r.ewma_rps_bits == o.ewma_rps_bits
            &&& r.cusum_s_bits == o.cusum_s_bits
            &&& r.baseline_rps_bits == o.baseline_rps_bits
            &&& r.prev_sample_hot == o.prev_sample_hot
            &&& r.sample_count == o.sample_count
            &&& r.first_seen_ns == o.first_seen_ns
            &&& r.last_seen_ns == o.last_seen_ns
            &&& r.bytes_in == o.bytes_in
            &&& r.status_dist == o.status_dist
            &&& r.proto_fingerprint == o.proto_fingerprint
            &&& r.threat_score_bits == o.threat_score_bits
            &&& r.pulse_samples_in_window == o.pulse_samples_in_window
            &&& r.pulse_window_start_ns == o.pulse_window_start_ns
        },
        _ => {
            &&& r.ip == b.ip
            &&& r.request_count == 0
            &&& r.ewma_rps_bits == 0
            &&& r.cusum_s_bits == 0
            &&& r.baseline_rps_bits == 0
            &&& !r.prev_sample_hot
            &&& r.sample_count == 0
            &&& r.first_seen_ns == b.since_ns
            &&& r.last_seen_ns == b.since_ns
            &&& r.bytes_in == 0
            &&& r.status_dist@ == seq![0u32, 0, 0, 0, 0]
            &&& r.proto_fingerprint == 0
            &&& r.threat_score_bits == 0
            &&& r.pulse_samples_in_window == 0
            &&& r.pulse_window_start_ns == 0
        },
    }
}

fn replayed_record_for(store: &Store, b: &RestoredBlock, now_ns: u64) -> (r: IpRecord)
    ensures
        replayed_record(store.entries().get(b.ip), *b, now_ns, r),
{
    let blocked = BlockState::Blocked { reason: b.reason, since_ns: b.since_ns };
    match store.get(b.ip, now_ns) {
        Some(Value::IpRecord(mut rec)) => {
            rec.block_state = blocked;
            rec
        },
        _ => {
            let rec = IpRecord {
                ip: b.ip,
                request_count: 0,
                ewma_rps_bits: 0,
                cusum_s_bits: 0,
                baseline_rps_bits: 0,
                prev_sample_hot: false,
                sample_count: 0,
                first_seen_ns: b.since_ns,
                last_seen_ns: b.since_ns,
                bytes_in: 0,
                status_dist: [0u32; 5],
                proto_fingerprint: 0,
                threat_score_bits: 0,
                block_state: blocked,
                pulse_samples_in_window: 0,
                pulse_window_start_ns: 0,
            };
            assert(rec.status_dist@ =~= seq![0u32, 0, 0, 0, 0]);
            rec
        },
    }
}

proof fn lemma_live_distinct(bs: Seq<RestoredBlock>, now_ns: u64)
    requires
        forall|a: int, b: int| 0 <= a < b < bs.len() ==> #[trigger] bs[a].ip != #[trigger] bs[b].ip,
    ensures
        ({
            let l = keep(bs, live_at(now_ns));
            forall|a: int, b: int| 0 <= a < b < l.len() ==> #[trigger] l[a].ip != #[trigger] l[b].ip
        }),
{
    let p = live_at(now_ns);
    let l = keep(bs, p);
    assert(bs.no_duplicates()) by {
        assert forall|a: int, b: int| 0 <= a < bs.len() && 0 <= b < bs.len() && a != b implies bs[a]
            != bs[b] by {
            if a < b {
                assert(bs[a].ip != bs[b].ip);
            } else {
                assert(bs[b].ip != bs[a].ip);
            }
        }
    }
    lemma_keep_no_duplicates(bs, p);
    assert forall|a: int, b: int| 0 <= a < b < l.len() implies #[trigger] l[a].ip != #[trigger] l[b].ip by {
        lemma_keep_contains(bs, p, l[a]);
        lemma_keep_contains(bs, p, l[b]);
        assert(l.contains(l[a]));
        assert(l.contains(l[b]));
        let i = choose|i: int| 0 <= i < bs.len() && bs[i] == l[a];
        let j = choose|j: int| 0 <= j < bs.len() && bs[j] == l[b];
        assert(l[a] != l[b]);
        if i < j {
            assert(bs[i].ip != bs[j].ip);
        } else if j < i {
            assert(bs[j].ip != bs[i].ip);
        }
    }
}

/// The blocks a replay at wall-clock time `wall_ns` restores: the final
/// block of each address whose TTL has not run out.
pub open spec fn replay_live(entries: Seq<WalEntry>, wall_ns: u64) -> Seq<RestoredBlock> {
    keep(final_blocks_from(entries, 0), live_at(wall_ns))
}

/// The memory limit a replay writes under: the store's limit in MB, at
/// least 1 MB (saturating at `usize::MAX` bytes).
pub open spec fn replay_limit(s: Store) -> usize {
    let mb: int = if s.traffic.ram_limit_mb > 1 {
        s.traffic.ram_limit_mb as int
    } else {
        1
    };
    if mb * 1_048_576 > usize::MAX {
        usize::MAX
    } else {
        (mb * 1_048_576) as usize
    }
}

/// The net growth of writing an address record under `ip` over the entries
/// `e0` (a record replaces whatever `ip` held).
pub open spec fn replay_growth(e0: Map<IpAddr, EntryModel>, ip: IpAddr, r: IpRecord) -> usize {
    let size = entry_size(ValueModel::IpRecord(r));
    let old_size: usize = if e0.contains_key(ip) {
        entry_size(e0[ip].value)
    } else {
        0
    };
    if size >= old_size {
        (size - old_size) as usize
    } else {
        0
    }
}

/// The accounted bytes after the first `i` replayed records are written.
pub open spec fn replay_ram(e0: Map<IpAddr, EntryModel>, ram0: usize, live: Seq<RestoredBlock>, i: int) -> usize
    decreases i,
{
    if i <= 0 {
        ram0
    } else {
        wrapping_add_usize(
            replay_ram(e0, ram0, live, i - 1),
            replay_growth(e0, live[i - 1].ip, arbitrary()),
        )
    }
}

/// Whether the store refuses the `i`-th replayed record: the address is
/// new and its record would take the accounted bytes past `limit`.
pub open spec fn replay_refused_at(
    e0: Map<IpAddr, EntryModel>,
    ram0: usize,
    live: Seq<RestoredBlock>,
    i: int,
    limit: usize,
) -> bool {
    &&& !e0.contains_key(live[i].ip)
    &&& replay_ram(e0, ram0, live, i) + replay_growth(e0, live[i].ip, arbitrary()) > limit
}

/// Whether every replayed record of `live` fits into `s0`.
pub open spec fn replay_fits(s0: Store, live: Seq<RestoredBlock>) -> bool {
    forall|i: int|
        0 <= i < live.len() ==> !#[trigger] replay_refused_at(
            s0.entries(),
            s0.counts().ram_bytes,
            live,
            i,
            replay_limit(s0),
        )
}

/// Whether `s1` holds, for each of `live`, the replayed record of its
/// address without expiry, every other address reading as in `s0`.
pub open spec fn replay_restored(s0: Store, s1: Store, live: Seq<RestoredBlock>, mono_ns: u64) -> bool {
    &&& forall|i: int|
        0 <= i < live.len() ==> {
            let ip = (#[trigger] live[i]).ip;
            &&& s1.entries().contains_key(ip)
            &&& s1.entries()[ip].expires_at_ns is None
            &&& s1.entries()[ip].value is IpRecord
            &&& replayed_record(s0.entries().get(ip), live[i], mono_ns, s1.entries()[ip].value->IpRecord_0)
        }
    &&& forall|k: IpAddr|
        (forall|i: int| 0 <= i < live.len() ==> (#[trigger] live[i]).ip != k) ==> #[trigger] s1.entries().get(k)
            == s0.entries().get(k)
}

/// Every record a replay writes accounts for the same bytes.
proof fn lemma_record_size(e0: Map<IpAddr, EntryModel>, ip: IpAddr, r: IpRecord)
    ensures
        replay_growth(e0, ip, r) == replay_growth(e0, ip, arbitrary()),
{
}

/// Replay a WAL into the store at wall-clock time `wall_ns` (the clock of
/// the entries' stamps; the store's own clock reads `mono_ns`): the final
/// block of each address (later entries win, an unblock cancels) is
/// restored unless its TTL has run out, as a blocked record without expiry
/// under the store's memory limit (at least 1 MB). Succeeds exactly when
/// every such record fits, and returns the restored blocks (with their
/// times and TTLs, for the TTL schedule to be re-armed); otherwise the
/// store's refusal, the records before the refused one left written.
pub fn replay_wal_blocks(store: &mut Store, entries: &Vec<WalEntry>, mono_ns: u64, wall_ns: u64) -> (r: Result<
    Vec<RestoredBlock>,
    RsError,
>)
    ensures
        (r is Ok) == replay_fits(*old(store), replay_live(entries@, wall_ns)),
        r is Ok ==> r->Ok_0@ == replay_live(entries@, wall_ns) && replay_restored(
            *old(store),
            *final(store),
            replay_live(entries@, wall_ns),
            mono_ns,
        ),
        r is Err ==> r->Err_0 == (RsError::CapacityExceeded {
            limit_mb: (replay_limit(*old(store)) / 1_048_576) as usize,
        }),
        r is Err ==> forall|k: IpAddr|
            (forall|i: int| 0 <= i < replay_live(entries@, wall_ns).len() ==> (#[trigger] replay_live(
                entries@,
                wall_ns,
            )[i]).ip != k) ==> #[trigger] final(store).entries().get(k) == old(store).entries().get(k),
        final(store).traffic.wf() == old(store).traffic.wf(),
        final(store).traffic.ram_limit_mb == old(store).traffic.ram_limit_mb,
{
    let folded = fold_wal_blocks(entries);
    let live = live_blocks(&folded, wall_ns);
    proof {
        lemma_final_blocks_distinct(entries@, 0);
        lemma_live_distinct(folded@, wall_ns);
    }
    let mb: usize = if store.traffic.ram_limit_mb > 1 { store.traffic.ram_limit_mb } else { 1 };
    let ram_lim: usize = match mb.checked_mul(1024 * 1024) {
        Some(v) => v,
        None => usize::MAX,
    };
    assert(ram_lim == replay_limit(*old(store)));
    let ghost start = store.entries();
    let ghost ram0 = store.counts().ram_bytes;
    let n = live.len();
    let mut i: usize = 0;
    while i < n
        invariant
            n == live@.len(),
            live@ == replay_live(entries@, wall_ns),
            start == old(store).entries(),
            ram0 == old(store).counts().ram_bytes,
            ram_lim == replay_limit(*old(store)),
            i <= n,
            forall|a: int, b: int| 0 <= a < b < live@.len() ==> #[trigger] live@[a].ip != #[trigger] live@[b].ip,
            forall|a: int|
                0 <= a < i ==> {
                    let ip = (#[trigger] live@[a]).ip;
                    &&& store.entries().contains_key(ip)
                    &&& store.entries()[ip].expires_at_ns is None
                    &&& store.entries()[ip].value is IpRecord
                    &&& replayed_record(start.get(ip), live@[a], mono_ns, store.entries()[ip].value->IpRecord_0)
                },
            forall|k: IpAddr|
                (forall|a: int| 0 <= a < i ==> (#[trigger] live@[a]).ip != k) ==> #[trigger] store.entries().get(k)
                    == start.get(k),
            forall|a: int| 0 <= a < i ==> !#[trigger] replay_refused_at(start, ram0, live@, a, ram_lim),
            store.counts().ram_bytes == replay_ram(start, ram0, live@, i as int),
            store.traffic.wf() == old(store).traffic.wf(),
            store.traffic.ram_limit_mb == old(store).traffic.ram_limit_mb,
        decreases n - i,
    {
        let b = live[i];
        proof {
            assert(forall|a: int| 0 <= a < i ==> (#[trigger] live@[a]).ip != b.ip);
            assert(store.entries().get(b.ip) == start.get(b.ip));
        }
        let rec = replayed_record_for(store, &b, mono_ns);
        let ghost before = store.entries();
        proof {
            lemma_record_size(start, b.ip, rec);
            assert(store.insert_growth(b.ip, ValueModel::IpRecord(rec)) == replay_growth(start, b.ip, rec));
            assert(store.insert_refused(b.ip, ValueModel::IpRecord(rec), ram_lim) == replay_refused_at(
                start,
                ram0,
                live@,
                i as int,
                ram_lim,
            ));
        }
        match store.insert(b.ip, Value::IpRecord(rec), None, ram_lim, mono_ns) {
            Ok(()) => {},
            Err(e) => {
                proof {
                    let lv = replay_live(entries@, wall_ns);
                    assert(lv == live@);
                    assert(replay_refused_at(start, ram0, live@, i as int, ram_lim));
                    assert(!replay_fits(*old(store), lv));
                    assert forall|k: IpAddr|
                        (forall|a: int| 0 <= a < lv.len() ==> (#[trigger] lv[a]).ip != k) implies #[trigger] store.entries().get(k)
                        == start.get(k) by {
                        assert(lv[i as int].ip != k);
                        assert(before.get(k) == start.get(k));
                    }
                }
                return Err(e);
            },
        }
        proof {
            assert forall|a: int| 0 <= a < i + 1 implies {
                let ip = (#[trigger] live@[a]).ip;
                &&& store.entries().contains_key(ip)
                &&& store.entries()[ip].expires_at_ns is None
                &&& store.entries()[ip].value is IpRecord
                &&& replayed_record(start.get(ip), live@[a], mono_ns, store.entries()[ip].value->IpRecord_0)
            } by {
                if a < i {
                    assert(live@[a].ip != b.ip);
                }
            }
            assert forall|k: IpAddr|
                (forall|a: int| 0 <= a < i + 1 ==> (#[trigger] live@[a]).ip != k) implies #[trigger] store.entries().get(k)
                == start.get(k) by {
                assert(live@[i as int].ip != k);
                assert(before.get(k) == start.get(k));
            }
            assert(!replay_refused_at(start, ram0, live@, i as int, ram_lim));
            assert(store.counts().ram_bytes == replay_ram(start, ram0, live@, i + 1));
        }
        i = i + 1;
    }
    proof {
        assert(replay_fits(*old(store), live@));
    }
    Ok(live)
}

/// The ledger deadline (in the ledger's clock, `now_ms`) of a replayed
/// block with `ttl` seconds: its wall-clock deadline less the wall-clock
/// time already passed (`wall_ns`), counted from `now_ms` (saturating).
pub open spec fn rearm_deadline(b: RestoredBlock, ttl: u64, now_ms: u64, wall_ns: u64) -> u64 {
    let wall_deadline_ms = sat_add_u64_spec(b.since_ns / 1_000_000, sat_mul_u64_spec(ttl, 1000));
    sat_add_u64_spec(now_ms, sat_sub_u64_spec(wall_deadline_ms, wall_ns / 1_000_000))
}

/// The expirations after re-arming the TTLs of the replayed blocks `bs`,
/// in order: each block with a TTL replaces any pending expiration of its
/// address by one at its remaining deadline; a block without TTL stays
/// blocked for good.
pub open spec fn rearm_spec(es: Seq<(u64, IpAddr)>, bs: Seq<RestoredBlock>, now_ms: u64, wall_ns: u64) -> Seq<
    (u64, IpAddr),
>
    decreases bs.len(),
{
    if bs.len() == 0 {
        es
    } else {
        let e1 = rearm_spec(es, bs.drop_last(), now_ms, wall_ns);
        let b = bs.last();
        match b.ttl_secs {
            Some(t) => without_ip(e1, b.ip).push((rearm_deadline(b, t, now_ms, wall_ns), b.ip)),
            None => e1,
        }
    }
}

impl EnforcementLedger {
    /// Re-arm the TTL schedule of blocks restored from the WAL, so that a
    /// restart neither lifts a block early nor keeps it forever: each block
    /// with a TTL expires at its original wall-clock deadline, translated to
    /// the ledger's clock reading `now_ms` at wall-clock time `wall_ns`.
    pub fn rearm_replayed(&mut self, blocks: &Vec<RestoredBlock>, now_ms: u64, wall_ns: u64)
        requires
            old(self).wf(),
        ensures
            final(self).wf(),
            final(self).expirations() == rearm_spec(old(self).expirations(), blocks@, now_ms, wall_ns),
            final(self).blocked() == old(self).blocked(),
            final(self).processed() == old(self).processed(),
    {
        let n: usize = blocks.len();
        let mut i: usize = 0;
        while i < n
            invariant
                n == blocks@.len(),
                i <= n,
                self.wf(),
                self.expirations() == rearm_spec(old(self).expirations(), blocks@.take(i as int), now_ms, wall_ns),
                self.blocked() == old(self).blocked(),
                self.processed() == old(self).processed(),
            decreases n - i,
        {
            let b = blocks[i];
            assert(blocks@.take(i + 1).drop_last() =~= blocks@.take(i as int));
            assert(blocks@.take(i + 1).last() == b);
            match b.ttl_secs {
                Some(t) => {
                    let wall_deadline_ms = (b.since_ns / 1_000_000).saturating_add(sat_mul_u64(t, 1000));
                    let d = now_ms.saturating_add(wall_deadline_ms.saturating_sub(wall_ns / 1_000_000));
                    self.reschedule(b.ip, Some(d));
                },
                None => {},
            }
            i = i + 1;
        }
        assert(blocks@.take(n as int) =~= blocks@);
    }
}

/// Re-arming schedules, for each replayed block with a TTL, an expiration
/// of its address at its remaining deadline (the ledger keeps at most one
/// per address): after a restart a TTL block is not kept forever.
pub proof fn lemma_rearm_schedules_ttl_blocks(
    es: Seq<(u64, IpAddr)>,
    bs: Seq<RestoredBlock>,
    now_ms: u64,
    wall_ns: u64,
    k: int,
)
    requires
        forall|a: int, b: int| 0 <= a < b < bs.len() ==> #[trigger] bs[a].ip != #[trigger] bs[b].ip,
        0 <= k < bs.len(),
        bs[k].ttl_secs is Some,
    ensures
        rearm_spec(es, bs, now_ms, wall_ns).contains(
            (rearm_deadline(bs[k], bs[k].ttl_secs->Some_0, now_ms, wall_ns), bs[k].ip),
        ),
    decreases bs.len(),
{
    let e1 = rearm_spec(es, bs.drop_last(), now_ms, wall_ns);
    let r = rearm_spec(es, bs, now_ms, wall_ns);
    let entry = (rearm_deadline(bs[k], bs[k].ttl_secs->Some_0, now_ms, wall_ns), bs[k].ip);
    if k == bs.len() - 1 {
        assert(r[r.len() - 1] == entry);
    } else {
        assert forall|a: int, b: int| 0 <= a < b < bs.drop_last().len() implies #[trigger] bs.drop_last()[a].ip
            != #[trigger] bs.drop_last()[b].ip by {
            assert(bs[a].ip != bs[b].ip);
        }
        lemma_rearm_schedules_ttl_blocks(es, bs.drop_last(), now_ms, wall_ns, k);
        assert(bs.drop_last()[k] == bs[k]);
        assert(e1.contains(entry));
        let last = bs.last();
        assert(last.ip != bs[k].ip) by {
            assert(bs[k].ip != bs[bs.len() - 1].ip);
        }
        match last.ttl_secs {
            Some(t) => {
                lemma_keep_contains(e1, not_for(last.ip), entry);
                assert(without_ip(e1, last.ip).contains(entry));
                let w = choose|w: int| 0 <= w < without_ip(e1, last.ip).len() && without_ip(e1, last.ip)[w] == entry;
                assert(r[w] == entry);
            },
            None => {},
        }
    }
}

/// Replay a WAL into the store on boot, as `replay_wal_blocks` does, and
/// re-arm the TTL schedule of the restored blocks in the ledger (see
/// `rearm_replayed`, with the ledger's clock at `mono_ns` / 10^6 ms), so
/// that a restart neither un-bans an attacker nor bans one forever.
/// Returns how many blocks were restored; on the store's refusal the
/// ledger is left as it was.
pub fn replay_wal_into_store(
    store: &mut Store,
    ledger: &mut EnforcementLedger,
    entries: &Vec<WalEntry>,
    mono_ns: u64,
    wall_ns: u64,
) -> (r: Result<usize, RsError>)
    requires
        old(ledger).wf(),
    ensures
        final(ledger).wf(),
        final(ledger).blocked() == old(ledger).blocked(),
        final(ledger).processed() == old(ledger).processed(),
        r is Ok ==> final(ledger).expirations() == rearm_spec(
            old(ledger).expirations(),
            replay_live(entries@, wall_ns),
            (mono_ns / 1_000_000) as u64,
            wall_ns,
        ),
        r is Err ==> final(ledger).expirations() == old(ledger).expirations(),
        (r is Ok) == replay_fits(*old(store), replay_live(entries@, wall_ns)),
        r is Ok ==> r->Ok_0 == replay_live(entries@, wall_ns).len() && replay_restored(
            *old(store),
            *final(store),
            replay_live(entries@, wall_ns),
            mono_ns,
        ),
        r is Err ==> r->Err_0 == (RsError::CapacityExceeded {
            limit_mb: (replay_limit(*old(store)) / 1_048_576) as usize,
        }),
        r is Err ==> forall|k: IpAddr|
            (forall|i: int| 0 <= i < replay_live(entries@, wall_ns).len() ==> (#[trigger] replay_live(
                entries@,
                wall_ns,
            )[i]).ip != k) ==> #[trigger] final(store).entries().get(k) == old(store).entries().get(k),
        final(store).traffic.wf() == old(store).traffic.wf(),
{
    match replay_wal_blocks(store, entries, mono_ns, wall_ns) {
        Ok(live) => {
            ledger.rearm_replayed(&live, mono_ns / 1_000_000, wall_ns);
            Ok(live.len())
        },
        Err(e) => Err(e),
    }
}

/// What a dataplane reconciliation reports.
#[derive(Debug, Clone)]
pub struct ReconciliationState {
    pub last_wal_lsn: u64,
    pub pending_blocks: Vec<IpAddr>,
    pub pending_unblocks: Vec<IpAddr>,
}

impl Default for ReconciliationState {
    fn default() -> (r: Self)
        ensures
            r.last_wal_lsn == 0,
            r.pending_blocks@.len() == 0,
            r.pending_unblocks@.len() == 0,
    {
        ReconciliationState { last_wal_lsn: 0, pending_blocks: Vec::new(), pending_unblocks: Vec::new() }
    }
}

/// A packet dataplane that applies block decisions.
pub trait XdpApplier {
    /// Whether the dataplane accepted the last call made to it (block,
    /// unblock or reconciliation).
    spec fn accepted_last(&self) -> bool;

    /// Push a block; succeeds exactly when the dataplane accepts it.
    fn apply_block(&mut self, ip: IpAddr, decision_id: u128) -> (r: Result<(), EnforcementError>)
        ensures
            (r is Ok) == final(self).accepted_last(),
    ;

    /// Push an unblock; succeeds exactly when the dataplane accepts it.
    fn apply_unblock(&mut self, ip: IpAddr, decision_id: u128) -> (r: Result<(), EnforcementError>)
        ensures
            (r is Ok) == final(self).accepted_last(),
    ;

    /// Reconcile the dataplane with `expected_blocks`; succeeds exactly when
    /// the dataplane accepts it.
    fn reconcile(&mut self, expected_blocks: &[IpAddr]) -> (r: Result<
        ReconciliationState,
        EnforcementError,
    >)
        ensures
            (r is Ok) == final(self).accepted_last(),
    ;
}

/// A dataplane that accepts every decision and enforces nothing (in-band
/// enforcement only).
pub struct StubXdpApplier;

impl XdpApplier for StubXdpApplier {
    open spec fn accepted_last(&self) -> bool {
        true
    }

    fn apply_block(&mut self, ip: IpAddr, decision_id: u128) -> (r: Result<(), EnforcementError>)
        ensures
            r is Ok,
    {
        Ok(())
    }

    fn apply_unblock(&mut self, ip: IpAddr, decision_id: u128) -> (r: Result<(), EnforcementError>)
        ensures
            r is Ok,
    {
        Ok(())
    }

    fn reconcile(&mut self, expected_blocks: &[IpAddr]) -> (r: Result<
        ReconciliationState,
        EnforcementError,
    >)
        ensures
            r is Ok,
            r->Ok_0.last_wal_lsn == 0,
            r->Ok_0.pending_blocks@.len() == 0,
            r->Ok_0.pending_unblocks@.len() == 0,
    {
        Ok(ReconciliationState::default())
    }
}

} // verus!
