//! Per-IP block state and per-subnet window records.

use vstd::prelude::*;
use vstd::wrapping::u64_specs::{wrapping_add as wrapping_add_u64, wrapping_sub as wrapping_sub_u64};
use vstd::wrapping::usize_specs::{wrapping_add as wrapping_add_usize, wrapping_sub as wrapping_sub_usize};
use dashmap::DashMap;
use crate::arith::{sat_add_u64_spec, sat_mul_u64, sat_mul_u64_spec};
use crate::bytes::lemma_le_be_reverse;
use crate::storage::traffic::TrafficCounters;
use crate::types::error::{BlockReason, RsError};
use crate::types::ip_network::IpNetwork;
use crate::types::net::IpAddr;

verus! {

/// Payloads up to this many bytes are kept inline.
pub const INLINE_MAX: usize = 64;

/// Block state of a tracked address.
#[derive(Debug, Clone, Copy, PartialEq, Eq, Structural)]
pub enum BlockState {
    Clean,
    Suspicious,
    Blocked { reason: BlockReason, since_ns: u64 },
}

impl BlockState {
    /// The time the block began, or 0 when not blocked.
    pub fn since_ns(&self) -> (r: u64)
        ensures
            r == (match *self {
                BlockState::Blocked { since_ns, .. } => since_ns,
                _ => 0,
            }),
    {
        match self {
            BlockState::Blocked { since_ns, .. } => *since_ns,
            _ => 0,
        }
    }
}

/// Whether host octet `h` is marked in a 256-bit host bitmap.
pub open spec fn host_marked(bitmap: Seq<u64>, h: int) -> bool {
    (bitmap[h / 64] >> ((h % 64) as u64)) & 1u64 == 1u64
}

/// How many of the host octets `0..n` are marked.
pub open spec fn marked_count(bitmap: Seq<u64>, n: nat) -> nat
    decreases n,
{
    if n == 0 {
        0
    } else {
        marked_count(bitmap, (n - 1) as nat) + if host_marked(bitmap, n - 1) {
            1nat
        } else {
            0nat
        }
    }
}

/// Window counters of one subnet: its first three octets, the events seen
/// in the current window, a bitmap of the IPv4 host octets seen in it, and
/// when it was last merged.
#[derive(Debug, Clone, Copy)]
pub struct SubnetRecord {
    pub prefix: [u8; 3],
    pub total_rps: u64,
    pub host_bitmap: [u64; 4],
    pub last_updated_ns: u64,
}

/// Length of the subnet counting window.
pub const SUBNET_WINDOW_NS: u64 = 2_000_000_000;

proof fn lemma_set_bit(x: u64, i: u64, j: u64)
    requires
        i < 64,
        j < 64,
    ensures
        ((x | (1u64 << j)) >> i) & 1u64 == (if i == j {
            1u64
        } else {
            (x >> i) & 1u64
        }),
{
    assert(((x | (1u64 << j)) >> i) & 1u64 == (if i == j {
        1u64
    } else {
        (x >> i) & 1u64
    })) by (bit_vector)
        requires
            i < 64,
            j < 64,
    ;
}

impl SubnetRecord {
    /// Number of distinct IPv4 hosts marked in the current window.
    pub fn unique_ips(&self) -> (r: u64)
        ensures
            r == marked_count(self.host_bitmap@, 256),
    {
        let mut n: u64 = 0;
        let mut h: usize = 0;
        while h < 256
            invariant
                h <= 256,
                n == marked_count(self.host_bitmap@, h as nat),
                n <= h,
            decreases 256 - h,
        {
            let w: u64 = self.host_bitmap[h / 64];
            let bit: u64 = ((h % 64) as u64);
            if (w >> bit) & 1 == 1 {
                n = n + 1;
            }
            h = h + 1;
        }
        n
    }

    /// Mark the host octet of an IPv4 member; IPv6 members leave the bitmap
    /// alone.
    pub fn mark_host_v4(&mut self, ip: IpAddr)
        ensures
            final(self).prefix == old(self).prefix,
            final(self).total_rps == old(self).total_rps,
            final(self).last_updated_ns == old(self).last_updated_ns,
            final(self).host_bitmap@.len() == 4,
            forall|h: int|
                0 <= h < 256 ==> #[trigger] host_marked(final(self).host_bitmap@, h) == (
                host_marked(old(self).host_bitmap@, h) || match ip {
                    IpAddr::V4(v) => h == v % 256,
                    IpAddr::V6(_) => false,
                }),
    {
        if let IpAddr::V4(v) = ip {
            let o: usize = (v % 256) as usize;
            let w: usize = o / 64;
            let b: u64 = (o % 64) as u64;
            let ghost before = self.host_bitmap@;
            self.host_bitmap[w] = self.host_bitmap[w] | (1u64 << b);
            assert forall|h: int| 0 <= h < 256 implies #[trigger] host_marked(
                self.host_bitmap@,
                h,
            ) == (host_marked(before, h) || h == v % 256) by {
                lemma_set_bit(before[h / 64], (h % 64) as u64, b);
                if h / 64 == w as int {
                    if h % 64 == b as int {
                        assert(h == o as int);
                    } else {
                        assert(h != o as int);
                    }
                } else {
                    assert(h != o as int);
                }
            }
        }
    }
}

/// Whether `r` is the subnet record after merging one flush window into
/// `existing` (see `merge_subnet_window`).
pub open spec fn window_merged(
    existing: Option<SubnetRecord>,
    net: IpNetwork,
    events: u32,
    members: Seq<IpAddr>,
    now_ns: u64,
    r: SubnetRecord,
) -> bool {
    let base_total: u64 = match existing {
        Some(e) => e.total_rps,
        None => 0,
    };
    let base_last: u64 = match existing {
        Some(e) => e.last_updated_ns,
        None => now_ns,
    };
    let rolled = now_ns > base_last && now_ns - base_last > SUBNET_WINDOW_NS;
    let start_total: u64 = if rolled {
        0
    } else {
        base_total
    };
    &&& r.last_updated_ns == now_ns
    &&& existing is Some ==> r.prefix == existing->Some_0.prefix
    &&& existing is None ==> r.prefix@ == net.addr.octets_spec().take(3)
    &&& r.total_rps == (if start_total + events > u64::MAX {
        u64::MAX
    } else {
        (start_total + events) as u64
    })
    &&& forall|h: int|
        0 <= h < 256 ==> #[trigger] host_marked(r.host_bitmap@, h) == ((!rolled && existing is Some
            && host_marked(existing->Some_0.host_bitmap@, h)) || exists|k: int|
            0 <= k < members.len() && #[trigger] host_of(members[k], h))
}

/// The subnet record after merging one flush window: a record idle for
/// more than the window restarts its counters and bitmap; the events are
/// added (saturating), the IPv4 members marked, and the time stamped.
pub fn merge_subnet_window(
    existing: Option<SubnetRecord>,
    net: IpNetwork,
    events: u32,
    members: &[IpAddr],
    now_ns: u64,
) -> (r: SubnetRecord)
    ensures
        window_merged(existing, net, events, members@, now_ns, r),
{
    proof {
        match net.addr {
            IpAddr::V4(v) => lemma_le_be_reverse(v as nat, 4),
            IpAddr::V6(v) => lemma_le_be_reverse(v as nat, 16),
        }
    }
    let mut rec = match existing {
        Some(e) => e,
        None => {
            let o = net.addr.octets();
            assert(o@.take(3) =~= seq![o@[0], o@[1], o@[2]]);
            SubnetRecord {
                prefix: [o[0], o[1], o[2]],
                total_rps: 0,
                host_bitmap: [0u64; 4],
                last_updated_ns: now_ns,
            }
        },
    };
    let ghost base = rec;
    let rolled: bool = now_ns.saturating_sub(rec.last_updated_ns) > SUBNET_WINDOW_NS;
    if rolled {
        rec.total_rps = 0;
        rec.host_bitmap = [0u64; 4];
    }
    proof {
        assert forall|h: int| 0 <= h < 256 implies #[trigger] host_marked(rec.host_bitmap@, h) == (
        !rolled && existing is Some && host_marked(existing->Some_0.host_bitmap@, h)) by {
            if rolled || existing is None {
                lemma_zero_word_unmarked((h % 64) as u64);
            }
        }
    }
    rec.total_rps = rec.total_rps.saturating_add(events as u64);
    let ghost start = rec.host_bitmap@;
    let len: usize = members.len();
    let mut i: usize = 0;
    while i < len
        invariant
            len == members@.len(),
            i <= len,
            rec.host_bitmap@.len() == 4,
            rec.prefix == base.prefix,
            rec.total_rps == (if (if rolled { 0 } else { base.total_rps }) + events > u64::MAX {
                u64::MAX
            } else {
                ((if rolled { 0 } else { base.total_rps }) + events) as u64
            }),
            forall|h: int|
                0 <= h < 256 ==> #[trigger] host_marked(rec.host_bitmap@, h) == (host_marked(
                    start,
                    h,
                ) || exists|k: int| 0 <= k < i && #[trigger] host_of(members@[k], h)),
        decreases len - i,
    {
        let ghost before = rec.host_bitmap@;
        rec.mark_host_v4(members[i]);
        assert forall|h: int| 0 <= h < 256 implies #[trigger] host_marked(rec.host_bitmap@, h) == (
        host_marked(start, h) || exists|k: int| 0 <= k < i + 1 && #[trigger] host_of(members@[k], h)) by {
            if host_of(members@[i as int], h) {
                assert(exists|k: int| 0 <= k < i + 1 && #[trigger] host_of(members@[k], h));
            }
            if exists|k: int| 0 <= k < i + 1 && #[trigger] host_of(members@[k], h) {
                let k = choose|k: int| 0 <= k < i + 1 && #[trigger] host_of(members@[k], h);
                if k < i {
                    assert(exists|k: int| 0 <= k < i && #[trigger] host_of(members@[k], h));
                }
            }
        }
        i = i + 1;
    }
    rec.last_updated_ns = now_ns;
    rec
}

proof fn lemma_zero_word_unmarked(i: u64)
    requires
        i < 64,
    ensures
        (0u64 >> i) & 1u64 == 0u64,
{
    assert((0u64 >> i) & 1u64 == 0u64) by (bit_vector)
        requires
            i < 64,
    ;
}

/// Whether `ip` is an IPv4 address whose host octet is `h`.
pub open spec fn host_of(ip: IpAddr, h: int) -> bool {
    match ip {
        IpAddr::V4(v) => h == v % 256,
        IpAddr::V6(_) => false,
    }
}

/// Aggregate statistics of the store.
#[derive(Debug, Clone, Copy)]
pub struct StoreStats {
    pub ips_tracked: usize,
    pub blocked: u64,
    pub ram_bytes: usize,
    pub ram_limit_mb: usize,
    pub uptime_secs: u64,
    pub evictions: u64,
}

/// A tracked address's record. Its floating-point scores (the EWMA rate,
/// the CUSUM accumulator and its baseline, the threat score) are held as
/// their IEEE-754 bit patterns.
#[derive(Debug, Clone, Copy)]
pub struct IpRecord {
    pub ip: IpAddr,
    pub request_count: u64,
    pub ewma_rps_bits: u64,
    pub cusum_s_bits: u64,
    pub baseline_rps_bits: u64,
    pub prev_sample_hot: bool,
    pub sample_count: u8,
    pub first_seen_ns: u64,
    pub last_seen_ns: u64,
    pub bytes_in: u64,
    pub status_dist: [u32; 5],
    pub proto_fingerprint: u32,
    pub threat_score_bits: u32,
    pub block_state: BlockState,
    /// Over-threshold samples in the pulse-wave tracker's current window.
    pub pulse_samples_in_window: u8,
    /// Start of the pulse-wave tracker's current window (0: none open).
    pub pulse_window_start_ns: u64,
}

/// A stored value.
#[derive(Debug, Clone)]
pub enum Value {
    Counter(u64),
    /// A payload of at most `INLINE_MAX` bytes.
    Inline(Vec<u8>),
    Blob(Vec<u8>),
    IpRecord(IpRecord),
    SubnetRecord(SubnetRecord),
}

/// What a stored value holds.
pub enum ValueModel {
    Counter(u64),
    Inline(Seq<u8>),
    Blob(Seq<u8>),
    IpRecord(IpRecord),
    SubnetRecord(SubnetRecord),
}

impl View for Value {
    type V = ValueModel;

    open spec fn view(&self) -> ValueModel {
        match self {
            Value::Counter(n) => ValueModel::Counter(*n),
            Value::Inline(b) => ValueModel::Inline(b@),
            Value::Blob(b) => ValueModel::Blob(b@),
            Value::IpRecord(r) => ValueModel::IpRecord(*r),
            Value::SubnetRecord(r) => ValueModel::SubnetRecord(*r),
        }
    }
}

/// The heap bytes a value accounts for: its payload, or the size of the
/// record it holds.
pub open spec fn heap_bytes_of(v: ValueModel) -> nat {
    match v {
        ValueModel::Inline(b) => b.len(),
        ValueModel::Blob(b) => b.len(),
        ValueModel::IpRecord(_) => vstd::layout::size_of::<IpRecord>(),
        ValueModel::SubnetRecord(_) => vstd::layout::size_of::<SubnetRecord>(),
        ValueModel::Counter(_) => 0,
    }
}

/// Whether a value is an address record in any state but clean.
pub open spec fn blocked_value(v: ValueModel) -> bool {
    match v {
        ValueModel::IpRecord(r) => r.block_state != BlockState::Clean,
        _ => false,
    }
}

impl Value {
    /// A payload as a value: inline up to `INLINE_MAX` bytes, a blob beyond.
    pub fn from_bytes(bytes: &[u8]) -> (r: Value)
        ensures
            r@ == (if bytes@.len() <= INLINE_MAX {
                ValueModel::Inline(bytes@)
            } else {
                ValueModel::Blob(bytes@)
            }),
    {
        let mut v: Vec<u8> = Vec::new();
        v.extend_from_slice(bytes);
        assert(v@ =~= bytes@);
        if bytes.len() <= INLINE_MAX {
            Value::Inline(v)
        } else {
            Value::Blob(v)
        }
    }

    /// The heap bytes this value accounts for.
    pub fn heap_bytes(&self) -> (r: usize)
        ensures
            r == heap_bytes_of(self@),
    {
        match self {
            Value::Inline(v) => v.len(),
            Value::Blob(v) => v.len(),
            Value::IpRecord(_) => core::mem::size_of::<IpRecord>(),
            Value::SubnetRecord(_) => core::mem::size_of::<SubnetRecord>(),
            Value::Counter(_) => 0,
        }
    }

    /// Whether this is an address record in any state but clean.
    pub fn is_blocked(&self) -> (r: bool)
        ensures
            r == blocked_value(self@),
    {
        match self {
            Value::IpRecord(rec) => match rec.block_state {
                BlockState::Clean => false,
                _ => true,
            },
            _ => false,
        }
    }
}

/// A stored value and the monotonic time (ns) it expires at, if any.
#[derive(Debug, Clone)]
pub struct Entry {
    pub value: Value,
    pub expires_at_ns: Option<u64>,
}

/// What a stored entry holds.
pub struct EntryModel {
    pub value: ValueModel,
    pub expires_at_ns: Option<u64>,
}

impl View for Entry {
    type V = EntryModel;

    open spec fn view(&self) -> EntryModel {
        EntryModel { value: self.value@, expires_at_ns: self.expires_at_ns }
    }
}

/// Whether an entry has expired at `now_ns`.
pub open spec fn expired_at(e: EntryModel, now_ns: u64) -> bool {
    match e.expires_at_ns {
        Some(t) => now_ns > t,
        None => false,
    }
}

impl Entry {
    /// Whether this entry has expired at `now_ns`.
    pub fn is_expired(&self, now_ns: u64) -> (r: bool)
        ensures
            r == expired_at(self@, now_ns),
    {
        match self.expires_at_ns {
            Some(t) => now_ns > t,
            None => false,
        }
    }
}

/// The bytes an entry accounts for: its key, the entry itself, and its
/// value's heap bytes (saturating at `usize::MAX`).
pub open spec fn entry_size(v: ValueModel) -> usize {
    let n = vstd::layout::size_of::<IpAddr>() + vstd::layout::size_of::<Entry>() + heap_bytes_of(v);
    if n > usize::MAX {
        usize::MAX
    } else {
        n as usize
    }
}

fn entry_size_of(v: &Value) -> (r: usize)
    ensures
        r == entry_size(v@),
{
    core::mem::size_of::<IpAddr>().saturating_add(core::mem::size_of::<Entry>()).saturating_add(
        v.heap_bytes(),
    )
}

#[verifier::external_type_specification]
#[verifier::external_body]
#[verifier::reject_recursive_types(K)]
#[verifier::reject_recursive_types(V)]
#[verifier::reject_recursive_types(S)]
pub struct ExDashMap<K, V, S>(DashMap<K, V, S>);

/// The address map of a store.
pub type EntryMap = DashMap<IpAddr, Entry>;

/// The entries a store's address map holds.
pub uninterp spec fn store_entries(m: EntryMap) -> Map<IpAddr, EntryModel>;

/// `DashMap::with_shard_amount`: an empty map (the crate asserts that the
/// shard amount is a power of two above one).
#[verifier::external_body]
fn entries_new(shards: usize) -> (r: EntryMap)
    requires
        shards > 1,
        crate::config::is_pow2(shards as nat),
    ensures
        store_entries(r).dom() == Set::<IpAddr>::empty(),
{
    DashMap::with_shard_amount(shards)
}

/// `DashMap::insert`: the key maps to the entry afterwards; returns the
/// entry it replaced.
#[verifier::external_body]
fn entries_insert(m: &mut EntryMap, key: IpAddr, e: Entry) -> (r: Option<Entry>)
    ensures
        store_entries(*final(m)) == store_entries(*old(m)).insert(key, e@),
        match r {
            Some(o) => store_entries(*old(m)).contains_key(key) && o@ == store_entries(*old(m))[key],
            None => !store_entries(*old(m)).contains_key(key),
        },
{
    m.insert(key, e)
}

/// `DashMap::get`, the entry cloned out of its guard.
#[verifier::external_body]
fn entries_get(m: &EntryMap, key: IpAddr) -> (r: Option<Entry>)
    ensures
        match r {
            Some(e) => store_entries(*m).contains_key(key) && e@ == store_entries(*m)[key],
            None => !store_entries(*m).contains_key(key),
        },
{
    m.get(&key).map(|g| g.value().clone())
}

/// `DashMap::remove`: the key is absent afterwards; returns its entry.
#[verifier::external_body]
fn entries_remove(m: &mut EntryMap, key: IpAddr) -> (r: Option<Entry>)
    ensures
        store_entries(*final(m)) == store_entries(*old(m)).remove(key),
        match r {
            Some(e) => store_entries(*old(m)).contains_key(key) && e@ == store_entries(*old(m))[key],
            None => !store_entries(*old(m)).contains_key(key),
        },
{
    m.remove(&key).map(|(_, e)| e)
}

/// `DashMap::len`: the number of entries.
#[verifier::external_body]
fn entries_len(m: &EntryMap) -> (r: usize)
    ensures
        r == store_entries(*m).len(),
{
    m.len()
}

/// `DashMap::iter`, each key with its entry cloned: every entry once, in
/// no stated order.
#[verifier::external_body]
fn entries_items(m: &EntryMap) -> (r: Vec<(IpAddr, Entry)>)
    ensures
        forall|i: int, j: int| 0 <= i < j < r@.len() ==> r@[i].0 != r@[j].0,
        forall|i: int|
            0 <= i < r@.len() ==> store_entries(*m).contains_key(#[trigger] r@[i].0) && r@[i].1@
                == store_entries(*m)[r@[i].0],
        forall|k: IpAddr| #[trigger] store_entries(*m).contains_key(k) ==> exists|i: int|
            0 <= i < r@.len() && r@[i].0 == k,
{
    m.iter().map(|g| (*g.key(), g.value().clone())).collect()
}

/// The subnet window table of a store.
pub type SubnetMap = DashMap<u128, SubnetRecord>;

/// The subnet-to-members index of a store.
pub type MemberMap = DashMap<u128, Vec<IpAddr>>;

/// The records a store's subnet table holds.
pub uninterp spec fn subnet_records(m: SubnetMap) -> Map<u128, SubnetRecord>;

/// The member lists a store's subnet index holds.
pub uninterp spec fn subnet_members(m: MemberMap) -> Map<u128, Seq<IpAddr>>;

/// `DashMap::with_shard_amount(32)`: an empty subnet table.
#[verifier::external_body]
fn subnets_new() -> (r: SubnetMap)
    ensures
        subnet_records(r).dom() == Set::<u128>::empty(),
{
    DashMap::with_shard_amount(32)
}

/// `DashMap::get`, the record copied out of its guard.
#[verifier::external_body]
fn subnets_get(m: &SubnetMap, key: u128) -> (r: Option<SubnetRecord>)
    ensures
        match r {
            Some(v) => subnet_records(*m).contains_key(key) && v == subnet_records(*m)[key],
            None => !subnet_records(*m).contains_key(key),
        },
{
    m.get(&key).map(|g| *g.value())
}

/// `DashMap::insert`: the key maps to the record afterwards.
#[verifier::external_body]
fn subnets_insert(m: &mut SubnetMap, key: u128, v: SubnetRecord) -> (r: Option<SubnetRecord>)
    ensures
        subnet_records(*final(m)) == subnet_records(*old(m)).insert(key, v),
        match r {
            Some(o) => subnet_records(*old(m)).contains_key(key) && o == subnet_records(*old(m))[key],
            None => !subnet_records(*old(m)).contains_key(key),
        },
{
    m.insert(key, v)
}

/// `DashMap::with_shard_amount(32)`: an empty subnet index.
#[verifier::external_body]
fn members_new() -> (r: MemberMap)
    ensures
        subnet_members(r).dom() == Set::<u128>::empty(),
{
    DashMap::with_shard_amount(32)
}

/// `DashMap::get`, the member list cloned out of its guard.
#[verifier::external_body]
fn members_get(m: &MemberMap, key: u128) -> (r: Option<Vec<IpAddr>>)
    ensures
        match r {
            Some(v) => subnet_members(*m).contains_key(key) && v@ == subnet_members(*m)[key],
            None => !subnet_members(*m).contains_key(key),
        },
{
    m.get(&key).map(|g| g.value().clone())
}

/// `DashMap::insert`: the key maps to the member list afterwards.
#[verifier::external_body]
fn members_insert(m: &mut MemberMap, key: u128, v: Vec<IpAddr>) -> (r: Option<Vec<IpAddr>>)
    ensures
        subnet_members(*final(m)) == subnet_members(*old(m)).insert(key, v@),
        match r {
            Some(o) => subnet_members(*old(m)).contains_key(key) && o@ == subnet_members(*old(m))[key],
            None => !subnet_members(*old(m)).contains_key(key),
        },
{
    m.insert(key, v)
}

/// `DashMap::remove`: the key is absent afterwards.
#[verifier::external_body]
fn members_remove(m: &mut MemberMap, key: u128) -> (r: Option<Vec<IpAddr>>)
    ensures
        subnet_members(*final(m)) == subnet_members(*old(m)).remove(key),
        match r {
            Some(o) => subnet_members(*old(m)).contains_key(key) && o@ == subnet_members(*old(m))[key],
            None => !subnet_members(*old(m)).contains_key(key),
        },
{
    m.remove(&key).map(|(_, v)| v)
}

/// `DashMap::iter`, each key with its record copied: every record once,
/// in no stated order.
#[verifier::external_body]
fn subnets_items(m: &SubnetMap) -> (r: Vec<(u128, SubnetRecord)>)
    ensures
        forall|i: int, j: int| 0 <= i < j < r@.len() ==> r@[i].0 != r@[j].0,
        forall|i: int|
            0 <= i < r@.len() ==> subnet_records(*m).contains_key(#[trigger] r@[i].0) && r@[i].1
                == subnet_records(*m)[r@[i].0],
        forall|k: u128| #[trigger] subnet_records(*m).contains_key(k) ==> exists|i: int|
            0 <= i < r@.len() && r@[i].0 == k,
{
    m.iter().map(|g| (*g.key(), *g.value())).collect()
}

/// A member list with `ip` added once.
pub open spec fn with_member(s: Seq<IpAddr>, ip: IpAddr) -> Seq<IpAddr> {
    if s.contains(ip) {
        s
    } else {
        s.push(ip)
    }
}

/// A member list without `ip`, order kept.
pub open spec fn without_member(s: Seq<IpAddr>, ip: IpAddr) -> Seq<IpAddr>
    decreases s.len(),
{
    if s.len() == 0 {
        s
    } else {
        let r = without_member(s.drop_last(), ip);
        if s.last() == ip {
            r
        } else {
            r.push(s.last())
        }
    }
}

/// The index after `update_subnet_index`.
pub open spec fn index_after(
    m: Map<u128, Seq<IpAddr>>,
    ip: IpAddr,
    subnet_key: Option<u128>,
    is_removal: bool,
) -> Map<u128, Seq<IpAddr>> {
    match subnet_key {
        None => m,
        Some(sk) => if is_removal {
            if m.contains_key(sk) {
                let rest = without_member(m[sk], ip);
                if rest.len() == 0 {
                    m.remove(sk)
                } else {
                    m.insert(sk, rest)
                }
            } else {
                m
            }
        } else {
            let cur = if m.contains_key(sk) {
                m[sk]
            } else {
                Seq::empty()
            };
            m.insert(sk, with_member(cur, ip))
        },
    }
}

fn remove_member(v: &Vec<IpAddr>, ip: IpAddr) -> (r: Vec<IpAddr>)
    ensures
        r@ == without_member(v@, ip),
{
    let mut out: Vec<IpAddr> = Vec::new();
    let n = v.len();
    let mut i: usize = 0;
    while i < n
        invariant
            n == v@.len(),
            i <= n,
            out@ == without_member(v@.take(i as int), ip),
        decreases n - i,
    {
        assert(v@.take(i as int + 1).drop_last() =~= v@.take(i as int));
        if v[i] != ip {
            out.push(v[i]);
        }
        i = i + 1;
    }
    assert(v@.take(n as int) =~= v@);
    out
}

/// The store's running counters: accounted bytes (also mirrored in the
/// traffic counters), evictions, and blocked records.
pub struct StoreCounts {
    pub ram_bytes: usize,
    pub used_bytes: u64,
    pub inserts: u64,
    pub evictions: u64,
    pub blocked: u64,
}

/// When an entry written at `now_ns` with `ttl_secs` expires (saturating).
pub open spec fn expiry_ns(ttl_secs: Option<u64>, now_ns: u64) -> Option<u64> {
    match ttl_secs {
        Some(s) => Some(sat_add_u64_spec(now_ns, sat_mul_u64_spec(s, 1_000_000_000))),
        None => None,
    }
}

/// The blocked-record count after a value of blocked state `was` is
/// replaced by one of blocked state `now` (counted only on transitions).
pub open spec fn blocked_after(count: u64, was: bool, now: bool) -> u64 {
    if !was && now {
        wrapping_add_u64(count, 1)
    } else if was && !now {
        wrapping_sub_u64(count, 1)
    } else {
        count
    }
}

/// The counters after an entry of value `v` is removed.
pub open spec fn counts_after_removal(c: StoreCounts, v: ValueModel) -> StoreCounts {
    StoreCounts {
        ram_bytes: wrapping_sub_usize(c.ram_bytes, entry_size(v)),
        used_bytes: wrapping_sub_u64(c.used_bytes, entry_size(v) as u64),
        inserts: c.inserts,
        evictions: wrapping_add_u64(c.evictions, 1),
        blocked: if blocked_value(v) {
            wrapping_sub_u64(c.blocked, 1)
        } else {
            c.blocked
        },
    }
}

/// The entries and counters after evicting `keys` in order at `now_ns`:
/// each key present and expired is removed and accounted for.
pub open spec fn evict_spec(
    e: Map<IpAddr, EntryModel>,
    c: StoreCounts,
    keys: Seq<IpAddr>,
    now_ns: u64,
) -> (Map<IpAddr, EntryModel>, StoreCounts)
    decreases keys.len(),
{
    if keys.len() == 0 {
        (e, c)
    } else {
        let (e1, c1) = evict_spec(e, c, keys.drop_last(), now_ns);
        let k = keys.last();
        if e1.contains_key(k) && expired_at(e1[k], now_ns) {
            (e1.remove(k), counts_after_removal(c1, e1[k].value))
        } else {
            (e1, c1)
        }
    }
}

/// The unified key-value store: address entries with TTLs and byte
/// accounting, per-subnet window records, and a subnet-to-members index.
pub struct Store {
    pub inner: EntryMap,
    pub subnet_table: SubnetMap,
    pub subnet_index: MemberMap,
    pub ram_bytes: usize,
    pub blocked_count: u64,
    pub traffic: TrafficCounters,
    pub total_inserts: u64,
    pub total_evictions: u64,
}

impl Store {
    /// The stored entries.
    pub open spec fn entries(&self) -> Map<IpAddr, EntryModel> {
        store_entries(self.inner)
    }

    /// The subnet window records.
    pub open spec fn subnets(&self) -> Map<u128, SubnetRecord> {
        subnet_records(self.subnet_table)
    }

    /// The subnet member index.
    pub open spec fn members(&self) -> Map<u128, Seq<IpAddr>> {
        subnet_members(self.subnet_index)
    }

    /// The running counters.
    pub open spec fn counts(&self) -> StoreCounts {
        StoreCounts {
            ram_bytes: self.ram_bytes,
            used_bytes: self.traffic.used_bytes,
            inserts: self.total_inserts,
            evictions: self.total_evictions,
            blocked: self.blocked_count,
        }
    }

    /// The bytes an existing entry under `key` accounts for (0 if none).
    pub open spec fn old_size(&self, key: IpAddr) -> usize {
        if self.entries().contains_key(key) {
            entry_size(self.entries()[key].value)
        } else {
            0
        }
    }

    /// The net growth of writing `v` under `key` (saturating at zero).
    pub open spec fn insert_growth(&self, key: IpAddr, v: ValueModel) -> usize {
        let size = entry_size(v);
        let old_size = self.old_size(key);
        if size >= old_size {
            (size - old_size) as usize
        } else {
            0
        }
    }

    /// Whether writing `v` under `key` is refused: the key is new and the
    /// growth would take the accounted bytes past `limit`.
    pub open spec fn insert_refused(&self, key: IpAddr, v: ValueModel, limit: usize) -> bool {
        !self.entries().contains_key(key) && self.counts().ram_bytes + self.insert_growth(key, v) > limit
    }

    /// An empty store whose address map has `shard_count` rounded up to a
    /// power of two shards.
    pub fn new(shard_count: usize) -> (r: Self)
        requires
            2 <= shard_count <= usize::MAX / 2 + 1,
        ensures
            r.entries().dom() == Set::<IpAddr>::empty(),
            r.subnets().dom() == Set::<u128>::empty(),
            r.members().dom() == Set::<u128>::empty(),
            r.counts() == (StoreCounts { ram_bytes: 0, used_bytes: 0, inserts: 0, evictions: 0, blocked: 0 }),
            r.traffic.wf(),
            r.traffic.threats() == Seq::<(IpAddr, u32)>::empty(),
            r.traffic.ram_limit_mb == 0,
            r.traffic.uptime_secs == 0,
    {
        let shards = crate::config::next_power_of_two(shard_count);
        proof {
            lemma_next_pow2_props(shard_count as nat, 1);
        }
        Store {
            inner: entries_new(shards),
            subnet_table: subnets_new(),
            subnet_index: members_new(),
            ram_bytes: 0,
            blocked_count: 0,
            traffic: TrafficCounters::new(),
            total_inserts: 0,
            total_evictions: 0,
        }
    }

    /// Insert or replace `key`'s value, expiring after `ttl_secs` from
    /// `now_ns`. Only net-new growth is held to `ram_limit_bytes`: when the
    /// key was absent and the accounted bytes plus the entry's size exceed
    /// the limit, the insert is rolled back and refused, leaving the store
    /// as it was; a replacement is never refused.
    pub fn insert(
        &mut self,
        key: IpAddr,
        value: Value,
        ttl_secs: Option<u64>,
        ram_limit_bytes: usize,
        now_ns: u64,
    ) -> (r: Result<(), RsError>)
        ensures
            ({
                let old_e = old(self).entries();
                let growth = old(self).insert_growth(key, value@);
                let was = old_e.contains_key(key) && blocked_value(old_e[key].value);
                let c = old(self).counts();
                if old(self).insert_refused(key, value@, ram_limit_bytes) {
                    &&& r == Err::<(), RsError>(
                        RsError::CapacityExceeded { limit_mb: (ram_limit_bytes / 1_048_576) as usize },
                    )
                    &&& final(self).entries() == old_e
                    &&& final(self).counts() == c
                } else {
                    &&& r is Ok
                    &&& final(self).entries() == old_e.insert(
                        key,
                        EntryModel { value: value@, expires_at_ns: expiry_ns(ttl_secs, now_ns) },
                    )
                    &&& final(self).counts() == (StoreCounts {
                        ram_bytes: wrapping_add_usize(c.ram_bytes, growth),
                        used_bytes: wrapping_add_u64(c.used_bytes, growth as u64),
                        inserts: wrapping_add_u64(c.inserts, 1),
                        evictions: c.evictions,
                        blocked: blocked_after(c.blocked, was, blocked_value(value@)),
                    })
                }
            }),
            final(self).traffic.wf() == old(self).traffic.wf(),
            final(self).traffic.window() == old(self).traffic.window(),
            final(self).traffic.threats() == old(self).traffic.threats(),
            final(self).traffic.ram_limit_mb == old(self).traffic.ram_limit_mb,
            final(self).traffic.uptime_secs == old(self).traffic.uptime_secs,
            final(self).traffic.events_last_second == old(self).traffic.events_last_second,
            final(self).traffic.unique_ips_window == old(self).traffic.unique_ips_window,
            final(self).traffic.promoted_ips == old(self).traffic.promoted_ips,
            final(self).subnets() == old(self).subnets(),
            final(self).members() == old(self).members(),
    {
        let expires_at_ns = match ttl_secs {
            Some(s) => Some(now_ns.saturating_add(sat_mul_u64(s, 1_000_000_000))),
            None => None,
        };
        let was_blocked = match entries_get(&self.inner, key) {
            Some(e) => e.value.is_blocked(),
            None => false,
        };
        let new_blocked = value.is_blocked();
        let size = entry_size_of(&value);
        let prev = entries_insert(&mut self.inner, key, Entry { value, expires_at_ns });
        let old_size: usize = match &prev {
            Some(o) => entry_size_of(&o.value),
            None => 0,
        };
        let net_growth = size.saturating_sub(old_size);
        if prev.is_none() && (self.ram_bytes as u128) + (net_growth as u128) > ram_limit_bytes as u128 {
            let _ = entries_remove(&mut self.inner, key);
            assert(self.entries() =~= old(self).entries());
            return Err(RsError::CapacityExceeded { limit_mb: ram_limit_bytes / (1024 * 1024) });
        }
        self.ram_bytes = self.ram_bytes.wrapping_add(net_growth);
        self.traffic.used_bytes = self.traffic.used_bytes.wrapping_add(net_growth as u64);
        self.total_inserts = self.total_inserts.wrapping_add(1);
        if !was_blocked && new_blocked {
            self.blocked_count = self.blocked_count.wrapping_add(1);
        } else if was_blocked && !new_blocked {
            self.blocked_count = self.blocked_count.wrapping_sub(1);
        }
        Ok(())
    }

    /// The value stored under `key`, unless absent or expired at `now_ns`.
    pub fn get(&self, key: IpAddr, now_ns: u64) -> (r: Option<Value>)
        ensures
            match r {
                Some(v) => self.entries().contains_key(key) && !expired_at(self.entries()[key], now_ns)
                    && v@ == self.entries()[key].value,
                None => !self.entries().contains_key(key) || expired_at(self.entries()[key], now_ns),
            },
    {
        match entries_get(&self.inner, key) {
            Some(e) => {
                if e.is_expired(now_ns) {
                    None
                } else {
                    Some(e.value)
                }
            },
            None => None,
        }
    }

    /// Remove `key`, accounting for the freed bytes; returns its value.
    pub fn remove(&mut self, key: IpAddr) -> (r: Option<Value>)
        ensures
            final(self).entries() == old(self).entries().remove(key),
            match r {
                Some(v) => old(self).entries().contains_key(key) && v@ == old(self).entries()[key].value
                    && final(self).counts() == counts_after_removal(old(self).counts(), v@),
                None => !old(self).entries().contains_key(key) && final(self).counts() == old(self).counts(),
            },
            final(self).traffic.wf() == old(self).traffic.wf(),
            final(self).traffic.window() == old(self).traffic.window(),
            final(self).traffic.threats() == old(self).traffic.threats(),
            final(self).traffic.ram_limit_mb == old(self).traffic.ram_limit_mb,
            final(self).traffic.uptime_secs == old(self).traffic.uptime_secs,
            final(self).subnets() == old(self).subnets(),
            final(self).members() == old(self).members(),
    {
        match entries_remove(&mut self.inner, key) {
            Some(e) => {
                self.account_removal(&e.value);
                Some(e.value)
            },
            None => None,
        }
    }

    fn account_removal(&mut self, v: &Value)
        ensures
            final(self).counts() == counts_after_removal(old(self).counts(), v@),
            final(self).inner == old(self).inner,
            final(self).subnet_table == old(self).subnet_table,
            final(self).subnet_index == old(self).subnet_index,
            final(self).traffic.wf() == old(self).traffic.wf(),
            final(self).traffic.window() == old(self).traffic.window(),
            final(self).traffic.threats() == old(self).traffic.threats(),
            final(self).traffic.ram_limit_mb == old(self).traffic.ram_limit_mb,
            final(self).traffic.uptime_secs == old(self).traffic.uptime_secs,
    {
        let freed = entry_size_of(v);
        self.ram_bytes = self.ram_bytes.wrapping_sub(freed);
        self.traffic.used_bytes = self.traffic.used_bytes.wrapping_sub(freed as u64);
        self.total_evictions = self.total_evictions.wrapping_add(1);
        if v.is_blocked() {
            self.blocked_count = self.blocked_count.wrapping_sub(1);
        }
    }

    /// Remove each of `keys` that is present and expired at `now_ns`.
    pub fn evict_batch(&mut self, keys: &[IpAddr], now_ns: u64)
        ensures
            (final(self).entries(), final(self).counts()) == evict_spec(
                old(self).entries(),
                old(self).counts(),
                keys@,
                now_ns,
            ),
            final(self).traffic.wf() == old(self).traffic.wf(),
            final(self).traffic.window() == old(self).traffic.window(),
            final(self).traffic.threats() == old(self).traffic.threats(),
            final(self).traffic.ram_limit_mb == old(self).traffic.ram_limit_mb,
            final(self).traffic.uptime_secs == old(self).traffic.uptime_secs,
            final(self).subnets() == old(self).subnets(),
            final(self).members() == old(self).members(),
    {
        let n = keys.len();
        let mut i: usize = 0;
        while i < n
            invariant
                n == keys@.len(),
                i <= n,
                (self.entries(), self.counts()) == evict_spec(
                    old(self).entries(),
                    old(self).counts(),
                    keys@.take(i as int),
                    now_ns,
                ),
                self.traffic.wf() == old(self).traffic.wf(),
                self.traffic.window() == old(self).traffic.window(),
                self.traffic.threats() == old(self).traffic.threats(),
                self.traffic.ram_limit_mb == old(self).traffic.ram_limit_mb,
                self.traffic.uptime_secs == old(self).traffic.uptime_secs,
                self.subnets() == old(self).subnets(),
                self.members() == old(self).members(),
            decreases n - i,
        {
            let key = keys[i];
            assert(keys@.take(i as int + 1).drop_last() =~= keys@.take(i as int));
            match entries_get(&self.inner, key) {
                Some(e) => {
                    if e.is_expired(now_ns) {
                        match entries_remove(&mut self.inner, key) {
                            Some(removed) => self.account_removal(&removed.value),
                            None => {},
                        }
                    }
                },
                None => {},
            }
            i = i + 1;
        }
        assert(keys@.take(n as int) =~= keys@);
    }

    /// The number of stored entries.
    pub fn len(&self) -> (r: usize)
        ensures
            r == self.entries().len(),
    {
        entries_len(&self.inner)
    }

    /// Whether the store holds no entry.
    pub fn is_empty(&self) -> (r: bool)
        ensures
            r == (self.entries().len() == 0),
    {
        entries_len(&self.inner) == 0
    }

    /// The accounted bytes.
    pub fn ram_bytes(&self) -> (r: usize)
        ensures
            r == self.ram_bytes,
    {
        self.ram_bytes
    }

    /// Aggregate statistics.
    pub fn get_stats(&self) -> (r: StoreStats)
        ensures
            r.ips_tracked == self.entries().len(),
            r.blocked == self.blocked_count,
            r.ram_bytes == self.ram_bytes,
            r.ram_limit_mb == self.traffic.ram_limit_mb,
            r.uptime_secs == self.traffic.uptime_secs,
            r.evictions == self.total_evictions,
    {
        StoreStats {
            ips_tracked: entries_len(&self.inner),
            blocked: self.blocked_count,
            ram_bytes: self.ram_bytes,
            ram_limit_mb: self.traffic.ram_limit_mb,
            uptime_secs: self.traffic.uptime_secs,
            evictions: self.total_evictions,
        }
    }

    /// Merge one flush window's subnet counters into `key`'s record (see
    /// `merge_subnet_window`), marking the IPv4 `members` when given.
    pub fn merge_subnet_window(
        &mut self,
        key: u128,
        net: IpNetwork,
        events: u32,
        members: Option<&[IpAddr]>,
        now_ns: u64,
    )
        ensures
            final(self).subnets().contains_key(key),
            final(self).subnets() == old(self).subnets().insert(key, final(self).subnets()[key]),
            window_merged(
                if old(self).subnets().contains_key(key) {
                    Some(old(self).subnets()[key])
                } else {
                    None
                },
                net,
                events,
                match members {
                    Some(m) => m@,
                    None => Seq::empty(),
                },
                now_ns,
                final(self).subnets()[key],
            ),
            final(self).entries() == old(self).entries(),
            final(self).members() == old(self).members(),
            final(self).counts() == old(self).counts(),
            final(self).traffic == old(self).traffic,
    {
        let existing = subnets_get(&self.subnet_table, key);
        let none: Vec<IpAddr> = Vec::new();
        let ms: &[IpAddr] = match members {
            Some(m) => m,
            None => none.as_slice(),
        };
        let rec = merge_subnet_window(existing, net, events, ms, now_ns);
        let _ = subnets_insert(&mut self.subnet_table, key, rec);
    }

    /// Clear `key`'s window counters and host bitmap, if it has a record.
    pub fn reset_subnet_window(&mut self, key: u128)
        ensures
            final(self).subnets().dom() == old(self).subnets().dom(),
            forall|k: u128|
                k != key && #[trigger] old(self).subnets().contains_key(k) ==> final(self).subnets()[k]
                    == old(self).subnets()[k],
            old(self).subnets().contains_key(key) ==> {
                let r = final(self).subnets()[key];
                let o = old(self).subnets()[key];
                &&& r.prefix == o.prefix
                &&& r.last_updated_ns == o.last_updated_ns
                &&& r.total_rps == 0
                &&& r.host_bitmap@ == seq![0u64, 0, 0, 0]
            },
            final(self).entries() == old(self).entries(),
            final(self).members() == old(self).members(),
            final(self).counts() == old(self).counts(),
    {
        match subnets_get(&self.subnet_table, key) {
            Some(mut e) => {
                e.total_rps = 0;
                e.host_bitmap = [0u64; 4];
                assert(e.host_bitmap@ =~= seq![0u64, 0, 0, 0]);
                let _ = subnets_insert(&mut self.subnet_table, key, e);
                assert(self.subnets().dom() =~= old(self).subnets().dom());
            },
            None => {},
        }
    }

    /// Record `ip` under `subnet_key` in the member index, or drop it (and
    /// the subnet once it has no members) when `is_removal`.
    pub fn update_subnet_index(&mut self, ip: IpAddr, subnet_key: Option<u128>, is_removal: bool)
        ensures
            final(self).members() == index_after(old(self).members(), ip, subnet_key, is_removal),
            final(self).entries() == old(self).entries(),
            final(self).subnets() == old(self).subnets(),
            final(self).counts() == old(self).counts(),
            final(self).traffic == old(self).traffic,
    {
        let sk = match subnet_key {
            Some(k) => k,
            None => {
                return;
            },
        };
        if is_removal {
            match members_get(&self.subnet_index, sk) {
                Some(cur) => {
                    let rest = remove_member(&cur, ip);
                    if rest.len() == 0 {
                        let _ = members_remove(&mut self.subnet_index, sk);
                    } else {
                        let _ = members_insert(&mut self.subnet_index, sk, rest);
                    }
                },
                None => {},
            }
        } else {
            let mut cur = match members_get(&self.subnet_index, sk) {
                Some(v) => v,
                None => Vec::new(),
            };
            let mut found = false;
            let n = cur.len();
            let mut i: usize = 0;
            while i < n
                invariant
                    n == cur@.len(),
                    i <= n,
                    found <==> exists|j: int| 0 <= j < i && cur@[j] == ip,
                decreases n - i,
            {
                if cur[i] == ip {
                    found = true;
                }
                i = i + 1;
            }
            if !found {
                cur.push(ip);
            }
            let _ = members_insert(&mut self.subnet_index, sk, cur);
        }
    }

    /// The addresses indexed under `subnet_key`.
    pub fn get_ips_in_subnet(&self, subnet_key: u128) -> (r: Vec<IpAddr>)
        ensures
            r@ == (if self.members().contains_key(subnet_key) {
                self.members()[subnet_key]
            } else {
                Seq::empty()
            }),
    {
        match members_get(&self.subnet_index, subnet_key) {
            Some(v) => v,
            None => Vec::new(),
        }
    }

    /// The block state of `key`'s address record, expired or not; `None`
    /// when the key holds no address record.
    pub fn record_state(&self, key: IpAddr) -> (r: Option<BlockState>)
        ensures
            r == (match self.entries().get(key) {
                Some(e) => match e.value {
                    ValueModel::IpRecord(rec) => Some(rec.block_state),
                    _ => None,
                },
                None => None,
            }),
    {
        match entries_get(&self.inner, key) {
            Some(e) => match e.value {
                Value::IpRecord(rec) => Some(rec.block_state),
                _ => None,
            },
            None => None,
        }
    }

    /// Every subnet record with its key, each once, in no stated order.
    pub fn subnet_records_list(&self) -> (r: Vec<(u128, SubnetRecord)>)
        ensures
            forall|i: int, j: int| 0 <= i < j < r@.len() ==> r@[i].0 != r@[j].0,
            forall|i: int|
                0 <= i < r@.len() ==> self.subnets().contains_key(#[trigger] r@[i].0) && r@[i].1
                    == self.subnets()[r@[i].0],
            forall|k: u128| #[trigger] self.subnets().contains_key(k) ==> exists|i: int|
                0 <= i < r@.len() && r@[i].0 == k,
    {
        subnets_items(&self.subnet_table)
    }

    /// Set the configured memory limit (in MB) the counters report.
    pub fn set_ram_limit_mb_for_testing(&mut self, mb: usize)
        ensures
            final(self).traffic.ram_limit_mb == mb,
            final(self).entries() == old(self).entries(),
            final(self).counts() == old(self).counts(),
    {
        self.traffic.ram_limit_mb = mb;
    }

    /// Overwrite the accounted bytes.
    pub fn set_ram_bytes_for_testing(&mut self, bytes: usize)
        ensures
            final(self).ram_bytes == bytes,
            final(self).entries() == old(self).entries(),
    {
        self.ram_bytes = bytes;
    }

    /// Every address whose record is not clean, each once, in no stated
    /// order.
    pub fn get_all_blocked_ips(&self) -> (r: Vec<IpAddr>)
        ensures
            forall|i: int, j: int| 0 <= i < j < r@.len() ==> r@[i] != r@[j],
            forall|k: IpAddr|
                r@.contains(k) <==> (self.entries().contains_key(k) && blocked_value(
                    self.entries()[k].value,
                )),
    {
        let items = entries_items(&self.inner);
        let mut out: Vec<IpAddr> = Vec::new();
        let n = items.len();
        let mut i: usize = 0;
        while i < n
            invariant
                n == items@.len(),
                i <= n,
                forall|a: int, b: int| 0 <= a < b < items@.len() ==> items@[a].0 != items@[b].0,
                forall|a: int|
                    0 <= a < items@.len() ==> self.entries().contains_key(#[trigger] items@[a].0)
                        && items@[a].1@ == self.entries()[items@[a].0],
                forall|a: int, b: int| 0 <= a < b < out@.len() ==> out@[a] != out@[b],
                forall|k: IpAddr|
                    out@.contains(k) <==> exists|a: int|
                        0 <= a < i && items@[a].0 == k && blocked_value(#[trigger] items@[a].1@.value),
            decreases n - i,
        {
            let ghost before = out@;
            if items[i].1.value.is_blocked() {
                out.push(items[i].0);
                proof {
                    assert forall|a: int, b: int| 0 <= a < b < out@.len() implies out@[a] != out@[b] by {
                        if b == out@.len() - 1 {
                            if out@[a] == out@[b] {
                                assert(before.contains(out@[a]));
                                let c = choose|c: int|
                                    0 <= c < i && items@[c].0 == out@[a] && blocked_value(
                                        #[trigger] items@[c].1@.value,
                                    );
                            }
                        }
                    }
                    assert forall|k: IpAddr| out@.contains(k) <==> exists|a: int|
                        0 <= a < i + 1 && items@[a].0 == k && blocked_value(
                            #[trigger] items@[a].1@.value,
                        ) by {
                        if out@.contains(k) {
                            let x = choose|x: int| 0 <= x < out@.len() && out@[x] == k;
                            if x < before.len() {
                                assert(before.contains(k));
                            }
                        }
                        if exists|a: int|
                            0 <= a < i + 1 && items@[a].0 == k && blocked_value(
                                #[trigger] items@[a].1@.value,
                            ) {
                            let a = choose|a: int|
                                0 <= a < i + 1 && items@[a].0 == k && blocked_value(
                                    #[trigger] items@[a].1@.value,
                                );
                            if a < i {
                                assert(before.contains(k));
                                let x = choose|x: int| 0 <= x < before.len() && before[x] == k;
                                assert(out@[x] == k);
                            } else {
                                assert(out@[before.len() as int] == k);
                            }
                        }
                    }
                }
            } else {
                proof {
                    assert forall|k: IpAddr| out@.contains(k) <==> exists|a: int|
                        0 <= a < i + 1 && items@[a].0 == k && blocked_value(
                            #[trigger] items@[a].1@.value,
                        ) by {
                        if exists|a: int|
                            0 <= a < i + 1 && items@[a].0 == k && blocked_value(
                                #[trigger] items@[a].1@.value,
                            ) {
                            let a = choose|a: int|
                                0 <= a < i + 1 && items@[a].0 == k && blocked_value(
                                    #[trigger] items@[a].1@.value,
                                );
                            assert(items@[i as int].1@.value == items@[i as int].1.value@);
                            assert(a < i);
                            assert(exists|a: int|
                                0 <= a < i && items@[a].0 == k && blocked_value(
                                    #[trigger] items@[a].1@.value,
                                ));
                        }
                        if out@.contains(k) {
                            let a = choose|a: int|
                                0 <= a < i && items@[a].0 == k && blocked_value(
                                    #[trigger] items@[a].1@.value,
                                );
                            assert(0 <= a < i + 1);
                        }
                    }
                }
            }
            i = i + 1;
        }
        proof {
            assert forall|k: IpAddr| out@.contains(k) <==> (self.entries().contains_key(k) && blocked_value(
                self.entries()[k].value,
            )) by {
                if self.entries().contains_key(k) && blocked_value(self.entries()[k].value) {
                    let a = choose|a: int| 0 <= a < items@.len() && items@[a].0 == k;
                    assert(blocked_value(items@[a].1@.value));
                }
            }
        }
        out
    }
}

/// Insert or replace `key`'s entry for a caller that already holds the
/// entry, accounting in the traffic counters' byte total: a replacement
/// adjusts it by the change in heap bytes and is never refused; a new key
/// is refused when the total plus the entry's size would exceed
/// `ram_limit_bytes`.
pub fn atomic_insert(store: &mut Store, key: IpAddr, entry: Entry, ram_limit_bytes: usize) -> (r: Result<(), RsError>)
    ensures
        ({
            let old_e = old(store).entries();
            let used = old(store).traffic.used_bytes;
            if old_e.contains_key(key) {
                let old_heap = heap_bytes_of(old_e[key].value);
                let new_heap = heap_bytes_of(entry.value@);
                &&& r is Ok
                &&& final(store).entries() == old_e.insert(key, entry@)
                &&& final(store).traffic.used_bytes == (if new_heap >= old_heap {
                    wrapping_add_u64(used, (new_heap - old_heap) as u64)
                } else {
                    wrapping_sub_u64(used, (old_heap - new_heap) as u64)
                })
            } else if used + entry_size(entry.value@) > ram_limit_bytes {
                &&& r == Err::<(), RsError>(
                    RsError::CapacityExceeded { limit_mb: (ram_limit_bytes / 1_048_576) as usize },
                )
                &&& final(store).entries() == old_e
                &&& final(store).traffic.used_bytes == used
            } else {
                &&& r is Ok
                &&& final(store).entries() == old_e.insert(key, entry@)
                &&& final(store).traffic.used_bytes == wrapping_add_u64(used, entry_size(entry.value@) as u64)
            }
        }),
        final(store).ram_bytes == old(store).ram_bytes,
        final(store).blocked_count == old(store).blocked_count,
        final(store).total_inserts == old(store).total_inserts,
        final(store).total_evictions == old(store).total_evictions,
        final(store).subnets() == old(store).subnets(),
        final(store).members() == old(store).members(),
        final(store).traffic.wf() == old(store).traffic.wf(),
{
    let size = entry_size_of(&entry.value);
    match entries_get(&store.inner, key) {
        Some(old) => {
            let old_heap = old.value.heap_bytes();
            let new_heap = entry.value.heap_bytes();
            let _ = entries_insert(&mut store.inner, key, entry);
            if new_heap >= old_heap {
                store.traffic.used_bytes = store.traffic.used_bytes.wrapping_add((new_heap - old_heap) as u64);
            } else {
                store.traffic.used_bytes = store.traffic.used_bytes.wrapping_sub((old_heap - new_heap) as u64);
            }
            Ok(())
        },
        None => {
            if (store.traffic.used_bytes as u128) + (size as u128) > ram_limit_bytes as u128 {
                return Err(RsError::CapacityExceeded { limit_mb: ram_limit_bytes / (1024 * 1024) });
            }
            store.traffic.used_bytes = store.traffic.used_bytes.wrapping_add(size as u64);
            let _ = entries_insert(&mut store.inner, key, entry);
            Ok(())
        },
    }
}

/// A write that is not refused is read back: right after storing `v`
/// under `key` with expiry `exp`, a read at any time not past `exp` finds
/// exactly `v`, and every other key reads as before.
pub proof fn lemma_write_then_read(
    e: Map<IpAddr, EntryModel>,
    key: IpAddr,
    v: ValueModel,
    exp: Option<u64>,
    now_ns: u64,
    other: IpAddr,
)
    requires
        match exp {
            Some(t) => now_ns <= t,
            None => true,
        },
        other != key,
    ensures
        ({
            let e2 = e.insert(key, EntryModel { value: v, expires_at_ns: exp });
            &&& e2.contains_key(key) && !expired_at(e2[key], now_ns) && e2[key].value == v
            &&& e2.get(other) == e.get(other)
        }),
{
}

/// A removed key reads as absent, and the other keys read as before.
pub proof fn lemma_remove_then_read(e: Map<IpAddr, EntryModel>, key: IpAddr, other: IpAddr)
    requires
        other != key,
    ensures
        !e.remove(key).contains_key(key),
        e.remove(key).get(other) == e.get(other),
{
}

/// Capacity is enforced on growth only: replacing a stored key is never
/// refused, whatever the limit.
pub proof fn lemma_replacement_never_refused(s: Store, key: IpAddr, v: ValueModel, limit: usize)
    requires
        s.entries().contains_key(key),
    ensures
        !s.insert_refused(key, v, limit),
{
}

/// The member index holds an address after it is added under a subnet,
/// and not after it is removed from it.
pub proof fn lemma_index_add_remove(m: Map<u128, Seq<IpAddr>>, ip: IpAddr, sk: u128)
    ensures
        index_after(m, ip, Some(sk), false).contains_key(sk),
        index_after(m, ip, Some(sk), false)[sk].contains(ip),
        index_after(m, ip, Some(sk), true).contains_key(sk) ==> !index_after(
            m,
            ip,
            Some(sk),
            true,
        )[sk].contains(ip),
{
    let cur = if m.contains_key(sk) {
        m[sk]
    } else {
        Seq::<IpAddr>::empty()
    };
    if !cur.contains(ip) {
        assert(cur.push(ip)[cur.len() as int] == ip);
    }
    if m.contains_key(sk) {
        lemma_without_member_excludes(m[sk], ip);
    }
}

/// The keys whose stored value is blocked.
pub open spec fn blocked_keys(e: Map<IpAddr, EntryModel>) -> Set<IpAddr> {
    e.dom().filter(|k: IpAddr| blocked_value(e[k].value))
}

/// The number of stored records that are blocked.
pub open spec fn blocked_tally(e: Map<IpAddr, EntryModel>) -> nat {
    blocked_keys(e).len()
}

/// An empty store counts no blocked records, as its blocked counter says.
pub proof fn lemma_empty_blocked_tally(e: Map<IpAddr, EntryModel>)
    requires
        e.dom() == Set::<IpAddr>::empty(),
    ensures
        e.dom().finite(),
        blocked_tally(e) == 0,
{
    assert(blocked_keys(e) =~= Set::<IpAddr>::empty());
}

/// The blocked counter keeps counting the blocked records across a write:
/// when it equals their number before an insert, the count that the insert
/// leaves (adjusted only on a transition of the key's blocked state) equals
/// their number after it.
pub proof fn lemma_insert_keeps_blocked_tally(
    e: Map<IpAddr, EntryModel>,
    count: u64,
    key: IpAddr,
    em: EntryModel,
)
    requires
        e.dom().finite(),
        count == blocked_tally(e),
        blocked_tally(e) < u64::MAX,
    ensures
        e.insert(key, em).dom().finite(),
        blocked_after(
            count,
            e.contains_key(key) && blocked_value(e[key].value),
            blocked_value(em.value),
        ) == blocked_tally(e.insert(key, em)),
{
    let e2 = e.insert(key, em);
    let b = blocked_keys(e);
    let b2 = blocked_keys(e2);
    e.dom().lemma_len_filter(|k: IpAddr| blocked_value(e[k].value));
    let was = e.contains_key(key) && blocked_value(e[key].value);
    let now = blocked_value(em.value);
    if now {
        assert(b2 =~= b.insert(key));
        if !was {
            assert(!b.contains(key));
            assert(wrapping_add_u64(count, 1) == count + 1);
        }
    } else {
        assert(b2 =~= b.remove(key));
        if was {
            assert(b.contains(key));
            assert(wrapping_sub_u64(count, 1) == count - 1);
        }
    }
}

/// Removing a record keeps the blocked counter counting the blocked records.
pub proof fn lemma_removal_keeps_blocked_tally(e: Map<IpAddr, EntryModel>, c: StoreCounts, key: IpAddr)
    requires
        e.dom().finite(),
        c.blocked == blocked_tally(e),
        e.contains_key(key),
    ensures
        e.remove(key).dom().finite(),
        counts_after_removal(c, e[key].value).blocked == blocked_tally(e.remove(key)),
{
    let b = blocked_keys(e);
    e.dom().lemma_len_filter(|k: IpAddr| blocked_value(e[k].value));
    assert(blocked_keys(e.remove(key)) =~= b.remove(key));
    if blocked_value(e[key].value) {
        assert(b.contains(key));
        assert(wrapping_sub_u64(c.blocked, 1) == c.blocked - 1);
    }
}

/// Evicting a batch keeps the blocked counter counting the blocked records.
pub proof fn lemma_evict_keeps_blocked_tally(
    e: Map<IpAddr, EntryModel>,
    c: StoreCounts,
    keys: Seq<IpAddr>,
    now_ns: u64,
)
    requires
        e.dom().finite(),
        c.blocked == blocked_tally(e),
    ensures
        evict_spec(e, c, keys, now_ns).0.dom().finite(),
        evict_spec(e, c, keys, now_ns).1.blocked == blocked_tally(evict_spec(e, c, keys, now_ns).0),
    decreases keys.len(),
{
    if keys.len() > 0 {
        lemma_evict_keeps_blocked_tally(e, c, keys.drop_last(), now_ns);
        let (e1, c1) = evict_spec(e, c, keys.drop_last(), now_ns);
        let k = keys.last();
        if e1.contains_key(k) && expired_at(e1[k], now_ns) {
            lemma_removal_keeps_blocked_tally(e1, c1, k);
        }
    }
}

/// Listing the blocked addresses (each once) gives as many as the blocked
/// counter counts, whenever the counter counts the blocked records.
pub proof fn lemma_blocked_list_matches_tally(e: Map<IpAddr, EntryModel>, r: Seq<IpAddr>)
    requires
        e.dom().finite(),
        forall|i: int, j: int| 0 <= i < j < r.len() ==> r[i] != r[j],
        forall|k: IpAddr| r.contains(k) <==> (e.contains_key(k) && blocked_value(e[k].value)),
    ensures
        r.len() == blocked_tally(e),
{
    assert(r.no_duplicates()) by {
        assert forall|i: int, j: int| 0 <= i < r.len() && 0 <= j < r.len() && i != j implies r[i] != r[j] by {
            if i > j {
                assert(r[j] != r[i]);
            }
        }
    }
    r.unique_seq_to_set();
    assert(r.to_set() =~= blocked_keys(e));
}

/// Adding an address to the member index keeps every membership it had.
pub proof fn lemma_index_add_keeps(m: Map<u128, Seq<IpAddr>>, ip: IpAddr, sk: u128, k: u128, x: IpAddr)
    requires
        m.contains_key(k),
        m[k].contains(x),
    ensures
        index_after(m, ip, Some(sk), false).contains_key(k),
        index_after(m, ip, Some(sk), false)[k].contains(x),
{
    if k == sk && !m[sk].contains(ip) {
        let w = choose|w: int| 0 <= w < m[k].len() && m[k][w] == x;
        assert(m[sk].push(ip)[w] == x);
    }
}

proof fn lemma_without_member_excludes(s: Seq<IpAddr>, ip: IpAddr)
    ensures
        !without_member(s, ip).contains(ip),
    decreases s.len(),
{
    if s.len() > 0 {
        lemma_without_member_excludes(s.drop_last(), ip);
        let r = without_member(s.drop_last(), ip);
        if s.last() != ip {
            assert forall|i: int| 0 <= i < r.push(s.last()).len() implies r.push(s.last())[i] != ip by {
                if i < r.len() {
                    assert(r[i] == r.push(s.last())[i]);
                }
            }
        }
    }
}

proof fn lemma_next_pow2_props(n: nat, p: nat)
    requires
        2 <= n,
        1 <= p,
        crate::config::is_pow2(p),
    ensures
        crate::config::pow2_at_least(n, p) > 1,
        crate::config::is_pow2(crate::config::pow2_at_least(n, p)),
    decreases (if p >= n {
        0
    } else {
        n - p
    }),
{
    if p < n {
        assert(crate::config::is_pow2(p * 2)) by {
            assert((p * 2) / 2 == p);
            assert((p * 2) % 2 == 0);
        }
        lemma_next_pow2_props(n, p * 2);
    }
}

} // verus!
