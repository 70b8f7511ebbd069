//! IPC frame authentication: HMAC-SHA256 over `<ts_ms>.<payload>` with a
//! shared key, hex-encoded, checked with a constant-time comparison, and an
//! optional replay store that refuses a frame seen within its TTL.

use vstd::prelude::*;
use hmac::{Hmac, Mac};
use sha2::Sha256;
use vstd::string::StringSliceAdditionalSpecFns;
use crate::text::str_eq;
use crate::protocol::replay_store::{record_outcome, ReplayStore};
use crate::types::time::EpochMillis;

verus! {

/// Largest clock skew accepted between signer and verifier.
pub const MAX_CLOCK_SKEW_MS: u64 = 30_000;

/// HMAC-SHA256 of `msg` under `key`.
pub uninterp spec fn hmac_sha256_of(key: Seq<u8>, msg: Seq<u8>) -> Seq<u8>;

/// `Hmac::<Sha256>::new_from_slice(key)`, `update(msg)`, `finalize()`: the
/// 32-byte HMAC-SHA256 tag. HMAC takes keys of any length, so the keyed
/// constructor never fails. The contract names the tag; nothing more of
/// the hash is claimed.
#[verifier::external_body]
fn hmac_sha256(key: &[u8], msg: &[u8]) -> (r: Vec<u8>)
    ensures
        r@ == hmac_sha256_of(key@, msg@),
        r@.len() == 32,
{
    let mut mac = <Hmac<Sha256> as Mac>::new_from_slice(key).expect("any key length");
    mac.update(msg);
    mac.finalize().into_bytes().to_vec()
}

/// The lowercase hex digit of `n < 16`.
pub open spec fn hex_digit(n: nat) -> char {
    if n < 10 {
        ((48 + n) as u32) as char
    } else {
        ((87 + n) as u32) as char
    }
}

/// Lowercase hex text of bytes, two digits per byte.
pub open spec fn hex_text(s: Seq<u8>) -> Seq<char>
    decreases s.len(),
{
    if s.len() == 0 {
        Seq::empty()
    } else {
        hex_text(s.drop_last()) + seq![hex_digit((s.last() / 16) as nat), hex_digit((s.last() % 16) as nat)]
    }
}

/// `hex::encode`: the bytes as lowercase hex, two digits per byte.
#[verifier::external_body]
fn hex_encode(data: &[u8]) -> (r: String)
    ensures
        r@ == hex_text(data@),
{
    hex::encode(data)
}

/// The ASCII decimal text of `n`, as bytes.
pub open spec fn decimal_bytes(n: nat) -> Seq<u8>
    decreases n,
{
    if n < 10 {
        seq![(48 + n) as u8]
    } else {
        decimal_bytes(n / 10).push((48 + n % 10) as u8)
    }
}

/// The signed message: `<ts_ms>.<payload>`.
pub open spec fn signing_bytes(ts_ms: u64, payload: Seq<u8>) -> Seq<u8> {
    decimal_bytes(ts_ms as nat) + seq![46u8] + payload
}

fn push_decimal_bytes(out: &mut Vec<u8>, n: u64)
    ensures
        final(out)@ == old(out)@ + decimal_bytes(n as nat),
    decreases n,
{
    if n >= 10 {
        push_decimal_bytes(out, n / 10);
    }
    out.push((48 + n % 10) as u8);
    assert(out@ =~= old(out)@ + decimal_bytes(n as nat));
}

/// Build the signed message.
pub fn signing_message(ts_ms: u64, payload: &[u8]) -> (r: Vec<u8>)
    ensures
        r@ == signing_bytes(ts_ms, payload@),
{
    let mut out: Vec<u8> = Vec::new();
    push_decimal_bytes(&mut out, ts_ms);
    out.push(46u8);
    let n: usize = payload.len();
    let mut i: usize = 0;
    let ghost head = out@;
    while i < n
        invariant
            n == payload@.len(),
            i <= n,
            out@ == head + payload@.take(i as int),
        decreases n - i,
    {
        out.push(payload[i]);
        assert(payload@.take(i + 1) =~= payload@.take(i as int).push(payload@[i as int]));
        i = i + 1;
    }
    assert(payload@.take(n as int) =~= payload@);
    assert(out@ =~= signing_bytes(ts_ms, payload@));
    out
}

/// The hex signature of `payload` at `ts_ms` under `key`.
pub fn sign(key: &[u8], ts_ms: u64, payload: &[u8]) -> (r: String)
    ensures
        r@ == hex_text(hmac_sha256_of(key@, signing_bytes(ts_ms, payload@))),
{
    let msg = signing_message(ts_ms, payload);
    let tag = hmac_sha256(key, msg.as_slice());
    hex_encode(tag.as_slice())
}

/// The value of a hex digit byte, either case.
pub open spec fn hex_val(b: u8) -> Option<nat> {
    if 48 <= b <= 57 {
        Some((b - 48) as nat)
    } else if 97 <= b <= 102 {
        Some((b - 87) as nat)
    } else if 65 <= b <= 70 {
        Some((b - 55) as nat)
    } else {
        None
    }
}

/// What `u8::from_str_radix(pair, 16)` gives for a two-byte pair: two hex
/// digits, or a `+` sign and one digit.
pub open spec fn pair_val(b0: u8, b1: u8) -> Option<u8> {
    if b0 == 43 {
        match hex_val(b1) {
            Some(v) => Some(v as u8),
            None => None,
        }
    } else {
        match (hex_val(b0), hex_val(b1)) {
            (Some(h), Some(l)) => Some((16 * h + l) as u8),
            _ => None,
        }
    }
}

/// Whether every byte pair of `s` (from the start) is valid.
pub open spec fn pairs_valid(s: Seq<u8>) -> bool {
    forall|k: int| 0 <= k < s.len() / 2 ==> #[trigger] pair_val(s[2 * k], s[2 * k + 1]) is Some
}

/// The decoded bytes of an even-length text whose pairs are valid.
pub open spec fn pairs_decoded(s: Seq<u8>) -> Seq<u8> {
    Seq::new((s.len() / 2) as nat, |k: int| pair_val(s[2 * k], s[2 * k + 1])->Some_0)
}

/// What the hex decoder gives: `None` for odd lengths or any invalid pair.
pub open spec fn decode_hex_spec(s: Seq<u8>) -> Option<Seq<u8>> {
    if s.len() % 2 != 0 || !pairs_valid(s) {
        None
    } else {
        Some(pairs_decoded(s))
    }
}

fn hex_val_exec(b: u8) -> (r: Option<u8>)
    ensures
        r is Some <==> hex_val(b) is Some,
        r is Some ==> r->Some_0 == hex_val(b)->Some_0,
{
    if b >= 48 && b <= 57 {
        Some(b - 48)
    } else if b >= 97 && b <= 102 {
        Some(b - 87)
    } else if b >= 65 && b <= 70 {
        Some(b - 55)
    } else {
        None
    }
}

/// Decode hex text byte pair by byte pair, as `u8::from_str_radix(_, 16)`
/// reads each pair.
pub fn decode_hex(s: &str) -> (r: Option<Vec<u8>>)
    requires
        forall|i: int|
            0 <= i <= s.spec_bytes().len() && i % 2 == 0 ==> vstd::utf8::is_char_boundary(
                s.spec_bytes(),
                i,
            ),
    ensures
        r is Some <==> decode_hex_spec(s.spec_bytes()) is Some,
        r is Some ==> r->Some_0@ == decode_hex_spec(s.spec_bytes())->Some_0,
{
    let b = s.as_bytes();
    let n: usize = b.len();
    if n % 2 != 0 {
        return None;
    }
    let mut out: Vec<u8> = Vec::new();
    let mut k: usize = 0;
    while k < n / 2
        invariant
            n == b@.len(),
            b@ == s.spec_bytes(),
            n % 2 == 0,
            k <= n / 2,
            out@.len() == k,
            forall|j: int| 0 <= j < k ==> #[trigger] pair_val(b@[2 * j], b@[2 * j + 1]) is Some,
            forall|j: int| 0 <= j < k ==> out@[j] == pair_val(b@[2 * j], b@[2 * j + 1])->Some_0,
        decreases n / 2 - k,
    {
        let b0 = b[2 * k];
        let b1 = b[2 * k + 1];
        let v: Option<u8> = if b0 == 43 {
            hex_val_exec(b1)
        } else {
            match (hex_val_exec(b0), hex_val_exec(b1)) {
                (Some(h), Some(l)) => Some(16 * h + l),
                _ => None,
            }
        };
        match v {
            Some(x) => {
                assert(x == pair_val(b0, b1)->Some_0);
                out.push(x);
            },
            None => {
                assert(!pairs_valid(b@)) by {
                    assert(pair_val(b@[2 * k as int], b@[2 * k as int + 1]) is None);
                }
                return None;
            },
        }
        k = k + 1;
    }
    assert(out@ =~= pairs_decoded(b@));
    Some(out)
}

/// Whether two byte strings are equal, comparing every byte (no early exit
/// on the first difference).
pub fn ct_eq(a: &[u8], b: &[u8]) -> (r: bool)
    requires
        a@.len() == b@.len(),
    ensures
        r == (a@ == b@),
{
    let n: usize = a.len();
    let mut diff: u8 = 0;
    let mut i: usize = 0;
    while i < n
        invariant
            n == a@.len(),
            n == b@.len(),
            i <= n,
            (diff == 0) == (forall|j: int| 0 <= j < i ==> a@[j] == b@[j]),
        decreases n - i,
    {
        let x = a[i];
        let y = b[i];
        let d = diff | (x ^ y);
        assert((d == 0) == (diff == 0 && x == y)) by (bit_vector)
            requires
                d == diff | (x ^ y),
        ;
        diff = d;
        i = i + 1;
    }
    if diff == 0 {
        assert(a@ =~= b@);
    }
    diff == 0
}

/// The key registered under `id`: the first entry with that id.
pub open spec fn find_key(keys: Seq<(String, Vec<u8>)>, id: Seq<char>) -> Option<Seq<u8>>
    decreases keys.len(),
{
    if keys.len() == 0 {
        None
    } else if keys[0].0@ == id {
        Some(keys[0].1@)
    } else {
        find_key(keys.drop_first(), id)
    }
}

/// `|a - b|`.
pub open spec fn abs_diff(a: u64, b: u64) -> u64 {
    if a >= b {
        (a - b) as u64
    } else {
        (b - a) as u64
    }
}

/// The verdict on a signed frame at wall-clock `now_ms`, before any replay
/// check: the expected tag when the frame is authentic, else the reason.
pub open spec fn auth_verdict(
    keys: Seq<(String, Vec<u8>)>,
    key_id: Seq<char>,
    ts_ms: u64,
    sig: Seq<u8>,
    payload: Seq<u8>,
    now_ms: u64,
) -> Result<Seq<u8>, Seq<char>> {
    if abs_diff(ts_ms, now_ms) > MAX_CLOCK_SKEW_MS {
        Err("timestamp outside allowed skew window"@)
    } else {
        match find_key(keys, key_id) {
            None => Err("unknown key_id"@),
            Some(key) => {
                let expected = hmac_sha256_of(key, signing_bytes(ts_ms, payload));
                match decode_hex_spec(sig) {
                    None => Err("malformed signature"@),
                    Some(got) => if got.len() != expected.len() {
                        Err("signature length mismatch"@)
                    } else if got != expected {
                        Err("signature mismatch"@)
                    } else {
                        Ok(expected)
                    },
                }
            },
        }
    }
}

fn find_key_exec(keys: &[(String, Vec<u8>)], key_id: &str) -> (r: Option<usize>)
    ensures
        match r {
            Some(i) => i < keys@.len() && find_key(keys@, key_id@) == Some(keys@[i as int].1@),
            None => find_key(keys@, key_id@) is None,
        },
{
    let n: usize = keys.len();
    let mut i: usize = 0;
    assert(keys@.skip(0) =~= keys@);
    while i < n
        invariant
            n == keys@.len(),
            i <= n,
            find_key(keys@, key_id@) == find_key(keys@.skip(i as int), key_id@),
        decreases n - i,
    {
        assert(keys@.skip(i as int).drop_first() =~= keys@.skip(i + 1));
        if str_eq(keys[i].0.as_str(), key_id) {
            return Some(i);
        }
        i = i + 1;
    }
    None
}

/// Check a signed frame at wall-clock `now_ms`: the timestamp must be
/// within the skew window, the key id known, and the signature well-formed
/// hex of the right length, equal (compared in constant time) to the
/// expected tag, which is returned.
pub fn check_signature_at(
    keys: &[(String, Vec<u8>)],
    key_id: &str,
    ts_ms: u64,
    sig_hex: &str,
    payload: &[u8],
    now_ms: u64,
) -> (r: Result<Vec<u8>, &'static str>)
    requires
        forall|i: int|
            0 <= i <= sig_hex.spec_bytes().len() && i % 2 == 0 ==> vstd::utf8::is_char_boundary(
                sig_hex.spec_bytes(),
                i,
            ),
    ensures
        match auth_verdict(keys@, key_id@, ts_ms, sig_hex.spec_bytes(), payload@, now_ms) {
            Err(m) => r is Err && r->Err_0@ == m,
            Ok(expected) => r is Ok && r->Ok_0@ == expected,
        },
{
    let diff: u64 = if ts_ms >= now_ms {
        ts_ms - now_ms
    } else {
        now_ms - ts_ms
    };
    if diff > MAX_CLOCK_SKEW_MS {
        return Err("timestamp outside allowed skew window");
    }
    let idx = match find_key_exec(keys, key_id) {
        Some(i) => i,
        None => {
            return Err("unknown key_id");
        },
    };
    let msg = signing_message(ts_ms, payload);
    let expected = hmac_sha256(keys[idx].1.as_slice(), msg.as_slice());
    let got = match decode_hex(sig_hex) {
        Some(g) => g,
        None => {
            return Err("malformed signature");
        },
    };
    if got.len() != expected.len() {
        return Err("signature length mismatch");
    }
    if !ct_eq(got.as_slice(), expected.as_slice()) {
        return Err("signature mismatch");
    }
    Ok(expected)
}

/// Verify a signed frame at wall-clock `now_ms` (see `check_signature_at`);
/// with a replay store, an authentic frame's tag is then recorded under the
/// key id and a live duplicate refused as a replay.
pub fn verify_at(
    keys: &[(String, Vec<u8>)],
    key_id: &str,
    ts_ms: u64,
    sig_hex: &str,
    payload: &[u8],
    replay: Option<&mut ReplayStore>,
    now_ms: u64,
) -> (r: Result<(), &'static str>)
    requires
        forall|i: int|
            0 <= i <= sig_hex.spec_bytes().len() && i % 2 == 0 ==> vstd::utf8::is_char_boundary(
                sig_hex.spec_bytes(),
                i,
            ),
        match replay {
            Some(s) => s.wf(),
            None => true,
        },
    ensures
        match auth_verdict(keys@, key_id@, ts_ms, sig_hex.spec_bytes(), payload@, now_ms) {
            Err(m) => r is Err && r->Err_0@ == m,
            Ok(_) => if replay is None {
                r is Ok
            } else {
                r is Ok || (r is Err && r->Err_0@ == "replay"@)
            },
        },
        match replay {
            Some(s) => {
                &&& final(s).wf()
                &&& final(s).capacity() == s.capacity()
                &&& final(s).ttl() == s.ttl()
                &&& match auth_verdict(keys@, key_id@, ts_ms, sig_hex.spec_bytes(), payload@, now_ms) {
                    Err(_) => final(s).entries() == s.entries(),
                    Ok(tag) => exists|now: u64|
                        #[trigger] record_outcome(
                            s.entries(),
                            s.capacity() as nat,
                            s.ttl(),
                            key_id@,
                            tag,
                            now,
                            r,
                            final(s).entries(),
                        ),
                }
            },
            None => true,
        },
{
    let tag = match check_signature_at(keys, key_id, ts_ms, sig_hex, payload, now_ms) {
        Ok(t) => t,
        Err(m) => {
            return Err(m);
        },
    };
    match replay {
        Some(store) => {
            let r = store.check_and_record(key_id, tag.as_slice());
            r
        },
        None => Ok(()),
    }
}

/// Verify a signed frame against the wall clock.
pub fn verify(
    keys: &[(String, Vec<u8>)],
    key_id: &str,
    ts_ms: u64,
    sig_hex: &str,
    payload: &[u8],
    replay: Option<&mut ReplayStore>,
) -> (r: Result<(), &'static str>)
    requires
        forall|i: int|
            0 <= i <= sig_hex.spec_bytes().len() && i % 2 == 0 ==> vstd::utf8::is_char_boundary(
                sig_hex.spec_bytes(),
                i,
            ),
        match replay {
            Some(s) => s.wf(),
            None => true,
        },
    ensures
        exists|now_ms: u64|
            ({
                &&& match #[trigger] auth_verdict(keys@, key_id@, ts_ms, sig_hex.spec_bytes(), payload@, now_ms) {
                    Err(m) => r is Err && r->Err_0@ == m,
                    Ok(_) => replay is None ==> r is Ok,
                }
                &&& match replay {
                    Some(s) => {
                        &&& final(s).wf()
                        &&& final(s).capacity() == s.capacity()
                        &&& final(s).ttl() == s.ttl()
                        &&& match auth_verdict(keys@, key_id@, ts_ms, sig_hex.spec_bytes(), payload@, now_ms) {
                            Err(_) => final(s).entries() == s.entries(),
                            Ok(tag) => exists|now: u64|
                                #[trigger] record_outcome(
                                    s.entries(),
                                    s.capacity() as nat,
                                    s.ttl(),
                                    key_id@,
                                    tag,
                                    now,
                                    r,
                                    final(s).entries(),
                                ),
                        }
                    },
                    None => true,
                }
            }),
{
    let now = EpochMillis::now().0;
    let r = verify_at(keys, key_id, ts_ms, sig_hex, payload, replay, now);
    r
}

/// Skew law: the skew window is symmetric and 30 seconds wide on each side.
/// A frame stamped more than 30 000 ms ahead of the clock or more than
/// 30 000 ms behind it is refused for its timestamp, whatever its key and
/// signature; a verdict of authentic implies the stamp is within 30 000 ms
/// of the clock either way.
pub proof fn lemma_skew_window_is_symmetric(
    keys: Seq<(String, Vec<u8>)>,
    key_id: Seq<char>,
    ts_ms: u64,
    sig: Seq<u8>,
    payload: Seq<u8>,
    now_ms: u64,
)
    ensures
        (ts_ms > now_ms + 30_000 || now_ms > ts_ms + 30_000) ==> auth_verdict(
            keys,
            key_id,
            ts_ms,
            sig,
            payload,
            now_ms,
        ) == Err::<Seq<u8>, Seq<char>>("timestamp outside allowed skew window"@),
        auth_verdict(keys, key_id, ts_ms, sig, payload, now_ms) is Ok ==> now_ms - 30_000 <= ts_ms
            <= now_ms + 30_000,
{
}

/// Authenticity law: within the skew window, a frame is authentic exactly
/// when its key id names a key and its signature is the hex of the
/// HMAC-SHA-256, under that key, of the timestamp's decimal digits, a dot
/// and the payload; the verdict then carries that tag. An unknown key id is
/// refused as such.
pub proof fn lemma_authentic_means_signed(
    keys: Seq<(String, Vec<u8>)>,
    key_id: Seq<char>,
    ts_ms: u64,
    sig: Seq<u8>,
    payload: Seq<u8>,
    now_ms: u64,
)
    ensures
        ({
            let v = auth_verdict(keys, key_id, ts_ms, sig, payload, now_ms);
            let in_window = now_ms - 30_000 <= ts_ms <= now_ms + 30_000;
            &&& v is Ok <==> in_window && find_key(keys, key_id) is Some && decode_hex_spec(sig)
                == Some(
                hmac_sha256_of(
                    find_key(keys, key_id)->Some_0,
                    decimal_bytes(ts_ms as nat) + seq![46u8] + payload,
                ),
            )
            &&& v is Ok ==> v->Ok_0 == hmac_sha256_of(
                find_key(keys, key_id)->Some_0,
                decimal_bytes(ts_ms as nat) + seq![46u8] + payload,
            )
            &&& in_window && find_key(keys, key_id) is None ==> v == Err::<Seq<u8>, Seq<char>>(
                "unknown key_id"@,
            )
        }),
{
}

} // verus!
