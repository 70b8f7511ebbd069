use ramshield::analytics::cms::DecayingCountMinSketch;
use ramshield::analytics::hll::SubnetHll;

#[test]
fn heap_allocated_no_stack_overflow() {
    let mut cms = DecayingCountMinSketch::new();
    cms.increment(42);
    assert_eq!(cms.estimate(42), 1);
    assert_eq!(cms.estimate(43), 0);
}

#[test]
fn decay_halves_counts() {
    let mut cms = DecayingCountMinSketch::new();
    for _ in 0..4 {
        cms.increment(7);
    }
    assert_eq!(cms.estimate(7), 4);
    cms.decay();
    assert_eq!(cms.estimate(7), 2);
}

#[test]
fn cms_inserted_since_decay_counts_and_resets() {
    let mut cms = DecayingCountMinSketch::new();
    cms.increment(1);
    cms.increment(2);
    cms.increment(1);
    assert_eq!(cms.inserted_since_decay(), 3);
    assert_eq!(cms.estimate(1), 2);
    cms.decay();
    assert_eq!(cms.inserted_since_decay(), 0);
    assert_eq!(cms.estimate(1), 1);
}

#[test]
fn cms_never_undercounts() {
    let mut cms = DecayingCountMinSketch::new();
    for k in 0..500u64 {
        for _ in 0..(k % 5) {
            cms.increment(k);
        }
    }
    for k in 0..500u64 {
        assert!(cms.estimate(k) >= k % 5);
    }
}

/// The HyperLogLog estimate, computed from the exact register sums the
/// library returns: `sum` is `Σ 2^(63 - r)` over the registers.
fn hll_estimate(hll: &SubnetHll) -> f64 {
    let (sum, zeros) = hll.register_sums();
    let sum_f = sum as f64 / 2f64.powi(63);
    let m = 1024.0;
    let alpha = 0.7213 / (1.0 + 1.079 / m);
    let raw = alpha * m * m / sum_f;
    if raw <= 2.5 * m && zeros > 0 {
        m * (m / zeros as f64).ln()
    } else {
        raw
    }
}

#[test]
fn test_hll_bounded_memory() {
    let mut hll = SubnetHll::new();
    let initial_size = std::mem::size_of_val(&hll);
    assert_eq!(initial_size, 1024, "HLL must be exactly 1024 bytes on stack");

    fn splitmix64(mut x: u64) -> u64 {
        x = x.wrapping_add(0x9E3779B97F4A7C15);
        x = (x ^ (x >> 30)).wrapping_mul(0xBF58476D1CE4E5B9);
        x = (x ^ (x >> 27)).wrapping_mul(0x94D049BB133111EB);
        x ^ (x >> 31)
    }

    for i in 0..1_000_000 {
        hll.insert(splitmix64(i as u64));
    }

    let estimate = hll_estimate(&hll);
    let error = (estimate - 1_000_000.0).abs() / 1_000_000.0;
    assert!(error < 0.05, "HLL error must be < 5%, got: {} (est={})", error, estimate);

    assert_eq!(std::mem::size_of_val(&hll), 1024, "Memory must not grow on heap");
}

#[test]
fn hll_empty_register_sums() {
    let hll = SubnetHll::new();
    let (sum, zeros) = hll.register_sums();
    assert_eq!(zeros, 1024);
    assert_eq!(sum, 1024u128 << 63);
}

#[test]
fn hll_insert_sets_rank_of_remaining_bits() {
    let mut hll = SubnetHll::new();
    // index 5, remaining bits ...100 → trailing zeros 2 → rank 3
    hll.insert((0b100 << 10) | 5);
    let (sum, zeros) = hll.register_sums();
    assert_eq!(zeros, 1023);
    assert_eq!(sum, (1023u128 << 63) + (1u128 << 60));
}
