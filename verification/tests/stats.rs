use rpc_provider::{ProviderStats, MIN_SAMPLES_FOR_EMA};

/// Helper: record `count` identical samples to warm the EMA past the routing
/// threshold and onto a stable value.
fn warm_stats(stats: &mut ProviderStats, rtt_us: u64, count: u64) {
    for _ in 0..count {
        stats.record(rtt_us);
    }
}

#[test]
fn ema_converges_toward_true_value() {
    let mut stats = ProviderStats::new(20);
    warm_stats(&mut stats, 1000, 100);
    // With α ≈ 0.095 and 100 identical samples, the EMA sits right on the true
    // value: anything further than 5% off would be a real bug.
    let ema = stats.ema_rtt_us();
    let drift = ema.abs_diff(1000);
    assert!(drift <= 50, "EMA drifted {drift}µs from 1000µs");
    assert_eq!(stats.sample_count(), 100);
}

#[test]
fn ema_first_sample_seeds_exact_value() {
    // The series starts at the first sample instead of climbing from zero,
    // otherwise early routing decisions would penalise brand new providers.
    let mut stats = ProviderStats::new(20);
    stats.record(777);
    assert_eq!(stats.ema_rtt_us(), 777);
}

#[test]
fn ema_zero_window_is_clamped_safely() {
    // A caller-supplied zero window would have divided by zero; the constructor
    // clamps it to a 1-sample minimum.
    let mut stats = ProviderStats::new(0);
    stats.record(500);
    stats.record(1000);
    // Just ensure no panic and the EMA moved.
    assert!(stats.ema_rtt_us() > 0);
    assert_eq!(stats.sample_count(), 2);
}

#[test]
fn is_warmed_reflects_sample_count_threshold() {
    let mut stats = ProviderStats::new(20);
    assert!(!stats.is_warmed());
    for _ in 0..MIN_SAMPLES_FOR_EMA - 1 {
        stats.record(100);
    }
    assert!(
        !stats.is_warmed(),
        "{} samples is below threshold",
        stats.sample_count()
    );
    stats.record(100);
    assert!(
        stats.is_warmed(),
        "{} samples should be warmed",
        stats.sample_count()
    );
}

#[test]
fn fresh_stats_are_empty() {
    let stats = ProviderStats::new(20);
    assert_eq!(stats.ema_rtt_us(), 0);
    assert_eq!(stats.sample_count(), 0);
}

#[test]
fn second_sample_is_weighted_by_the_window() {
    // 2 / 21 is 95_238 millionths: 777 + 0.095238 * 1000, rounded down.
    let mut stats = ProviderStats::new(20);
    stats.record(777);
    stats.record(1777);
    assert_eq!(stats.ema_rtt_us(), 872);
    // Downwards the average is rounded down as well.
    stats.record(0);
    assert_eq!(stats.ema_rtt_us(), 788);
}

#[test]
fn window_of_one_keeps_only_the_newest_sample() {
    for window in [0, 1] {
        let mut stats = ProviderStats::new(window);
        stats.record(500);
        stats.record(1000);
        assert_eq!(stats.ema_rtt_us(), 1000);
        stats.record(3);
        assert_eq!(stats.ema_rtt_us(), 3);
    }
}

#[test]
fn smaller_windows_react_faster() {
    let mut quick = ProviderStats::new(4);
    let mut slow = ProviderStats::new(40);
    for stats in [&mut quick, &mut slow] {
        stats.record(1_000);
        stats.record(2_000);
    }
    assert_eq!(quick.ema_rtt_us(), 1_400);
    assert_eq!(slow.ema_rtt_us(), 1_048);
}

#[test]
fn huge_window_never_moves_off_the_first_sample() {
    let mut stats = ProviderStats::new(u32::MAX);
    stats.record(5);
    stats.record(1_000_000);
    assert_eq!(stats.ema_rtt_us(), 5);
}

#[test]
fn average_stays_between_old_average_and_sample() {
    let mut stats = ProviderStats::new(7);
    stats.record(10_000);
    for rtt in [1, 50_000, 9_999, 0, 123_456] {
        let before = stats.ema_rtt_us();
        stats.record(rtt);
        let after = stats.ema_rtt_us();
        assert!(before.min(rtt) <= after && after <= before.max(rtt));
    }
}

#[test]
fn average_reaches_a_lower_value_exactly_and_a_higher_one_within_a_step() {
    let mut stats = ProviderStats::new(20);
    stats.record(2_000);
    warm_stats(&mut stats, 1_000, 300);
    assert_eq!(stats.ema_rtt_us(), 1_000);
    warm_stats(&mut stats, 2_000, 300);
    // One step of 0.095238 of ten microseconds is less than one microsecond.
    assert_eq!(stats.ema_rtt_us(), 1_990);
}

#[test]
fn samples_that_would_overflow_are_not_accepted() {
    let mut stats = ProviderStats::new(20);
    assert!(stats.accepts(u64::MAX));
    stats.record(u64::MAX);
    assert!(!stats.accepts(0));
    let mut small = ProviderStats::new(20);
    small.record(1);
    assert!(small.accepts(18_446_744_073_709));
    assert!(small.accepts(193_691_006_464_947));
    assert!(!small.accepts(193_691_006_464_948));
    assert!(!small.accepts(u64::MAX));
}

#[test]
fn zero_average_needs_a_zero_sample() {
    let mut stats = ProviderStats::new(20);
    stats.record(1);
    for _ in 0..50 {
        stats.record(1);
        assert_eq!(stats.ema_rtt_us(), 1);
    }
    stats.record(0);
    assert_eq!(stats.ema_rtt_us(), 0);
}
