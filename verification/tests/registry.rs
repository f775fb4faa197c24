use rpc_provider::{
    FailureNote, ProbeError, ProviderRegistry, RpcProvider, CIRCUIT_BREAKER_COOLDOWN_NANOS,
    CIRCUIT_BREAKER_THRESHOLD, MIN_SAMPLES_FOR_EMA,
};

fn make_provider(name: &str, url: &str) -> RpcProvider {
    RpcProvider {
        name: name.to_string(),
        url: url.to_string(),
        auth_header: None,
        auth_value: None,
    }
}

fn make_provider_with_auth(name: &str, url: &str) -> RpcProvider {
    RpcProvider {
        name: name.to_string(),
        url: url.to_string(),
        auth_header: Some("X-API-Key".to_string()),
        auth_value: Some("secret-key-123".to_string()),
    }
}

/// A registry of three providers: "a", "b" and "c".
fn three() -> ProviderRegistry {
    ProviderRegistry::new(vec![
        make_provider("a", "http://a.test"),
        make_provider("b", "http://b.test"),
        make_provider("c", "http://c.test"),
    ])
}

fn healthy_names_at(registry: &ProviderRegistry, now: u128) -> Vec<String> {
    registry
        .healthy_providers_at(now)
        .iter()
        .map(|p| p.name.clone())
        .collect()
}

fn ordered_names_at(registry: &mut ProviderRegistry, now: u128) -> Vec<String> {
    registry
        .providers_by_latency_at(now)
        .iter()
        .map(|p| p.name.clone())
        .collect()
}

#[test]
fn test_all_providers_healthy_initially() {
    let registry = ProviderRegistry::new(vec![
        make_provider("a", "http://a.test"),
        make_provider("b", "http://b.test"),
    ]);
    let healthy = registry.healthy_providers();
    assert_eq!(healthy.len(), 2);
    assert_eq!(healthy[0].url, "http://a.test");
    assert_eq!(healthy[1].url, "http://b.test");
}

#[test]
fn test_circuit_breaker_trips_after_threshold() {
    let mut registry = ProviderRegistry::new(vec![
        make_provider("a", "http://a.test"),
        make_provider("b", "http://b.test"),
    ]);

    // Simulate 3 consecutive failures on provider "a"
    for _ in 0..CIRCUIT_BREAKER_THRESHOLD {
        registry.report_failure("http://a.test");
    }

    let healthy = registry.healthy_providers();
    assert_eq!(healthy.len(), 1);
    assert_eq!(healthy[0].url, "http://b.test");
}

#[test]
fn test_success_resets_failure_counter() {
    let mut registry = ProviderRegistry::new(vec![make_provider("a", "http://a.test")]);

    // Two failures, then a success
    registry.report_failure("http://a.test");
    registry.report_failure("http://a.test");
    registry.report_success("http://a.test");

    // Should still be healthy (counter reset before threshold)
    let healthy = registry.healthy_providers();
    assert_eq!(healthy.len(), 1);
}

#[test]
fn test_success_clears_tripped_state() {
    let mut registry = ProviderRegistry::new(vec![make_provider("a", "http://a.test")]);

    // Trip the breaker
    for _ in 0..CIRCUIT_BREAKER_THRESHOLD {
        registry.report_failure("http://a.test");
    }
    assert_eq!(registry.healthy_providers().len(), 0);

    // Report success (simulating health check recovery)
    registry.report_success("http://a.test");
    assert_eq!(registry.healthy_providers().len(), 1);
}

#[test]
fn test_is_retryable_status() {
    assert!(ProviderRegistry::is_retryable_status(429));
    assert!(ProviderRegistry::is_retryable_status(500));
    assert!(ProviderRegistry::is_retryable_status(502));
    assert!(ProviderRegistry::is_retryable_status(503));
    assert!(!ProviderRegistry::is_retryable_status(200));
    assert!(!ProviderRegistry::is_retryable_status(400));
    assert!(!ProviderRegistry::is_retryable_status(404));
}

#[test]
fn retryable_statuses_start_at_500() {
    assert!(!ProviderRegistry::is_retryable_status(428));
    assert!(!ProviderRegistry::is_retryable_status(430));
    assert!(!ProviderRegistry::is_retryable_status(499));
    assert!(ProviderRegistry::is_retryable_status(599));
}

#[test]
fn statuses_beyond_the_five_hundreds_are_not_retryable() {
    assert!(!ProviderRegistry::is_retryable_status(600));
    assert!(!ProviderRegistry::is_retryable_status(65_535));
}

#[test]
fn test_report_failure_unknown_url_is_noop() {
    let mut registry = ProviderRegistry::new(vec![make_provider("a", "http://a.test")]);
    registry.report_failure("http://unknown.test");
    assert_eq!(registry.healthy_providers().len(), 1);
}

#[test]
fn test_provider_with_auth_headers() {
    let provider = make_provider_with_auth("authed", "http://authed.test");
    assert_eq!(provider.auth_header.as_deref(), Some("X-API-Key"));
    assert_eq!(provider.auth_value.as_deref(), Some("secret-key-123"));

    let registry = ProviderRegistry::new(vec![provider]);
    let healthy = registry.healthy_providers();
    assert_eq!(healthy.len(), 1);
    assert_eq!(healthy[0].auth_header.as_deref(), Some("X-API-Key"));
}

#[test]
fn test_priority_order_preserved() {
    let registry = ProviderRegistry::new(vec![
        make_provider("primary", "http://primary.test"),
        make_provider("secondary", "http://secondary.test"),
        make_provider("tertiary", "http://tertiary.test"),
    ]);
    let healthy = registry.healthy_providers();
    assert_eq!(healthy[0].name, "primary");
    assert_eq!(healthy[1].name, "secondary");
    assert_eq!(healthy[2].name, "tertiary");
}

#[test]
fn providers_by_latency_picks_fastest_once_warm() {
    let mut registry = ProviderRegistry::new(vec![
        make_provider("slow", "http://slow.test"),
        make_provider("fast", "http://fast.test"),
    ]);
    // Warm both with very different latencies.
    for _ in 0..MIN_SAMPLES_FOR_EMA {
        registry.record_rtt("http://slow.test", 500_000);
        registry.record_rtt("http://fast.test", 50_000);
    }
    let ordered = registry.providers_by_latency();
    assert_eq!(ordered.len(), 2);
    assert_eq!(ordered[0].name, "fast");
    assert_eq!(ordered[1].name, "slow");
}

#[test]
fn providers_by_latency_round_robins_before_warmup() {
    let mut registry = ProviderRegistry::new(vec![
        make_provider("a", "http://a.test"),
        make_provider("b", "http://b.test"),
    ]);
    // Neither provider has any samples → round-robin fallback.
    let first = registry.providers_by_latency();
    let second = registry.providers_by_latency();
    assert_eq!(first.len(), 2);
    assert_eq!(second.len(), 2);
    // The cursor rotates by one each call, so the head differs.
    assert_ne!(first[0].name, second[0].name);
}

#[test]
fn providers_by_latency_excludes_unhealthy_providers() {
    let mut registry = ProviderRegistry::new(vec![
        make_provider("fast-but-down", "http://fast-down.test"),
        make_provider("slow-but-up", "http://slow-up.test"),
    ]);
    // Fast provider has the best EMA but we trip its breaker.
    for _ in 0..MIN_SAMPLES_FOR_EMA {
        registry.record_rtt("http://fast-down.test", 10_000);
        registry.record_rtt("http://slow-up.test", 500_000);
    }
    for _ in 0..CIRCUIT_BREAKER_THRESHOLD {
        registry.report_failure("http://fast-down.test");
    }
    let ordered = registry.providers_by_latency();
    assert_eq!(ordered.len(), 1);
    assert_eq!(ordered[0].name, "slow-but-up");
}

#[test]
fn providers_by_latency_empty_when_all_unhealthy() {
    let mut registry = ProviderRegistry::new(vec![
        make_provider("a", "http://a.test"),
        make_provider("b", "http://b.test"),
    ]);
    for _ in 0..CIRCUIT_BREAKER_THRESHOLD {
        registry.report_failure("http://a.test");
        registry.report_failure("http://b.test");
    }
    assert!(registry.providers_by_latency().is_empty());
}

#[test]
fn record_rtt_for_unknown_url_is_noop() {
    // No panic, no sample recorded.
    let mut registry = ProviderRegistry::new(vec![make_provider("a", "http://a.test")]);
    registry.record_rtt("http://unknown.test", 100);
    let snap = registry.stats_snapshot();
    assert_eq!(snap.len(), 1);
    assert_eq!(snap[0].sample_count, 0);
}

#[test]
fn stats_snapshot_reflects_recorded_samples() {
    let mut registry = ProviderRegistry::new(vec![
        make_provider("a", "http://a.test"),
        make_provider("b", "http://b.test"),
    ]);
    for _ in 0..5 {
        registry.record_rtt("http://a.test", 1_000);
    }
    registry.record_rtt("http://b.test", 10_000);

    let snap = registry.stats_snapshot();
    let a = snap.iter().find(|s| s.name == "a").unwrap();
    let b = snap.iter().find(|s| s.name == "b").unwrap();
    assert_eq!(a.sample_count, 5);
    assert_eq!(b.sample_count, 1);
    // EMA for `a` converged to 1_000; `b` seeded at 10_000.
    assert_eq!(a.ema_rtt_us, 1_000);
    assert_eq!(b.ema_rtt_us, 10_000);
}

// ── Breaker ───────────────────────────────────────────────────────────────

#[test]
fn tripped_provider_returns_exactly_after_the_cooldown() {
    let mut registry = three();
    for now in [5, 6, 7] {
        registry.report_failure_at("http://b.test", now);
    }
    let back = 7 + CIRCUIT_BREAKER_COOLDOWN_NANOS;
    assert_eq!(CIRCUIT_BREAKER_COOLDOWN_NANOS, 5 * 60 * 1_000_000_000);
    assert_eq!(healthy_names_at(&registry, 7), ["a", "c"]);
    assert_eq!(healthy_names_at(&registry, back - 1), ["a", "c"]);
    assert_eq!(healthy_names_at(&registry, back), ["a", "b", "c"]);
    // A moment before the trip is no elapsed time at all.
    assert_eq!(healthy_names_at(&registry, 0), ["a", "c"]);
}

#[test]
fn failure_after_the_cooldown_trips_again_at_once() {
    let mut registry = three();
    for _ in 0..CIRCUIT_BREAKER_THRESHOLD {
        registry.report_failure_at("http://a.test", 0);
    }
    let back = CIRCUIT_BREAKER_COOLDOWN_NANOS;
    assert_eq!(healthy_names_at(&registry, back), ["a", "b", "c"]);
    let note = registry.report_failure_at("http://a.test", back);
    assert_eq!(note, Some(FailureNote { failures: 4, newly_tripped: false }));
    assert_eq!(healthy_names_at(&registry, back), ["b", "c"]);
    assert_eq!(
        healthy_names_at(&registry, back + CIRCUIT_BREAKER_COOLDOWN_NANOS),
        ["a", "b", "c"]
    );
}

#[test]
fn failures_are_told_about() {
    let mut registry = three();
    let notes: Vec<_> = (0..4)
        .map(|now| registry.report_failure_at("http://c.test", now).unwrap())
        .collect();
    let failures: Vec<_> = notes.iter().map(|n| n.failures).collect();
    let tripped: Vec<_> = notes.iter().map(|n| n.newly_tripped).collect();
    assert_eq!(failures, [1, 2, 3, 4]);
    assert_eq!(tripped, [false, false, true, false]);
    assert_eq!(registry.report_failure_at("http://unknown.test", 9), None);
    assert!(registry.can_fail("http://c.test"));
    assert!(registry.can_fail("http://unknown.test"));
}

#[test]
fn reports_go_to_the_first_provider_with_the_url() {
    let mut registry = ProviderRegistry::new(vec![
        make_provider("first", "http://same.test"),
        make_provider("second", "http://same.test"),
    ]);
    assert_eq!(registry.find_by_url("http://same.test"), Some(0));
    assert_eq!(registry.find_by_url("http://other.test"), None);
    registry.record_rtt("http://same.test", 9);
    for _ in 0..CIRCUIT_BREAKER_THRESHOLD {
        registry.report_failure_at("http://same.test", 0);
    }
    assert_eq!(healthy_names_at(&registry, 1), ["second"]);
    let counts: Vec<_> = registry.stats_snapshot().iter().map(|s| s.sample_count).collect();
    assert_eq!(counts, [1, 0]);
}

#[test]
fn failures_leave_latency_alone_and_samples_leave_health_alone() {
    let mut registry = three();
    registry.record_rtt("http://a.test", 40);
    for _ in 0..CIRCUIT_BREAKER_THRESHOLD {
        registry.report_failure_at("http://a.test", 0);
    }
    assert_eq!(registry.stats_snapshot()[0].ema_rtt_us, 40);
    registry.record_rtt("http://a.test", 40);
    assert_eq!(healthy_names_at(&registry, 1), ["b", "c"]);
    registry.report_success("http://a.test");
    assert_eq!(registry.stats_snapshot()[0].sample_count, 2);
    assert_eq!(registry.provider(0).name, "a");
    assert_eq!(registry.stats(0).ema_rtt_us(), 40);
    assert_eq!(registry.len(), 3);
}

#[test]
fn samples_that_would_overflow_are_turned_down() {
    let mut registry = three();
    assert!(registry.accepts_rtt("http://a.test", u64::MAX));
    registry.record_rtt("http://a.test", u64::MAX);
    assert!(!registry.accepts_rtt("http://a.test", 1));
    assert!(registry.accepts_rtt("http://b.test", 1));
    assert!(registry.accepts_rtt("http://unknown.test", u64::MAX));
}

// ── Routing ───────────────────────────────────────────────────────────────

#[test]
fn round_robin_gives_everyone_a_turn() {
    let mut registry = three();
    assert_eq!(ordered_names_at(&mut registry, 0), ["a", "b", "c"]);
    assert_eq!(ordered_names_at(&mut registry, 0), ["b", "c", "a"]);
    assert_eq!(ordered_names_at(&mut registry, 0), ["c", "a", "b"]);
    assert_eq!(ordered_names_at(&mut registry, 0), ["a", "b", "c"]);
}

#[test]
fn one_cold_provider_keeps_the_round_robin() {
    let mut registry = three();
    for _ in 0..MIN_SAMPLES_FOR_EMA {
        registry.record_rtt("http://a.test", 300);
        registry.record_rtt("http://b.test", 100);
    }
    for _ in 0..MIN_SAMPLES_FOR_EMA - 1 {
        registry.record_rtt("http://c.test", 200);
    }
    assert_eq!(ordered_names_at(&mut registry, 0), ["a", "b", "c"]);
    assert_eq!(ordered_names_at(&mut registry, 0), ["b", "c", "a"]);
    registry.record_rtt("http://c.test", 200);
    assert_eq!(ordered_names_at(&mut registry, 0), ["b", "c", "a"]);
    assert_eq!(ordered_names_at(&mut registry, 0), ["b", "c", "a"]);
    // Latency did not move the cursor: the round goes on where it stood.
    for _ in 0..CIRCUIT_BREAKER_THRESHOLD {
        registry.report_failure_at("http://b.test", 0);
    }
    assert_eq!(ordered_names_at(&mut registry, 1), ["c", "a"]);
}

#[test]
fn cold_providers_out_of_the_pool_do_not_hold_up_latency() {
    let mut registry = three();
    for _ in 0..MIN_SAMPLES_FOR_EMA {
        registry.record_rtt("http://a.test", 300);
        registry.record_rtt("http://b.test", 100);
    }
    for _ in 0..CIRCUIT_BREAKER_THRESHOLD {
        registry.report_failure_at("http://c.test", 0);
    }
    assert_eq!(ordered_names_at(&mut registry, 1), ["b", "a"]);
    // Back from its cooldown, the cold provider starts the round-robin.
    let back = CIRCUIT_BREAKER_COOLDOWN_NANOS;
    assert_eq!(ordered_names_at(&mut registry, back), ["a", "b", "c"]);
}

#[test]
fn equal_latencies_keep_the_priority_order() {
    let mut registry = ProviderRegistry::new(vec![
        make_provider("a", "http://a.test"),
        make_provider("b", "http://b.test"),
        make_provider("c", "http://c.test"),
        make_provider("d", "http://d.test"),
        make_provider("e", "http://e.test"),
    ]);
    for _ in 0..MIN_SAMPLES_FOR_EMA {
        registry.record_rtt("http://a.test", 20);
        registry.record_rtt("http://b.test", 10);
        registry.record_rtt("http://c.test", 20);
        registry.record_rtt("http://d.test", 10);
        registry.record_rtt("http://e.test", 5);
    }
    assert_eq!(
        ordered_names_at(&mut registry, 0),
        ["e", "b", "d", "a", "c"]
    );
}

#[test]
fn empty_registry_has_nobody_to_offer() {
    let mut registry = ProviderRegistry::new(vec![]);
    assert_eq!(registry.len(), 0);
    assert!(registry.healthy_providers().is_empty());
    assert!(registry.providers_by_latency().is_empty());
    assert!(registry.stats_snapshot().is_empty());
}

#[test]
fn ordered_providers_keep_their_authentication() {
    let mut registry =
        ProviderRegistry::new(vec![make_provider_with_auth("authed", "http://authed.test")]);
    let ordered = registry.providers_by_latency();
    assert_eq!(ordered[0].url, "http://authed.test");
    assert_eq!(ordered[0].auth_header.as_deref(), Some("X-API-Key"));
    assert_eq!(ordered[0].auth_value.as_deref(), Some("secret-key-123"));
}

// ── Health checks ─────────────────────────────────────────────────────────

#[test]
fn successful_probe_clears_the_trip_and_notes_the_ledger() {
    let mut registry = three();
    for _ in 0..CIRCUIT_BREAKER_THRESHOLD {
        registry.report_failure_at("http://b.test", 0);
    }
    assert_eq!(registry.latest_ledger(1), 0);
    assert_eq!(registry.record_probe_at(1, &Ok(4_711), 1), None);
    assert_eq!(registry.latest_ledger(1), 4_711);
    assert_eq!(healthy_names_at(&registry, 1), ["a", "b", "c"]);
    // The counter starts over as well.
    let note = registry.record_probe(1, &Err(ProbeError::Timeout));
    assert_eq!(note, Some(FailureNote { failures: 1, newly_tripped: false }));
    assert_eq!(registry.latest_ledger(1), 4_711);
}

#[test]
fn failed_probes_and_failed_requests_add_up() {
    let mut registry = three();
    registry.report_failure_at("http://c.test", 1);
    registry.record_probe_at(2, &Err(ProbeError::Status(503)), 2);
    assert!(registry.can_fail_probe(2));
    let note = registry.record_probe_at(2, &Err(ProbeError::MissingSequence), 3);
    assert_eq!(note, Some(FailureNote { failures: 3, newly_tripped: true }));
    assert_eq!(healthy_names_at(&registry, 3), ["a", "b"]);
    assert_eq!(
        healthy_names_at(&registry, 3 + CIRCUIT_BREAKER_COOLDOWN_NANOS),
        ["a", "b", "c"]
    );
}
