//! What the functions that change something leave behind, from their arguments and
//! what was there before.
//!
//! Each law takes a statistics or registry value on which the function may have
//! been called, and says what it holds afterwards. Provider `i` is the first whose
//! URL is the one reported on.
use vstd::prelude::*;

use crate::health::FailureNote;
use crate::probe::ProbeError;
use crate::provider::RpcProvider;
use crate::registry::ProviderRegistry;
use crate::stats::ProviderStats;

verus! {

/// Recording a sample counts it once. A first sample is the average; a later one
/// weighs exactly the smoothing factor, rounded down.
pub proof fn law_after_record(stats: &mut ProviderStats, rtt_us: u64)
    requires
        call_ensures(ProviderStats::record, (stats, rtt_us), ()),
        old(stats)@.valid(),
    ensures
        ({
            let before = old(stats)@;
            let after = final(stats)@;
            let weighed = before.alpha_millionths * rtt_us + (1_000_000 - before.alpha_millionths)
                * before.ema_rtt_us;
            &&& after.alpha_millionths == before.alpha_millionths
            &&& after.sample_count == (if before.sample_count == 0xffff_ffff_ffff_ffff {
                0
            } else {
                before.sample_count + 1
            })
            &&& before.sample_count == 0 ==> after.ema_rtt_us == rtt_us
            &&& before.sample_count > 0 ==> 1_000_000 * after.ema_rtt_us <= weighed < 1_000_000 * (
            after.ema_rtt_us + 1)
        }),
{
    crate::stats_behaviour::law_each_sample_counts_once(old(stats)@, rtt_us as int);
    if old(stats)@.sample_count > 0 {
        crate::stats_behaviour::law_newest_sample_weighs_the_factor(old(stats)@, rtt_us as int);
    }
}

/// A latency report counts once at its provider, however many came before, and
/// weighs exactly the smoothing factor; nothing else changes.
pub proof fn law_after_record_rtt(registry: &mut ProviderRegistry, url: &str, rtt_us: u64, i: int)
    requires
        call_ensures(ProviderRegistry::record_rtt, (registry, url, rtt_us), ()),
        old(registry)@.valid(),
        0 <= i < old(registry)@.states.len(),
        old(registry)@.states[i].provider.url == url@,
        forall|j: int| 0 <= j < i ==> (#[trigger] old(registry)@.states[j]).provider.url != url@,
    ensures
        final(registry)@.cursor == old(registry)@.cursor,
        final(registry)@.states.len() == old(registry)@.states.len(),
        forall|j: int|
            0 <= j < old(registry)@.states.len() && j != i ==> #[trigger] final(registry)@.states[j]
                == old(registry)@.states[j],
        ({
            let before = old(registry)@.states[i];
            let after = final(registry)@.states[i];
            let alpha = before.stats.alpha_millionths;
            let weighed = alpha * rtt_us + (1_000_000 - alpha) * before.stats.ema_rtt_us;
            &&& after.stats.alpha_millionths == alpha
            &&& after.stats.sample_count == (if before.stats.sample_count
                == 0xffff_ffff_ffff_ffff {
                0
            } else {
                before.stats.sample_count + 1
            })
            &&& before.stats.sample_count == 0 ==> after.stats.ema_rtt_us == rtt_us
            &&& before.stats.sample_count > 0 ==> 1_000_000 * after.stats.ema_rtt_us <= weighed
                < 1_000_000 * (after.stats.ema_rtt_us + 1)
            &&& after.provider == before.provider
            &&& after.consecutive_failures == before.consecutive_failures
            &&& after.tripped_at == before.tripped_at
            &&& after.latest_ledger == before.latest_ledger
        }),
{
    crate::pool_behaviour::law_sample_counts_at_its_provider(
        old(registry)@,
        url@,
        i,
        rtt_us as int,
    );
}

/// A reported success leaves its provider with no failures in a row and a closed
/// breaker, whatever they were; nothing else changes.
pub proof fn law_after_report_success(registry: &mut ProviderRegistry, url: &str, i: int)
    requires
        call_ensures(ProviderRegistry::report_success, (registry, url), ()),
        0 <= i < old(registry)@.states.len(),
        old(registry)@.states[i].provider.url == url@,
        forall|j: int| 0 <= j < i ==> (#[trigger] old(registry)@.states[j]).provider.url != url@,
    ensures
        final(registry)@.cursor == old(registry)@.cursor,
        final(registry)@.states.len() == old(registry)@.states.len(),
        forall|j: int|
            0 <= j < old(registry)@.states.len() && j != i ==> #[trigger] final(registry)@.states[j]
                == old(registry)@.states[j],
        ({
            let before = old(registry)@.states[i];
            let after = final(registry)@.states[i];
            &&& after.consecutive_failures == 0
            &&& after.tripped_at is None
            &&& after.provider == before.provider
            &&& after.latest_ledger == before.latest_ledger
            &&& after.stats == before.stats
        }),
{
    crate::pool_behaviour::law_success_resets_its_provider(old(registry)@, url@, i);
}

/// A reported failure adds one to its provider's failures in a row; from the third
/// on it trips the breaker at that moment. The note tells the count, and whether
/// the breaker was closed before. Nothing else changes.
pub proof fn law_after_report_failure_at(
    registry: &mut ProviderRegistry,
    url: &str,
    now: u128,
    note: Option<FailureNote>,
    i: int,
)
    requires
        call_ensures(ProviderRegistry::report_failure_at, (registry, url, now), note),
        0 <= i < old(registry)@.states.len(),
        old(registry)@.states[i].provider.url == url@,
        forall|j: int| 0 <= j < i ==> (#[trigger] old(registry)@.states[j]).provider.url != url@,
    ensures
        final(registry)@.cursor == old(registry)@.cursor,
        final(registry)@.states.len() == old(registry)@.states.len(),
        forall|j: int|
            0 <= j < old(registry)@.states.len() && j != i ==> #[trigger] final(registry)@.states[j]
                == old(registry)@.states[j],
        ({
            let before = old(registry)@.states[i];
            let after = final(registry)@.states[i];
            &&& after.consecutive_failures == before.consecutive_failures + 1
            &&& before.consecutive_failures >= 2 ==> after.tripped_at == Some(now as int)
            &&& before.consecutive_failures < 2 ==> after.tripped_at == before.tripped_at
            &&& after.provider == before.provider
            &&& after.latest_ledger == before.latest_ledger
            &&& after.stats == before.stats
            &&& note is Some
            &&& note->0.failures == before.consecutive_failures + 1
            &&& note->0.newly_tripped <==> before.tripped_at is None
                && before.consecutive_failures >= 2
        }),
{
    crate::pool::lemma_find_is_first(old(registry)@, i, url@);
    crate::pool_behaviour::law_failure_counts_at_its_provider(
        old(registry)@,
        url@,
        i,
        now as int,
    );
}

/// The failure that is reported without a moment counts in the same way, at some
/// moment that the clock may give.
pub proof fn law_after_report_failure(
    registry: &mut ProviderRegistry,
    url: &str,
    note: Option<FailureNote>,
    i: int,
)
    requires
        call_ensures(ProviderRegistry::report_failure, (registry, url), note),
        0 <= i < old(registry)@.states.len(),
        old(registry)@.states[i].provider.url == url@,
        forall|j: int| 0 <= j < i ==> (#[trigger] old(registry)@.states[j]).provider.url != url@,
    ensures
        final(registry)@.cursor == old(registry)@.cursor,
        final(registry)@.states.len() == old(registry)@.states.len(),
        forall|j: int|
            0 <= j < old(registry)@.states.len() && j != i ==> #[trigger] final(registry)@.states[j]
                == old(registry)@.states[j],
        ({
            let before = old(registry)@.states[i];
            let after = final(registry)@.states[i];
            &&& after.consecutive_failures == before.consecutive_failures + 1
            &&& before.consecutive_failures >= 2 ==> exists|now: u128| #[trigger]
                old(registry).may_read(now) && after.tripped_at == Some(now as int)
            &&& before.consecutive_failures < 2 ==> after.tripped_at == before.tripped_at
            &&& after.provider == before.provider
            &&& after.latest_ledger == before.latest_ledger
            &&& after.stats == before.stats
        }),
{
    crate::pool::lemma_find_is_first(old(registry)@, i, url@);
    let now = choose|now: u128| #[trigger]
        old(registry).may_read(now) && final(registry)@ == old(registry)@.failed(
            url@,
            now as int,
        );
    crate::pool_behaviour::law_failure_counts_at_its_provider(
        old(registry)@,
        url@,
        i,
        now as int,
    );
}

/// Reports on a URL that nobody has leave everything as it was.
pub proof fn law_after_report_on_unknown_url(
    sampled: &mut ProviderRegistry,
    succeeded: &mut ProviderRegistry,
    failed: &mut ProviderRegistry,
    url: &str,
    rtt_us: u64,
    now: u128,
    note: Option<FailureNote>,
)
    requires
        call_ensures(ProviderRegistry::record_rtt, (sampled, url, rtt_us), ()),
        call_ensures(ProviderRegistry::report_success, (succeeded, url), ()),
        call_ensures(ProviderRegistry::report_failure_at, (failed, url, now), note),
        forall|j: int|
            0 <= j < old(sampled)@.states.len() ==> (#[trigger] old(sampled)@.states[j]).provider.url != url@,
        forall|j: int|
            0 <= j < old(succeeded)@.states.len() ==> (#[trigger] old(succeeded)@.states[j]).provider.url != url@,
        forall|j: int|
            0 <= j < old(failed)@.states.len() ==> (#[trigger] old(failed)@.states[j]).provider.url != url@,
    ensures
        final(sampled)@ == old(sampled)@,
        final(succeeded)@ == old(succeeded)@,
        final(failed)@ == old(failed)@,
        note is None,
{
    crate::pool::lemma_find_nothing(old(sampled)@, url@);
    crate::pool::lemma_find_nothing(old(succeeded)@, url@);
    crate::pool::lemma_find_nothing(old(failed)@, url@);
}

/// A recorded health check that found a ledger notes it and resets its provider;
/// one that failed counts as a failure. Nothing else changes.
pub proof fn law_after_record_probe_at(
    registry: &mut ProviderRegistry,
    index: usize,
    outcome: Result<u64, ProbeError>,
    now: u128,
    note: Option<FailureNote>,
)
    requires
        call_ensures(
            ProviderRegistry::record_probe_at,
            (registry, index, &outcome, now),
            note,
        ),
        index < old(registry)@.states.len(),
    ensures
        final(registry)@.cursor == old(registry)@.cursor,
        final(registry)@.states.len() == old(registry)@.states.len(),
        forall|j: int|
            0 <= j < old(registry)@.states.len() && j != index ==> #[trigger] final(registry)@.states[j] == old(registry)@.states[j],
        ({
            let before = old(registry)@.states[index as int];
            let after = final(registry)@.states[index as int];
            &&& after.provider == before.provider
            &&& after.stats == before.stats
            &&& match outcome {
                Ok(ledger) => {
                    &&& after.latest_ledger == ledger
                    &&& after.consecutive_failures == 0
                    &&& after.tripped_at is None
                    &&& note is None
                },
                Err(_) => {
                    &&& after.latest_ledger == before.latest_ledger
                    &&& after.consecutive_failures == before.consecutive_failures + 1
                    &&& before.consecutive_failures >= 2 ==> after.tripped_at == Some(now as int)
                    &&& before.consecutive_failures < 2 ==> after.tripped_at == before.tripped_at
                    &&& note is Some
                    &&& note->0.failures == before.consecutive_failures + 1
                    &&& note->0.newly_tripped <==> before.tripped_at is None
                        && before.consecutive_failures >= 2
                },
            }
        }),
{
}

/// Asked for the order while each available provider has ten samples, a registry
/// gives the available ones by ascending average, equal averages in order of
/// priority, and stays as it was.
pub proof fn law_order_given_by_latency(
    registry: &mut ProviderRegistry,
    now: u128,
    ordered: Vec<RpcProvider>,
)
    requires
        call_ensures(ProviderRegistry::providers_by_latency_at, (registry, now), ordered),
        forall|k: int|
            0 <= k < old(registry)@.available(now as int).len() ==> old(registry)@.states[
                #[trigger] old(registry)@.available(now as int)[k]].stats.sample_count >= 10,
    ensures
        final(registry)@ == old(registry)@,
        ordered@.len() == old(registry)@.available(now as int).len(),
        ({
            let pool = old(registry)@;
            let order = pool.preferred(now as int);
            &&& order.len() == ordered@.len()
            &&& forall|k: int|
                0 <= k < ordered@.len() ==> (#[trigger] ordered@[k])@
                    == pool.states[order[k]].provider
            &&& forall|i: int| #[trigger]
                order.contains(i) <==> pool.available(now as int).contains(i)
            &&& forall|a: int, b: int|
                0 <= a < b < order.len() ==> {
                    let first = #[trigger] order[a];
                    let second = #[trigger] order[b];
                    let fast = pool.states[first].stats.ema_rtt_us;
                    let slow = pool.states[second].stats.ema_rtt_us;
                    fast < slow || (fast == slow && first < second)
                }
        }),
{
    let pool = old(registry)@;
    crate::pool_behaviour::law_ten_samples_each_means_by_latency(pool, now as int);
    crate::pool_laws::law_order_only_permutes(pool, now as int);
    lemma_entries_of_order(pool, pool.preferred(now as int), ordered@);
}

/// Asked for the order while some available provider has fewer than ten samples, a
/// registry gives the available ones in turn from the one that the cursor points
/// at, and moves the cursor on by one.
pub proof fn law_order_given_in_turn(
    registry: &mut ProviderRegistry,
    now: u128,
    ordered: Vec<RpcProvider>,
    cold: int,
)
    requires
        call_ensures(ProviderRegistry::providers_by_latency_at, (registry, now), ordered),
        old(registry)@.valid(),
        old(registry)@.available(now as int).contains(cold),
        old(registry)@.states[cold].stats.sample_count < 10,
    ensures
        final(registry)@.states == old(registry)@.states,
        final(registry)@.cursor == (if old(registry)@.cursor == usize::MAX {
            0
        } else {
            old(registry)@.cursor + 1
        }),
        ({
            let pool = old(registry)@;
            let available = pool.available(now as int);
            &&& ordered@.len() == available.len()
            &&& forall|k: int|
                0 <= k < ordered@.len() ==> (#[trigger] ordered@[k])@ == pool.states[available[(
                pool.cursor + k) % available.len() as int]].provider
        }),
{
    let pool = old(registry)@;
    let available = pool.available(now as int);
    let order = pool.preferred(now as int);
    crate::pool_behaviour::law_one_cold_provider_means_in_turn(pool, now as int, cold, 0);
    lemma_entries_of_order(pool, order, ordered@);
    assert forall|k: int| 0 <= k < ordered@.len() implies (#[trigger] ordered@[k])@
        == pool.states[available[(pool.cursor + k) % available.len() as int]].provider by {
        crate::pool_behaviour::law_one_cold_provider_means_in_turn(pool, now as int, cold, k);
    }
}

/// A list of the providers at some indices, entry by entry.
proof fn lemma_entries_of_order(
    pool: crate::pool::PoolView,
    order: Seq<int>,
    ordered: Seq<RpcProvider>,
)
    requires
        crate::registry::listed(ordered) == pool.providers_at(order),
    ensures
        ordered.len() == order.len(),
        forall|k: int|
            0 <= k < ordered.len() ==> (#[trigger] ordered[k])@ == pool.states[order[k]].provider,
{
    assert(crate::registry::listed(ordered).len() == ordered.len());
    assert forall|k: int| 0 <= k < ordered.len() implies (#[trigger] ordered[k])@
        == pool.states[order[k]].provider by {
        assert(crate::registry::listed(ordered)[k] == ordered[k]@);
    }
}

} // verus!
