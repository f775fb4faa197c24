//! What each operation on a pool does, provider by provider and field by field.
//!
//! Where a law speaks of provider `i` as the one that a report on `url` concerns,
//! it is the first whose URL is `url`.
use vstd::prelude::*;

use crate::health::{
    FailureNote, CIRCUIT_BREAKER_COOLDOWN_NANOS, CIRCUIT_BREAKER_THRESHOLD, DEFAULT_EMA_WINDOW,
};
use crate::pool::PoolView;
use crate::probe::ProbeError;
use crate::provider::ProviderView;

verus! {

/// The numbers that health is built on: three failures, five minutes in
/// nanoseconds, and a window of twenty samples.
pub proof fn law_health_numbers()
    ensures
        CIRCUIT_BREAKER_THRESHOLD == 3,
        CIRCUIT_BREAKER_COOLDOWN_NANOS == 300_000_000_000,
        DEFAULT_EMA_WINDOW == 20,
{
}

/// A new pool has one state for each provider, in the order given, and has seen
/// nothing of any of them; its round-robin starts at the first.
pub proof fn law_fresh_pool_has_seen_nothing(providers: Seq<ProviderView>, i: int)
    requires
        0 <= i < providers.len(),
    ensures
        PoolView::fresh(providers).states.len() == providers.len(),
        PoolView::fresh(providers).cursor == 0,
        ({
            let state = PoolView::fresh(providers).states[i];
            &&& state.provider == providers[i]
            &&& state.consecutive_failures == 0
            &&& state.tripped_at is None
            &&& state.latest_ledger == 0
            &&& state.stats.ema_rtt_us == 0
            &&& state.stats.sample_count == 0
            &&& state.stats.alpha_millionths * 21 <= 2_000_000
            &&& (state.stats.alpha_millionths + 1) * 21 > 2_000_000
        }),
{
    crate::stats_behaviour::law_fresh_holds_nothing(20);
}

/// A new pool of no providers is empty.
pub proof fn law_fresh_pool_of_nobody(providers: Seq<ProviderView>)
    requires
        providers.len() == 0,
    ensures
        PoolView::fresh(providers).states.len() == 0,
        PoolView::fresh(providers).cursor == 0,
{
}

/// A pool is valid exactly when all numbers fit their machine integers, the
/// smoothing factors are at most one, and each breaker is tripped exactly while
/// its provider has failed at least three times in a row.
pub proof fn law_valid_pool(pool: PoolView)
    ensures
        pool.valid() <==> {
            &&& 0 <= pool.cursor <= usize::MAX
            &&& forall|i: int|
                0 <= i < pool.states.len() ==> {
                    let state = #[trigger] pool.states[i];
                    &&& 0 <= state.consecutive_failures <= 0xffff_ffff_ffff_ffff
                    &&& state.tripped_at is Some <==> state.consecutive_failures >= 3
                    &&& 0 <= state.stats.alpha_millionths <= 1_000_000
                    &&& 0 <= state.stats.ema_rtt_us <= 0xffff_ffff_ffff_ffff
                    &&& 0 <= state.stats.sample_count <= 0xffff_ffff_ffff_ffff
                }
        },
{
    if pool.valid() {
        assert forall|i: int| 0 <= i < pool.states.len() implies {
            let state = #[trigger] pool.states[i];
            &&& 0 <= state.consecutive_failures <= 0xffff_ffff_ffff_ffff
            &&& state.tripped_at is Some <==> state.consecutive_failures >= 3
            &&& 0 <= state.stats.alpha_millionths <= 1_000_000
            &&& 0 <= state.stats.ema_rtt_us <= 0xffff_ffff_ffff_ffff
            &&& 0 <= state.stats.sample_count <= 0xffff_ffff_ffff_ffff
        } by {
            assert(pool.states[i].valid());
        }
    }
}

/// A pool is untripped exactly when no provider has a moment of a trip.
pub proof fn law_untripped_pool(pool: PoolView)
    ensures
        pool.untripped() <==> forall|i: int|
            0 <= i < pool.states.len() ==> (#[trigger] pool.states[i]).tripped_at is None,
{
}

// ── Looking up ────────────────────────────────────────────────────────────

/// The search gives a provider exactly when it has the URL and none before it
/// does.
pub proof fn law_find_is_the_first_match(pool: PoolView, url: Seq<char>, i: int)
    ensures
        pool.find(url) == Some(i) <==> {
            &&& 0 <= i < pool.states.len()
            &&& pool.states[i].provider.url == url
            &&& forall|j: int| 0 <= j < i ==> (#[trigger] pool.states[j]).provider.url != url
        },
{
    crate::pool_laws::law_find_gives_first(pool, url);
    if 0 <= i < pool.states.len() && pool.states[i].provider.url == url && (forall|j: int|
        0 <= j < i ==> (#[trigger] pool.states[j]).provider.url != url) {
        crate::pool::lemma_find_is_first(pool, i, url);
    }
}

/// The search gives nothing exactly when no provider has the URL.
pub proof fn law_find_gives_nothing_without_match(pool: PoolView, url: Seq<char>)
    ensures
        pool.find(url) is None <==> forall|j: int|
            0 <= j < pool.states.len() ==> (#[trigger] pool.states[j]).provider.url != url,
{
    crate::pool_laws::law_find_gives_first(pool, url);
    if forall|j: int|
        0 <= j < pool.states.len() ==> (#[trigger] pool.states[j]).provider.url != url {
        crate::pool::lemma_find_nothing(pool, url);
    }
}

// ── Who may be used ───────────────────────────────────────────────────────

/// A provider is available exactly when its own breaker is closed, or was tripped
/// five minutes ago or longer; the available ones stand in ascending order.
pub proof fn law_available_by_own_breaker(pool: PoolView, now: int)
    ensures
        forall|i: int| #[trigger]
            pool.available(now).contains(i) <==> 0 <= i < pool.states.len() && (
            match pool.states[i].tripped_at {
                None => true,
                Some(when) => now - when >= 300_000_000_000,
            }),
        forall|a: int, b: int|
            0 <= a < b < pool.available(now).len() ==> #[trigger] pool.available(now)[a]
                < #[trigger] pool.available(now)[b],
{
    crate::pool_laws::law_available_in_priority_order(pool, now);
}

/// The list of healthy providers is the list of the available ones: one entry for
/// each, in the same order, whatever else is tripped.
pub proof fn law_healthy_lists_the_available(pool: PoolView, now: int)
    ensures
        pool.healthy(now).len() == pool.available(now).len(),
        forall|k: int|
            0 <= k < pool.available(now).len() ==> #[trigger] pool.healthy(now)[k]
                == pool.states[pool.available(now)[k]].provider,
{
}

/// A provider is on the list of healthy ones exactly when some provider like it is
/// closed, or tripped five minutes ago or longer.
pub proof fn law_healthy_by_own_breaker(pool: PoolView, now: int, provider: ProviderView)
    ensures
        pool.healthy(now).contains(provider) <==> exists|i: int|
            0 <= i < pool.states.len() && (#[trigger] pool.states[i]).provider == provider && (
            match pool.states[i].tripped_at {
                None => true,
                Some(when) => now - when >= 300_000_000_000,
            }),
{
    law_available_by_own_breaker(pool, now);
    law_healthy_lists_the_available(pool, now);
    let available = pool.available(now);
    let healthy = pool.healthy(now);
    if healthy.contains(provider) {
        let k = choose|k: int| 0 <= k < healthy.len() && healthy[k] == provider;
        assert(available.contains(available[k]));
        assert(pool.states[available[k]].provider == provider);
    }
    if exists|i: int|
        0 <= i < pool.states.len() && (#[trigger] pool.states[i]).provider == provider && (
        match pool.states[i].tripped_at {
            None => true,
            Some(when) => now - when >= 300_000_000_000,
        }) {
        let i = choose|i: int|
            0 <= i < pool.states.len() && (#[trigger] pool.states[i]).provider == provider && (
            match pool.states[i].tripped_at {
                None => true,
                Some(when) => now - when >= 300_000_000_000,
            });
        assert(available.contains(i));
        let k = choose|k: int| 0 <= k < available.len() && available[k] == i;
        assert(healthy[k] == provider);
    }
}

/// The providers of a pool are those of its states, and the providers at some
/// indices are those of the states there.
pub proof fn law_providers_of_states(pool: PoolView, order: Seq<int>)
    ensures
        pool.providers().len() == pool.states.len(),
        forall|i: int|
            0 <= i < pool.states.len() ==> #[trigger] pool.providers()[i]
                == pool.states[i].provider,
        pool.providers_at(order).len() == order.len(),
        forall|k: int|
            0 <= k < order.len() ==> #[trigger] pool.providers_at(order)[k]
                == pool.states[order[k]].provider,
{
}

// ── In which order ────────────────────────────────────────────────────────

/// Once each available provider has ten samples, the order ascends by average,
/// equal averages in order of priority, and nothing of the pool changes.
pub proof fn law_ten_samples_each_means_by_latency(pool: PoolView, now: int)
    requires
        forall|k: int|
            0 <= k < pool.available(now).len() ==> pool.states[#[trigger] pool.available(
                now,
            )[k]].stats.sample_count >= 10,
    ensures
        forall|a: int, b: int|
            0 <= a < b < pool.preferred(now).len() ==> {
                let first = #[trigger] pool.preferred(now)[a];
                let second = #[trigger] pool.preferred(now)[b];
                let fast = pool.states[first].stats.ema_rtt_us;
                let slow = pool.states[second].stats.ema_rtt_us;
                fast < slow || (fast == slow && first < second)
            },
        pool.routed(now).states == pool.states,
        pool.routed(now).cursor == pool.cursor,
{
    let available = pool.available(now);
    assert forall|k: int| 0 <= k < available.len() implies pool.states[
        #[trigger] available[k]].stats.is_warmed() by {
        assert(pool.states[pool.available(now)[k]].stats.sample_count >= 10);
    }
    assert(pool.all_warmed(available));
    crate::pool_laws::law_fastest_comes_first(pool, now);
}

/// As long as one available provider, wherever it stands, has fewer than ten
/// samples, the available ones are tried in turn from the one that the cursor
/// points at, and the cursor moves on by one.
pub proof fn law_one_cold_provider_means_in_turn(pool: PoolView, now: int, cold: int, k: int)
    requires
        pool.valid(),
        pool.available(now).contains(cold),
        pool.states[cold].stats.sample_count < 10,
        0 <= k < pool.available(now).len(),
    ensures
        pool.preferred(now).len() == pool.available(now).len(),
        pool.preferred(now)[k] == pool.available(now)[(pool.cursor + k)
            % pool.available(now).len() as int],
        pool.routed(now).states == pool.states,
        pool.routed(now).cursor == (if pool.cursor == usize::MAX {
            0
        } else {
            pool.cursor + 1
        }),
{
    let available = pool.available(now);
    let at = choose|at: int| 0 <= at < available.len() && available[at] == cold;
    assert(!pool.states[available[at]].stats.is_warmed());
    assert(!pool.all_warmed(available));
    crate::pool_laws::law_round_robin_before_warmup(pool, now, k);
    crate::pool_laws::law_order_only_permutes(pool, now);
}

/// Whichever way the order is made, each available provider stands in it once and
/// no other does.
pub proof fn law_order_holds_each_available_once(pool: PoolView, now: int)
    ensures
        pool.preferred(now).len() == pool.available(now).len(),
        forall|a: int, b: int|
            0 <= a < b < pool.preferred(now).len() ==> #[trigger] pool.preferred(now)[a]
                != #[trigger] pool.preferred(now)[b],
        forall|i: int| #[trigger]
            pool.preferred(now).contains(i) <==> 0 <= i < pool.states.len() && (
            match pool.states[i].tripped_at {
                None => true,
                Some(when) => now - when >= 300_000_000_000,
            }),
{
    crate::pool_laws::law_order_only_permutes(pool, now);
    law_available_by_own_breaker(pool, now);
    assert forall|i: int| #[trigger]
        pool.preferred(now).contains(i) <==> 0 <= i < pool.states.len() && (
        match pool.states[i].tripped_at {
            None => true,
            Some(when) => now - when >= 300_000_000_000,
        }) by {
        assert(pool.preferred(now).contains(i) <==> pool.available(now).contains(i));
    }
}

// ── Reports ───────────────────────────────────────────────────────────────

/// A successful request leaves its provider with no failures in a row and a closed
/// breaker, whatever they were; nothing else changes.
pub proof fn law_success_resets_its_provider(pool: PoolView, url: Seq<char>, i: int)
    requires
        0 <= i < pool.states.len(),
        pool.states[i].provider.url == url,
        forall|j: int| 0 <= j < i ==> (#[trigger] pool.states[j]).provider.url != url,
    ensures
        pool.succeeded(url).states.len() == pool.states.len(),
        pool.succeeded(url).cursor == pool.cursor,
        pool.succeeded(url).states[i].consecutive_failures == 0,
        pool.succeeded(url).states[i].tripped_at is None,
        pool.succeeded(url).states[i].provider == pool.states[i].provider,
        pool.succeeded(url).states[i].latest_ledger == pool.states[i].latest_ledger,
        pool.succeeded(url).states[i].stats == pool.states[i].stats,
        forall|j: int|
            0 <= j < pool.states.len() && j != i ==> #[trigger] pool.succeeded(url).states[j]
                == pool.states[j],
{
    crate::pool::lemma_find_is_first(pool, i, url);
}

/// A failed request adds one to its provider's failures in a row; from the third
/// on it trips the breaker at the moment of the failure. Nothing else changes.
pub proof fn law_failure_counts_at_its_provider(pool: PoolView, url: Seq<char>, i: int, now: int)
    requires
        0 <= i < pool.states.len(),
        pool.states[i].provider.url == url,
        forall|j: int| 0 <= j < i ==> (#[trigger] pool.states[j]).provider.url != url,
    ensures
        pool.failed(url, now).states.len() == pool.states.len(),
        pool.failed(url, now).cursor == pool.cursor,
        pool.failed(url, now).states[i].consecutive_failures == pool.states[i].consecutive_failures
            + 1,
        pool.states[i].consecutive_failures >= 2 ==> pool.failed(url, now).states[i].tripped_at
            == Some(now),
        pool.states[i].consecutive_failures < 2 ==> pool.failed(url, now).states[i].tripped_at
            == pool.states[i].tripped_at,
        pool.failed(url, now).states[i].provider == pool.states[i].provider,
        pool.failed(url, now).states[i].latest_ledger == pool.states[i].latest_ledger,
        pool.failed(url, now).states[i].stats == pool.states[i].stats,
        forall|j: int|
            0 <= j < pool.states.len() && j != i ==> #[trigger] pool.failed(url, now).states[j]
                == pool.states[j],
{
    crate::pool::lemma_find_is_first(pool, i, url);
}

/// A latency sample counts once at its provider, however many came before. The
/// first is the average; each later one weighs exactly the smoothing factor.
/// Nothing else changes.
pub proof fn law_sample_counts_at_its_provider(pool: PoolView, url: Seq<char>, i: int, rtt_us: int)
    requires
        pool.valid(),
        0 <= i < pool.states.len(),
        pool.states[i].provider.url == url,
        forall|j: int| 0 <= j < i ==> (#[trigger] pool.states[j]).provider.url != url,
        0 <= rtt_us,
    ensures
        pool.sampled(url, rtt_us).states.len() == pool.states.len(),
        pool.sampled(url, rtt_us).cursor == pool.cursor,
        ({
            let before = pool.states[i];
            let after = pool.sampled(url, rtt_us).states[i];
            let alpha = before.stats.alpha_millionths;
            let weighed = alpha * rtt_us + (1_000_000 - alpha) * before.stats.ema_rtt_us;
            &&& after.stats.alpha_millionths == alpha
            &&& after.stats.sample_count == (if before.stats.sample_count
                == 0xffff_ffff_ffff_ffff {
                0
            } else {
                before.stats.sample_count + 1
            })
            &&& before.stats.sample_count == 0 ==> after.stats.ema_rtt_us == rtt_us
            &&& before.stats.sample_count > 0 ==> 1_000_000 * after.stats.ema_rtt_us <= weighed
                < 1_000_000 * (after.stats.ema_rtt_us + 1)
            &&& after.provider == before.provider
            &&& after.consecutive_failures == before.consecutive_failures
            &&& after.tripped_at == before.tripped_at
            &&& after.latest_ledger == before.latest_ledger
        }),
        forall|j: int|
            0 <= j < pool.states.len() && j != i ==> #[trigger] pool.sampled(url, rtt_us).states[j]
                == pool.states[j],
{
    crate::pool::lemma_find_is_first(pool, i, url);
    assert(pool.states[i].valid());
}

/// Reports on a URL that nobody has are always possible and leave the pool as it
/// is.
pub proof fn law_report_without_provider(pool: PoolView, url: Seq<char>, rtt_us: int, now: int)
    requires
        forall|j: int|
            0 <= j < pool.states.len() ==> (#[trigger] pool.states[j]).provider.url != url,
    ensures
        pool.succeeded(url) == pool,
        pool.failed(url, now) == pool,
        pool.sampled(url, rtt_us) == pool,
        pool.can_fail(url),
        pool.accepts(url, rtt_us),
{
    crate::pool::lemma_find_nothing(pool, url);
}

/// A failed request can be counted exactly while its provider's count is below the
/// largest; a sample can be folded in exactly when it is the first, or when its
/// weighed sum with the history fits 64 bits.
pub proof fn law_reports_that_fit(pool: PoolView, url: Seq<char>, i: int, rtt_us: int)
    requires
        0 <= i < pool.states.len(),
        pool.states[i].provider.url == url,
        forall|j: int| 0 <= j < i ==> (#[trigger] pool.states[j]).provider.url != url,
    ensures
        pool.can_fail(url) <==> pool.states[i].consecutive_failures < 0xffff_ffff_ffff_ffff,
        pool.states[i].can_fail() <==> pool.states[i].consecutive_failures
            < 0xffff_ffff_ffff_ffff,
        pool.accepts(url, rtt_us) <==> ({
            let stats = pool.states[i].stats;
            stats.sample_count == 0 || stats.alpha_millionths * rtt_us + (1_000_000
                - stats.alpha_millionths) * stats.ema_rtt_us <= 0xffff_ffff_ffff_ffff
        }),
{
    crate::pool::lemma_find_is_first(pool, i, url);
}

/// Whether a provider can count one more failure depends on its count alone.
pub proof fn law_can_fail_below_the_largest_count(pool: PoolView, i: int)
    ensures
        pool.states[i].can_fail() <==> pool.states[i].consecutive_failures
            < 0xffff_ffff_ffff_ffff,
{
}

/// A health check that finds a ledger notes it, and leaves its provider with no
/// failures in a row and a closed breaker, whatever they were; nothing else
/// changes.
pub proof fn law_found_ledger_resets_its_provider(
    pool: PoolView,
    i: int,
    ledger: u64,
    now: int,
)
    requires
        0 <= i < pool.states.len(),
    ensures
        pool.probed(i, Ok(ledger), now).states.len() == pool.states.len(),
        pool.probed(i, Ok(ledger), now).cursor == pool.cursor,
        ({
            let before = pool.states[i];
            let after = pool.probed(i, Ok(ledger), now).states[i];
            &&& after.latest_ledger == ledger
            &&& after.consecutive_failures == 0
            &&& after.tripped_at is None
            &&& after.provider == before.provider
            &&& after.stats == before.stats
        }),
        forall|j: int|
            0 <= j < pool.states.len() && j != i ==> #[trigger] pool.probed(
                i,
                Ok(ledger),
                now,
            ).states[j] == pool.states[j],
{
}

/// A health check that fails, for whatever reason, adds one to its provider's
/// failures in a row; from the third on it trips the breaker at that moment.
/// Nothing else changes.
pub proof fn law_failed_check_counts_at_its_provider(
    pool: PoolView,
    i: int,
    error: ProbeError,
    now: int,
)
    requires
        0 <= i < pool.states.len(),
    ensures
        pool.probed(i, Err(error), now).states.len() == pool.states.len(),
        pool.probed(i, Err(error), now).cursor == pool.cursor,
        ({
            let before = pool.states[i];
            let after = pool.probed(i, Err(error), now).states[i];
            &&& after.consecutive_failures == before.consecutive_failures + 1
            &&& before.consecutive_failures >= 2 ==> after.tripped_at == Some(now)
            &&& before.consecutive_failures < 2 ==> after.tripped_at == before.tripped_at
            &&& after.provider == before.provider
            &&& after.latest_ledger == before.latest_ledger
            &&& after.stats == before.stats
        }),
        forall|j: int|
            0 <= j < pool.states.len() && j != i ==> #[trigger] pool.probed(
                i,
                Err(error),
                now,
            ).states[j] == pool.states[j],
{
}

/// The note of a failure gives the failures in a row with this one counted, and
/// says "newly tripped" exactly when the breaker was closed and this is the third
/// failure or a later one.
pub proof fn law_note_tells_the_failure(note: FailureNote, pool: PoolView, i: int)
    ensures
        note.describes(pool.states[i]) <==> {
            &&& note.failures == pool.states[i].consecutive_failures + 1
            &&& note.newly_tripped <==> pool.states[i].tripped_at is None
                && pool.states[i].consecutive_failures >= 2
        },
{
}

// ── Reports in a row ──────────────────────────────────────────────────────

/// A success wipes out the failures before it: with them or without them, the pool
/// after the success is the same.
pub proof fn law_success_forgets_failures(
    pool: PoolView,
    url: Seq<char>,
    i: int,
    moments: Seq<int>,
)
    requires
        0 <= i < pool.states.len(),
        pool.states[i].provider.url == url,
        forall|j: int| 0 <= j < i ==> (#[trigger] pool.states[j]).provider.url != url,
    ensures
        crate::pool_laws::pool_failed_at(pool, url, moments).succeeded(url) == pool.succeeded(url),
    decreases moments.len(),
{
    if moments.len() > 0 {
        let before = crate::pool_laws::pool_failed_at(pool, url, moments.drop_last());
        let after = crate::pool_laws::pool_failed_at(pool, url, moments);
        law_success_forgets_failures(pool, url, i, moments.drop_last());
        lemma_failures_keep_providers(pool, url, moments.drop_last());
        lemma_failures_keep_providers(pool, url, moments);
        lemma_first_stays_first(pool, before, url, i);
        lemma_first_stays_first(pool, after, url, i);
        law_failure_counts_at_its_provider(before, url, i, moments.last());
        law_success_resets_its_provider(before, url, i);
        law_success_resets_its_provider(after, url, i);
        assert(after.succeeded(url) =~= before.succeeded(url));
    }
}

proof fn lemma_failures_keep_providers(pool: PoolView, url: Seq<char>, moments: Seq<int>)
    ensures
        crate::pool_laws::pool_failed_at(pool, url, moments).states.len() == pool.states.len(),
        crate::pool_laws::pool_failed_at(pool, url, moments).cursor == pool.cursor,
        forall|j: int|
            0 <= j < pool.states.len() ==> (#[trigger] crate::pool_laws::pool_failed_at(
                pool,
                url,
                moments,
            ).states[j]).provider == pool.states[j].provider,
    decreases moments.len(),
{
    if moments.len() > 0 {
        let before = crate::pool_laws::pool_failed_at(pool, url, moments.drop_last());
        lemma_failures_keep_providers(pool, url, moments.drop_last());
        crate::pool_laws::law_find_gives_first(before, url);
    }
}

/// Where the providers are the same, the first with a URL is the same.
proof fn lemma_first_stays_first(pool: PoolView, after: PoolView, url: Seq<char>, i: int)
    requires
        pool.is_first_with(i, url),
        after.states.len() == pool.states.len(),
        forall|j: int|
            0 <= j < pool.states.len() ==> (#[trigger] after.states[j]).provider
                == pool.states[j].provider,
    ensures
        after.is_first_with(i, url),
{
}

/// After a reset, failed requests in a row are counted from one, and trip the
/// breaker only when they reach three.
proof fn lemma_failures_after_reset(
    pool: PoolView,
    url: Seq<char>,
    i: int,
    moments: Seq<int>,
    now: int,
)
    requires
        0 <= i < pool.states.len(),
        pool.is_first_with(i, url),
        pool.states[i].consecutive_failures == 0,
        pool.states[i].tripped_at is None,
    ensures
        ({
            let after = crate::pool_laws::pool_failed_at(pool, url, moments);
            &&& after.states[i].consecutive_failures == moments.len()
            &&& moments.len() < 3 ==> after.available(now).contains(i)
            &&& moments.len() >= 3 && now - moments.last() < 300_000_000_000
                ==> !after.available(now).contains(i)
        }),
{
    crate::pool_laws::law_failures_add_up(pool, url, moments, i);
    crate::pool_laws::law_breaker_trips_at_threshold(pool.states[i], moments);
    crate::pool_laws::law_repeated_failures_exclude_provider(pool, url, moments, i, i, now);
}

/// After a successful request, failed ones in a row are counted from one: two of
/// them leave the provider available at every moment, and three exclude it for
/// five minutes, whatever had happened before the success.
pub proof fn law_counting_starts_over_after_success(
    pool: PoolView,
    url: Seq<char>,
    i: int,
    moments: Seq<int>,
    now: int,
)
    requires
        0 <= i < pool.states.len(),
        pool.states[i].provider.url == url,
        forall|j: int| 0 <= j < i ==> (#[trigger] pool.states[j]).provider.url != url,
    ensures
        ({
            let after = crate::pool_laws::pool_failed_at(pool.succeeded(url), url, moments);
            &&& after.states[i].consecutive_failures == moments.len()
            &&& moments.len() < 3 ==> after.available(now).contains(i)
            &&& moments.len() >= 3 && now - moments.last() < 300_000_000_000
                ==> !after.available(now).contains(i)
        }),
{
    law_success_resets_its_provider(pool, url, i);
    let reset = pool.succeeded(url);
    assert forall|j: int| 0 <= j < pool.states.len() implies (
    #[trigger] reset.states[j]).provider == pool.states[j].provider by {
        if j != i {
            assert(pool.succeeded(url).states[j] == pool.states[j]);
        }
    }
    lemma_first_stays_first(pool, reset, url, i);
    lemma_failures_after_reset(reset, url, i, moments, now);
}

/// After a health check that found a ledger, failed requests in a row are counted
/// from one in the same way.
pub proof fn law_counting_starts_over_after_found_ledger(
    pool: PoolView,
    url: Seq<char>,
    i: int,
    ledger: u64,
    then: int,
    moments: Seq<int>,
    now: int,
)
    requires
        0 <= i < pool.states.len(),
        pool.states[i].provider.url == url,
        forall|j: int| 0 <= j < i ==> (#[trigger] pool.states[j]).provider.url != url,
    ensures
        ({
            let after = crate::pool_laws::pool_failed_at(
                pool.probed(i, Ok(ledger), then),
                url,
                moments,
            );
            &&& after.states[i].consecutive_failures == moments.len()
            &&& moments.len() < 3 ==> after.available(now).contains(i)
            &&& moments.len() >= 3 && now - moments.last() < 300_000_000_000
                ==> !after.available(now).contains(i)
        }),
{
    law_found_ledger_resets_its_provider(pool, i, ledger, then);
    let reset = pool.probed(i, Ok(ledger), then);
    assert forall|j: int| 0 <= j < pool.states.len() implies (
    #[trigger] reset.states[j]).provider == pool.states[j].provider by {
        if j != i {
            assert(pool.probed(i, Ok(ledger), then).states[j] == pool.states[j]);
        }
    }
    lemma_first_stays_first(pool, reset, url, i);
    lemma_failures_after_reset(reset, url, i, moments, now);
}

/// The pool after latency samples of requests to `url`, oldest first.
pub open spec fn pool_sampled_all(pool: PoolView, url: Seq<char>, samples: Seq<int>) -> PoolView
    decreases samples.len(),
{
    if samples.len() == 0 {
        pool
    } else {
        pool_sampled_all(pool, url, samples.drop_last()).sampled(url, samples.last())
    }
}

/// On a new pool, any number of latency samples for a URL all count at its
/// provider and at no other; the average is theirs alone.
pub proof fn law_all_samples_count(
    providers: Seq<ProviderView>,
    url: Seq<char>,
    i: int,
    samples: Seq<int>,
)
    requires
        0 <= i < providers.len(),
        providers[i].url == url,
        forall|j: int| 0 <= j < i ==> (#[trigger] providers[j]).url != url,
        samples.len() <= 0xffff_ffff_ffff_ffff,
    ensures
        ({
            let after = pool_sampled_all(PoolView::fresh(providers), url, samples);
            &&& after.states.len() == providers.len()
            &&& after.states[i].stats.sample_count == samples.len()
            &&& after.states[i].stats == crate::stats::StatsView::fresh(20).sampled_all(samples)
            &&& forall|j: int|
                0 <= j < providers.len() && j != i ==> (
                #[trigger] after.states[j]).stats.sample_count == 0
            &&& forall|j: int|
                0 <= j < providers.len() ==> (#[trigger] after.states[j]).provider == providers[j]
        }),
    decreases samples.len(),
{
    let fresh = PoolView::fresh(providers);
    if samples.len() > 0 {
        let before = pool_sampled_all(fresh, url, samples.drop_last());
        law_all_samples_count(providers, url, i, samples.drop_last());
        assert(before.states[i].provider.url == url);
        assert(before.is_first_with(i, url));
        crate::pool::lemma_find_is_first(before, i, url);
        let after = before.sampled(url, samples.last());
        assert forall|j: int| 0 <= j < providers.len() implies (
        #[trigger] after.states[j]).provider == providers[j] by {
            assert(before.states[j].provider == providers[j]);
        }
        assert forall|j: int| 0 <= j < providers.len() && j != i implies (
        #[trigger] after.states[j]).stats.sample_count == 0 by {
            assert(before.states[j].stats.sample_count == 0);
        }
    }
}

} // verus!
