//! What holds of a pool of providers over any reports and any requests for an
//! order.
use vstd::prelude::*;

use crate::health::{
    StateView, CIRCUIT_BREAKER_COOLDOWN_NANOS, CIRCUIT_BREAKER_THRESHOLD, DEFAULT_EMA_WINDOW,
};
use crate::pool::PoolView;
use crate::probe::ProbeError;
use crate::provider::ProviderView;

verus! {

// ── Health ────────────────────────────────────────────────────────────────

/// While no breaker is tripped, every provider is healthy at every moment, in
/// order of priority.
pub proof fn law_no_trip_all_healthy(pool: PoolView, now: int)
    requires
        pool.untripped(),
    ensures
        pool.available(now) == crate::pool::indices(pool.states.len()),
        pool.healthy(now) == pool.providers(),
{
    crate::pool::lemma_all_available(pool, pool.states.len(), now);
    assert(pool.healthy(now) =~= pool.providers());
}

/// All providers of a new pool are healthy at every moment, in the order in which
/// they were given.
pub proof fn law_fresh_pool_is_healthy(providers: Seq<ProviderView>, now: int)
    ensures
        PoolView::fresh(providers).healthy(now) == providers,
{
    let pool = PoolView::fresh(providers);
    law_no_trip_all_healthy(pool, now);
    assert(pool.providers() =~= providers);
}

/// The available providers are exactly those that are available, each once, in
/// order of priority.
pub proof fn law_available_in_priority_order(pool: PoolView, now: int)
    ensures
        forall|a: int, b: int|
            0 <= a < b < pool.available(now).len() ==> #[trigger] pool.available(now)[a]
                < #[trigger] pool.available(now)[b],
        forall|i: int| #[trigger]
            pool.available(now).contains(i) <==> 0 <= i < pool.states.len()
                && pool.states[i].available(now),
{
    crate::pool::lemma_available_members(pool, pool.states.len(), now);
}

/// A tripped provider is out of the pool until five minutes after the trip, and
/// back in it from then on.
pub proof fn law_cooldown(state: StateView, when: int, now: int)
    requires
        state.tripped_at == Some(when),
    ensures
        state.available(now) <==> now >= when + CIRCUIT_BREAKER_COOLDOWN_NANOS,
{
}

/// A failure of a tripped provider starts its cooldown over, also when it had
/// come back after an earlier one.
pub proof fn law_failure_restarts_cooldown(state: StateView, when: int, now: int)
    requires
        state.valid(),
        state.tripped_at is Some,
    ensures
        state.failed(when).available(now) <==> now >= when + CIRCUIT_BREAKER_COOLDOWN_NANOS,
{
}

/// The state after failures at the given moments, oldest first.
pub open spec fn failed_at(state: StateView, moments: Seq<int>) -> StateView
    decreases moments.len(),
{
    if moments.len() == 0 {
        state
    } else {
        failed_at(state, moments.drop_last()).failed(moments.last())
    }
}

/// From a state without failures, failures in a row leave the breaker closed
/// while they are fewer than the threshold; from the threshold on it is tripped
/// at the moment of the last one.
pub proof fn law_breaker_trips_at_threshold(state: StateView, moments: Seq<int>)
    requires
        state.consecutive_failures == 0,
        state.tripped_at is None,
    ensures
        failed_at(state, moments).consecutive_failures == moments.len(),
        failed_at(state, moments).tripped_at == (if moments.len() < CIRCUIT_BREAKER_THRESHOLD {
            None
        } else {
            Some(moments.last())
        }),
        failed_at(state, moments).provider == state.provider,
        failed_at(state, moments).stats == state.stats,
        failed_at(state, moments).latest_ledger == state.latest_ledger,
    decreases moments.len(),
{
    if moments.len() > 0 {
        law_breaker_trips_at_threshold(state, moments.drop_last());
    }
}

/// A success closes the breaker whatever came before: the provider is available
/// at every moment, and stays so under fewer failures than the threshold.
pub proof fn law_success_closes_breaker(state: StateView, moments: Seq<int>, now: int)
    requires
        moments.len() < CIRCUIT_BREAKER_THRESHOLD,
    ensures
        state.succeeded().available(now),
        failed_at(state.succeeded(), moments).available(now),
{
    law_breaker_trips_at_threshold(state.succeeded(), moments);
}

// ── Reports ───────────────────────────────────────────────────────────────

/// The pool after failed requests to `url` at the given moments, oldest first.
pub open spec fn pool_failed_at(pool: PoolView, url: Seq<char>, moments: Seq<int>) -> PoolView
    decreases moments.len(),
{
    if moments.len() == 0 {
        pool
    } else {
        pool_failed_at(pool, url, moments.drop_last()).failed(url, moments.last())
    }
}

/// Replacing the state of a provider by one of the same provider changes no
/// search.
proof fn lemma_find_after_update(pool: PoolView, i: int, state: StateView, url: Seq<char>)
    requires
        0 <= i < pool.states.len(),
        state.provider == pool.states[i].provider,
    ensures
        pool.with_state(i, state).find(url) == pool.find(url),
        pool.with_state(i, state).providers() == pool.providers(),
{
    let after = pool.with_state(i, state);
    assert(after.providers() =~= pool.providers());
    if exists|j: int| 0 <= j < pool.states.len() && (#[trigger] pool.states[j]).provider.url
        == url {
        let j = choose|j: int|
            0 <= j < pool.states.len() && (#[trigger] pool.states[j]).provider.url == url;
        let first = crate::pool::lemma_find_something(pool, url, j);
        assert(after.is_first_with(first, url));
        crate::pool::lemma_find_is_first(after, first, url);
    } else {
        crate::pool::lemma_find_nothing(pool, url);
        crate::pool::lemma_find_nothing(after, url);
    }
}

/// A provider that the search gives is one of the pool with that URL, and none
/// before it has the URL.
pub proof fn law_find_gives_first(pool: PoolView, url: Seq<char>)
    ensures
        match pool.find(url) {
            Some(i) => pool.is_first_with(i, url),
            None => forall|j: int|
                0 <= j < pool.states.len() ==> (#[trigger] pool.states[j]).provider.url != url,
        },
{
    if exists|j: int| 0 <= j < pool.states.len() && (#[trigger] pool.states[j]).provider.url
        == url {
        let j = choose|j: int|
            0 <= j < pool.states.len() && (#[trigger] pool.states[j]).provider.url == url;
        let first = crate::pool::lemma_find_something(pool, url, j);
    }
}

/// Reports on a URL that no provider has change nothing, and can always be made.
pub proof fn law_unknown_url_changes_nothing(
    pool: PoolView,
    url: Seq<char>,
    rtt_us: int,
    now: int,
)
    requires
        forall|j: int|
            0 <= j < pool.states.len() ==> (#[trigger] pool.states[j]).provider.url != url,
    ensures
        pool.succeeded(url) == pool,
        pool.can_fail(url),
        pool.failed(url, now) == pool,
        pool.accepts(url, rtt_us),
        pool.sampled(url, rtt_us) == pool,
{
    crate::pool::lemma_find_nothing(pool, url);
}

/// No report and no request for an order adds, removes, moves or renames a
/// provider.
pub proof fn law_providers_never_change(
    pool: PoolView,
    url: Seq<char>,
    rtt_us: int,
    i: int,
    outcome: Result<u64, ProbeError>,
    now: int,
)
    requires
        0 <= i < pool.states.len(),
    ensures
        pool.succeeded(url).providers() == pool.providers(),
        pool.failed(url, now).providers() == pool.providers(),
        pool.sampled(url, rtt_us).providers() == pool.providers(),
        pool.probed(i, outcome, now).providers() == pool.providers(),
        pool.routed(now).providers() == pool.providers(),
{
    law_find_gives_first(pool, url);
    assert(pool.succeeded(url).providers() =~= pool.providers());
    assert(pool.failed(url, now).providers() =~= pool.providers());
    assert(pool.sampled(url, rtt_us).providers() =~= pool.providers());
    assert(pool.probed(i, outcome, now).providers() =~= pool.providers());
    assert(pool.routed(now).providers() =~= pool.providers());
}

/// Each report concerns one provider: the first with the URL. All others, and the
/// round-robin cursor, stay as they are.
pub proof fn law_report_concerns_one_provider(
    pool: PoolView,
    url: Seq<char>,
    rtt_us: int,
    now: int,
    j: int,
)
    requires
        0 <= j < pool.states.len(),
        pool.find(url) != Some(j),
    ensures
        pool.succeeded(url).states[j] == pool.states[j],
        pool.failed(url, now).states[j] == pool.states[j],
        pool.sampled(url, rtt_us).states[j] == pool.states[j],
        pool.succeeded(url).cursor == pool.cursor,
        pool.failed(url, now).cursor == pool.cursor,
        pool.sampled(url, rtt_us).cursor == pool.cursor,
{
    law_find_gives_first(pool, url);
}

/// Successes and failures leave the latency statistics of every provider alone,
/// and latency samples leave the health of every provider alone.
pub proof fn law_health_and_latency_are_independent(
    pool: PoolView,
    url: Seq<char>,
    rtt_us: int,
    now: int,
    j: int,
)
    requires
        0 <= j < pool.states.len(),
    ensures
        pool.succeeded(url).states[j].stats == pool.states[j].stats,
        pool.failed(url, now).states[j].stats == pool.states[j].stats,
        pool.sampled(url, rtt_us).states[j].consecutive_failures
            == pool.states[j].consecutive_failures,
        pool.sampled(url, rtt_us).states[j].tripped_at == pool.states[j].tripped_at,
{
    law_find_gives_first(pool, url);
}

/// The invariant survives every report that can be made and every request for an
/// order; in particular each breaker is tripped exactly while its provider has
/// failed often enough in a row.
pub proof fn law_invariant_is_kept(
    pool: PoolView,
    url: Seq<char>,
    rtt_us: u64,
    i: int,
    outcome: Result<u64, ProbeError>,
    now: int,
)
    requires
        pool.valid(),
        0 <= i < pool.states.len(),
    ensures
        pool.succeeded(url).valid(),
        pool.can_fail(url) ==> pool.failed(url, now).valid(),
        pool.accepts(url, rtt_us as int) ==> pool.sampled(url, rtt_us as int).valid(),
        outcome is Ok || pool.states[i].can_fail() ==> pool.probed(i, outcome, now).valid(),
        pool.routed(now).valid(),
{
    law_find_gives_first(pool, url);
    if let Some(k) = pool.find(url) {
        assert(pool.states[k].valid());
        crate::stats_laws::law_sample_keeps_invariant(pool.states[k].stats, rtt_us);
    }
    assert(pool.states[i].valid());
}

/// A new pool is valid.
pub proof fn law_fresh_pool_is_valid(providers: Seq<ProviderView>)
    ensures
        PoolView::fresh(providers).valid(),
{
    crate::stats_laws::law_fresh_is_valid(DEFAULT_EMA_WINDOW);
    assert forall|i: int| 0 <= i < providers.len() implies (#[trigger] PoolView::fresh(
        providers,
    ).states[i]).valid() by {
        assert(PoolView::fresh(providers).states[i] == StateView::fresh(providers[i]));
    }
}

/// Failed requests to `url` add up at the first provider with that URL, and
/// nowhere else.
pub proof fn law_failures_add_up(pool: PoolView, url: Seq<char>, moments: Seq<int>, i: int)
    requires
        pool.is_first_with(i, url),
    ensures
        pool_failed_at(pool, url, moments) == pool.with_state(
            i,
            failed_at(pool.states[i], moments),
        ),
    decreases moments.len(),
{
    crate::pool::lemma_find_is_first(pool, i, url);
    if moments.len() == 0 {
        assert(pool.with_state(i, pool.states[i]) =~= pool);
    } else {
        let before = moments.drop_last();
        law_failures_add_up(pool, url, before, i);
        let state = failed_at(pool.states[i], before);
        lemma_failures_keep_provider(pool.states[i], before);
        lemma_find_after_update(pool, i, state, url);
        assert(pool_failed_at(pool, url, moments) =~= pool.with_state(
            i,
            failed_at(pool.states[i], moments),
        ));
    }
}

proof fn lemma_failures_keep_provider(state: StateView, moments: Seq<int>)
    ensures
        failed_at(state, moments).provider == state.provider,
    decreases moments.len(),
{
    if moments.len() > 0 {
        lemma_failures_keep_provider(state, moments.drop_last());
    }
}

/// From a provider without failures on, requests that fail in a row take it out
/// of the healthy ones exactly when they reach the threshold, for five minutes
/// from the last of them; every other provider stays as available as it was.
pub proof fn law_repeated_failures_exclude_provider(
    pool: PoolView,
    url: Seq<char>,
    moments: Seq<int>,
    i: int,
    j: int,
    now: int,
)
    requires
        pool.is_first_with(i, url),
        pool.states[i].consecutive_failures == 0,
        pool.states[i].tripped_at is None,
        0 <= j < pool.states.len(),
    ensures
        pool_failed_at(pool, url, moments).available(now).contains(j) <==> (if j == i {
            moments.len() < CIRCUIT_BREAKER_THRESHOLD || now - moments.last()
                >= CIRCUIT_BREAKER_COOLDOWN_NANOS
        } else {
            pool.available(now).contains(j)
        }),
{
    let after = pool_failed_at(pool, url, moments);
    law_failures_add_up(pool, url, moments, i);
    law_breaker_trips_at_threshold(pool.states[i], moments);
    law_available_in_priority_order(pool, now);
    law_available_in_priority_order(after, now);
}

/// A successful request brings its provider back at once: it is available at
/// every moment.
pub proof fn law_success_readmits_provider(pool: PoolView, url: Seq<char>, i: int, now: int)
    requires
        pool.is_first_with(i, url),
    ensures
        pool.succeeded(url).available(now).contains(i),
{
    crate::pool::lemma_find_is_first(pool, i, url);
    law_available_in_priority_order(pool.succeeded(url), now);
}

// ── Health checks ─────────────────────────────────────────────────────────

/// A health check that finds a ledger counts as a successful request, and notes
/// the ledger besides; one that fails counts as a failed request.
pub proof fn law_probe_counts_as_request(
    pool: PoolView,
    i: int,
    ledger: u64,
    error: ProbeError,
    now: int,
)
    requires
        pool.is_first_with(i, pool.states[i].provider.url),
    ensures
        pool.probed(i, Ok(ledger), now) == pool.with_state(
            i,
            StateView {
                latest_ledger: ledger as int,
                ..pool.succeeded(pool.states[i].provider.url).states[i]
            },
        ),
        pool.probed(i, Err(error), now) == pool.failed(pool.states[i].provider.url, now),
{
    crate::pool::lemma_find_is_first(pool, i, pool.states[i].provider.url);
}

/// The outcome of one health check, and the moment when it ended.
pub struct CheckView {
    pub outcome: Result<u64, ProbeError>,
    pub now: int,
}

/// The pool after health checks of its first providers, one each, in order of
/// priority.
pub open spec fn checked(pool: PoolView, checks: Seq<CheckView>) -> PoolView
    decreases checks.len(),
{
    if checks.len() == 0 {
        pool
    } else {
        checked(pool, checks.drop_last()).probed(
            checks.len() - 1,
            checks.last().outcome,
            checks.last().now,
        )
    }
}

/// A round of health checks treats each provider by its own outcome alone: the
/// ones that were reached are as after that one check, and the rest of the pool
/// is as it was.
pub proof fn law_round_checks_each_provider(pool: PoolView, checks: Seq<CheckView>)
    requires
        checks.len() <= pool.states.len(),
    ensures
        checked(pool, checks).states.len() == pool.states.len(),
        checked(pool, checks).cursor == pool.cursor,
        forall|i: int|
            0 <= i < pool.states.len() ==> #[trigger] checked(pool, checks).states[i] == (if i
                < checks.len() {
                pool.probed(i, checks[i].outcome, checks[i].now).states[i]
            } else {
                pool.states[i]
            }),
    decreases checks.len(),
{
    if checks.len() > 0 {
        law_round_checks_each_provider(pool, checks.drop_last());
    }
}

// ── Routing ───────────────────────────────────────────────────────────────

/// When latency decides, the order ascends by average; equal averages stand in
/// order of priority; and asking for it moves no cursor.
pub proof fn law_fastest_comes_first(pool: PoolView, now: int)
    requires
        pool.all_warmed(pool.available(now)),
    ensures
        forall|a: int, b: int|
            0 <= a < b < pool.preferred(now).len() ==> {
                let first = #[trigger] pool.preferred(now)[a];
                let second = #[trigger] pool.preferred(now)[b];
                let fast = pool.states[first].stats.ema_rtt_us;
                let slow = pool.states[second].stats.ema_rtt_us;
                fast < slow || (fast == slow && first < second)
            },
        pool.routed(now) == pool,
{
    let available = pool.available(now);
    let order = pool.preferred(now);
    let leq = |i: int, j: int| pool.not_slower(i, j);
    crate::pool::lemma_not_slower_is_total(pool);
    available.lemma_sort_by_ensures(leq);
    law_order_only_permutes(pool, now);
    assert forall|a: int, b: int| 0 <= a < b < order.len() implies {
        let first = #[trigger] order[a];
        let second = #[trigger] order[b];
        let fast = pool.states[first].stats.ema_rtt_us;
        let slow = pool.states[second].stats.ema_rtt_us;
        fast < slow || (fast == slow && first < second)
    } by {
        assert(leq(order[a], order[b]));
        assert(order[a] != order[b]);
    }
}

/// Whatever decides, only the order changes: each available provider is in it
/// exactly once, and no other.
pub proof fn law_order_only_permutes(pool: PoolView, now: int)
    ensures
        pool.preferred(now).to_multiset() == pool.available(now).to_multiset(),
        pool.preferred(now).len() == pool.available(now).len(),
        pool.preferred(now).no_duplicates(),
        forall|i: int| #[trigger]
            pool.preferred(now).contains(i) <==> pool.available(now).contains(i),
{
    let available = pool.available(now);
    let order = pool.preferred(now);
    law_available_in_priority_order(pool, now);
    if pool.all_warmed(available) {
        let leq = |i: int, j: int| pool.not_slower(i, j);
        crate::pool::lemma_not_slower_is_total(pool);
        available.lemma_sort_by_ensures(leq);
    } else {
        let mid = pool.cursor % available.len() as int;
        assert(available.len() > 0);
        assert(0 <= mid < available.len());
        vstd::seq_lib::lemma_multiset_commutative(available.skip(mid), available.take(mid));
        vstd::seq_lib::lemma_multiset_commutative(available.take(mid), available.skip(mid));
        assert(available.take(mid) + available.skip(mid) =~= available);
        assert(order.to_multiset() =~= available.to_multiset());
    }
    available.to_multiset_ensures();
    order.to_multiset_ensures();
    assert forall|i: int| #[trigger] order.contains(i) <==> available.contains(i) by {
        assert(order.to_multiset().count(i) == available.to_multiset().count(i));
    }
    assert(available.no_duplicates());
    available.lemma_multiset_has_no_duplicates();
    order.lemma_multiset_has_no_duplicates_conv();
}

/// With no provider available the order is empty, and the cursor stays.
pub proof fn law_nothing_available_nothing_preferred(pool: PoolView, now: int)
    requires
        pool.available(now).len() == 0,
    ensures
        pool.preferred(now).len() == 0,
        pool.routed(now) == pool,
{
    law_order_only_permutes(pool, now);
}

/// Until all available providers are warmed they are tried in turn, from the one
/// that the cursor points at; and the cursor moves on by one.
pub proof fn law_round_robin_before_warmup(pool: PoolView, now: int, k: int)
    requires
        pool.valid(),
        !pool.all_warmed(pool.available(now)),
        0 <= k < pool.available(now).len(),
    ensures
        pool.preferred(now)[k] == pool.available(now)[(pool.cursor + k)
            % pool.available(now).len() as int],
        pool.cursor < usize::MAX ==> pool.routed(now).cursor == pool.cursor + 1,
        pool.routed(now).states == pool.states,
{
    let n = pool.available(now).len() as int;
    let mid = pool.cursor % n;
    vstd::arithmetic::div_mod::lemma_add_mod_noop(pool.cursor, k, n);
    vstd::arithmetic::div_mod::lemma_small_mod(k as nat, n as nat);
    if mid + k < n {
        vstd::arithmetic::div_mod::lemma_small_mod((mid + k) as nat, n as nat);
    } else {
        vstd::arithmetic::div_mod::lemma_mod_add_multiples_vanish(mid + k - n, n);
        vstd::arithmetic::div_mod::lemma_small_mod((mid + k - n) as nat, n as nat);
    }
}

proof fn lemma_same_states_same_available(a: PoolView, b: PoolView, n: nat, now: int)
    requires
        a.states == b.states,
    ensures
        a.available_of_first(n, now) == b.available_of_first(n, now),
    decreases n,
{
    if n == 0 {
        reveal(Seq::filter);
        assert(a.available_of_first(0, now) =~= b.available_of_first(0, now));
    } else {
        lemma_same_states_same_available(a, b, (n - 1) as nat, now);
        crate::pool::lemma_available_step(a, (n - 1) as nat, now);
        crate::pool::lemma_available_step(b, (n - 1) as nat, now);
    }
}

/// Asking for an order changes nobody's health.
pub proof fn law_routing_keeps_health(pool: PoolView, now: int, later: int)
    ensures
        pool.routed(now).available(later) == pool.available(later),
        pool.routed(now).healthy(later) == pool.healthy(later),
{
    let after = pool.routed(now);
    lemma_same_states_same_available(pool, after, pool.states.len(), later);
    assert(after.healthy(later) =~= pool.healthy(later));
}

/// A new pool is first asked in the order in which its providers were given.
pub proof fn law_fresh_pool_prefers_first(providers: Seq<ProviderView>, now: int)
    ensures
        PoolView::fresh(providers).providers_at(PoolView::fresh(providers).preferred(now))
            == providers,
{
    let pool = PoolView::fresh(providers);
    law_no_trip_all_healthy(pool, now);
    let available = pool.available(now);
    if available.len() == 0 {
        law_nothing_available_nothing_preferred(pool, now);
        assert(pool.providers_at(pool.preferred(now)) =~= providers);
    } else {
        assert(!pool.states[available[0]].stats.is_warmed());
        vstd::arithmetic::div_mod::lemma_small_mod(0, available.len());
        assert(pool.preferred(now) =~= available);
        assert(pool.providers_at(available) =~= providers);
    }
}

/// The pool after it was asked for the order at each of the moments, in turn.
pub open spec fn routed_at(pool: PoolView, moments: Seq<int>) -> PoolView
    decreases moments.len(),
{
    if moments.len() == 0 {
        pool
    } else {
        routed_at(pool, moments.drop_last()).routed(moments.last())
    }
}

/// The provider that comes first when the pool has been asked for the order at
/// the first `turn` of the moments, and is asked for it at the next.
pub open spec fn head_at(pool: PoolView, moments: Seq<int>, turn: int) -> int {
    routed_at(pool, moments.take(turn)).preferred(moments[turn])[0]
}

/// Whether at all these moments the same providers are available, not all of
/// them warmed.
pub open spec fn warming_up(pool: PoolView, available: Seq<int>, moments: Seq<int>) -> bool {
    &&& !pool.all_warmed(available)
    &&& forall|k: int| 0 <= k < moments.len() ==> pool.available(#[trigger] moments[k]) == available
}

/// Whether the cursor, counting up `turns` times, stays in step with a round of
/// `n` providers: it does not start over on the way, or starts over at a multiple
/// of `n`.
pub open spec fn stays_in_step(cursor: int, turns: int, n: int) -> bool {
    cursor + turns <= usize::MAX || (usize::MAX + 1) % n == 0
}

/// A cursor in step points at the same place of the round as one without bound.
proof fn lemma_in_step(cursor: int, turns: int, n: int)
    requires
        0 <= cursor <= usize::MAX,
        0 <= turns <= usize::MAX,
        n > 0,
        stays_in_step(cursor, turns, n),
    ensures
        (if cursor + turns <= usize::MAX {
            cursor + turns
        } else {
            cursor + turns - usize::MAX - 1
        }) % n == (cursor + turns) % n,
{
    if cursor + turns > usize::MAX {
        let m = usize::MAX + 1;
        let rest = cursor + turns - m;
        vstd::arithmetic::div_mod::lemma_add_mod_noop(rest, m, n);
        vstd::arithmetic::div_mod::lemma_mod_twice(rest, n);
    }
}

/// The pool after some requests during the warmup: only the cursor has moved.
proof fn lemma_routed_at(pool: PoolView, available: Seq<int>, moments: Seq<int>)
    requires
        pool.valid(),
        warming_up(pool, available, moments),
        moments.len() <= usize::MAX,
    ensures
        routed_at(pool, moments).states == pool.states,
        routed_at(pool, moments).cursor == (if pool.cursor + moments.len() <= usize::MAX {
            pool.cursor + moments.len()
        } else {
            pool.cursor + moments.len() - usize::MAX - 1
        }),
    decreases moments.len(),
{
    if moments.len() > 0 {
        let before = moments.drop_last();
        let now = moments.last();
        assert forall|k: int| 0 <= k < before.len() implies pool.available(
            #[trigger] before[k],
        ) == available by {
            assert(before[k] == moments[k]);
        }
        lemma_routed_at(pool, available, before);
        assert(pool.available(moments[moments.len() - 1]) == available);
        lemma_same_states_same_available(
            pool,
            routed_at(pool, before),
            pool.states.len(),
            now,
        );
    }
}

/// Which provider comes first at a turn of the round-robin.
proof fn lemma_head_at(pool: PoolView, available: Seq<int>, moments: Seq<int>, turn: int)
    requires
        pool.valid(),
        warming_up(pool, available, moments),
        0 <= turn < moments.len() <= usize::MAX,
        stays_in_step(pool.cursor, turn, available.len() as int),
    ensures
        available.len() > 0,
        head_at(pool, moments, turn) == available[(pool.cursor + turn) % available.len() as int],
{
    let so_far = moments.take(turn);
    let now = moments[turn];
    assert forall|k: int| 0 <= k < so_far.len() implies pool.available(#[trigger] so_far[k])
        == available by {
        assert(so_far[k] == moments[k]);
    }
    lemma_routed_at(pool, available, so_far);
    let then = routed_at(pool, so_far);
    lemma_same_states_same_available(pool, then, pool.states.len(), now);
    lemma_in_step(pool.cursor, turn, available.len() as int);
    law_round_robin_before_warmup(then, now, 0);
}

/// While the round-robin decides between two or more providers, two requests in
/// a row for the order put different ones first.
pub proof fn law_successive_heads_differ(pool: PoolView, now: int, later: int)
    requires
        pool.valid(),
        !pool.all_warmed(pool.available(now)),
        pool.available(now).len() >= 2,
        pool.available(later) == pool.available(now),
        pool.cursor < usize::MAX || usize::MAX as int % pool.available(now).len() as int != 0,
    ensures
        pool.preferred(now)[0] != pool.routed(now).preferred(later)[0],
{
    let available = pool.available(now);
    let n = available.len() as int;
    let next = pool.routed(now);
    lemma_same_states_same_available(pool, next, pool.states.len(), later);
    law_round_robin_before_warmup(pool, now, 0);
    law_round_robin_before_warmup(next, later, 0);
    law_available_in_priority_order(pool, now);
    let a = pool.cursor % n;
    let b = next.cursor % n;
    let c = pool.cursor;
    if c < usize::MAX {
        assert(a != b) by (nonlinear_arith)
            requires
                n >= 2,
                a == c % n,
                b == (c + 1) % n,
        ;
    } else {
        vstd::arithmetic::div_mod::lemma_small_mod(0, n as nat);
    }
    if a < b {
        assert(available[a] < available[b]);
    } else {
        assert(available[b] < available[a]);
    }
}

/// The round-robin starves nobody: in as many requests in a row as there are
/// available providers, each of them comes first exactly once.
pub proof fn law_everyone_gets_a_turn(
    pool: PoolView,
    available: Seq<int>,
    moments: Seq<int>,
    i: int,
)
    requires
        pool.valid(),
        warming_up(pool, available, moments),
        moments.len() == available.len(),
        available.contains(i),
        available.len() <= usize::MAX,
        stays_in_step(pool.cursor, available.len() - 1, available.len() as int),
    ensures
        exists|turn: int|
            0 <= turn < moments.len() && #[trigger] head_at(pool, moments, turn) == i,
        forall|s: int, t: int|
            0 <= s < t < moments.len() && #[trigger] head_at(pool, moments, s) == i
                ==> #[trigger] head_at(pool, moments, t) != i,
{
    let n = available.len() as int;
    assert(pool.available(moments[0]) == available);
    law_available_in_priority_order(pool, moments[0]);
    let p = choose|p: int| 0 <= p < n && available[p] == i;
    let mid = pool.cursor % n;
    let turn = if p >= mid {
        p - mid
    } else {
        p - mid + n
    };
    assert((pool.cursor + turn) % n == p) by {
        vstd::arithmetic::div_mod::lemma_fundamental_div_mod(pool.cursor, n);
        let q = pool.cursor / n;
        if p >= mid {
            vstd::arithmetic::div_mod::lemma_fundamental_div_mod_converse(
                pool.cursor + turn,
                n,
                q,
                p,
            );
        } else {
            assert(n * (q + 1) == n * q + n) by (nonlinear_arith);
            vstd::arithmetic::div_mod::lemma_fundamental_div_mod_converse(
                pool.cursor + turn,
                n,
                q + 1,
                p,
            );
        }
    }
    lemma_head_at(pool, available, moments, turn);
    assert forall|s: int, t: int|
        0 <= s < t < moments.len() && #[trigger] head_at(pool, moments, s)
            == i implies #[trigger] head_at(pool, moments, t) != i by {
        lemma_head_at(pool, available, moments, s);
        lemma_head_at(pool, available, moments, t);
        let a = (pool.cursor + s) % n;
        let b = (pool.cursor + t) % n;
        let c = pool.cursor;
        assert(a != b) by (nonlinear_arith)
            requires
                0 <= s < t < n,
                a == (c + s) % n,
                b == (c + t) % n,
        ;
        if a < b {
            assert(available[a] < available[b]);
        } else {
            assert(available[b] < available[a]);
        }
    }
}

/// While all averages and the sample are at or under the safe bound, the sample
/// is accepted, and the averages stay at or under the bound.
pub proof fn law_safe_sample_is_accepted(pool: PoolView, url: Seq<char>, rtt_us: int)
    requires
        pool.valid(),
        0 <= rtt_us <= crate::stats_laws::SAFE_RTT_US,
        forall|i: int|
            0 <= i < pool.states.len() ==> (#[trigger] pool.states[i]).stats.ema_rtt_us
                <= crate::stats_laws::SAFE_RTT_US,
    ensures
        pool.accepts(url, rtt_us),
        forall|i: int|
            0 <= i < pool.states.len() ==> (#[trigger] pool.sampled(
                url,
                rtt_us,
            ).states[i]).stats.ema_rtt_us <= crate::stats_laws::SAFE_RTT_US,
{
    law_find_gives_first(pool, url);
    if let Some(k) = pool.find(url) {
        assert(pool.states[k].valid());
        crate::stats_laws::law_safe_sample_is_accepted(pool.states[k].stats, rtt_us);
    }
}

} // verus!
