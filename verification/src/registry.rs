//! The registry that tracks provider health and drives failover.
//!
//! Each operation whose outcome depends on the time comes twice: once with the
//! moment as an argument, in nanoseconds since the registry was built, and once
//! reading the clock itself.
use std::time::Instant;
use vstd::prelude::*;

use crate::clock::nanos_since;
use crate::health::{FailureNote, ProviderState, StateView, CIRCUIT_BREAKER_THRESHOLD};
use crate::pool::PoolView;
use crate::probe::{probe_body, ProbeError, ProbeRequest};
use crate::provider::{ProviderView, RpcProvider};
use crate::stats::ProviderStats;

verus! {

/// Immutable snapshot of one provider's identity and current RTT statistics.
/// Returned by [`ProviderRegistry::stats_snapshot`] so callers (metrics exporters,
/// `/health`, tests) can inspect latency data without holding the registry.
#[derive(Debug, Clone)]
pub struct ProviderStatsSnapshot {
    pub name: String,
    pub url: String,
    pub ema_rtt_us: u64,
    pub sample_count: u64,
}

impl ProviderStatsSnapshot {
    /// Whether this is the snapshot of a provider in the given state.
    pub open spec fn shows(&self, state: StateView) -> bool {
        &&& self.name@ == state.provider.name
        &&& self.url@ == state.provider.url
        &&& self.ema_rtt_us == state.stats.ema_rtt_us
        &&& self.sample_count == state.stats.sample_count
    }
}

/// What to do next in a round of health checks.
#[derive(Debug)]
pub enum HealthStep {
    /// Send this probe, and record its outcome for the provider at the index.
    Probe { index: usize, request: ProbeRequest },
    /// Every provider has been probed.
    Done,
}

/// Registry that tracks provider health and drives failover.
pub struct ProviderRegistry {
    states: Vec<ProviderState>,
    /// Rotating cursor used by the round-robin fallback path during the warmup
    /// window, before every provider has produced the minimum number of RTT
    /// samples required to trust its EMA.
    round_robin_cursor: usize,
    /// The moment from which the registry counts time.
    epoch: Instant,
}

impl View for ProviderRegistry {
    type V = PoolView;

    closed spec fn view(&self) -> PoolView {
        PoolView {
            states: Seq::new(self.states@.len(), |i: int| self.states@[i]@),
            cursor: self.round_robin_cursor as int,
        }
    }
}

/// What the listed providers hold.
pub open spec fn listed(providers: Seq<RpcProvider>) -> Seq<ProviderView> {
    Seq::new(providers.len(), |i: int| providers[i]@)
}

/// What the borrowed providers hold.
pub open spec fn borrowed(providers: Seq<&RpcProvider>) -> Seq<ProviderView> {
    Seq::new(providers.len(), |i: int| providers[i]@)
}

/// The registry counts time from its epoch, and the moments that it may read are
/// those that the clock may give against that epoch.
proof fn law_time_is_read_against_the_epoch(registry: ProviderRegistry, now: u128)
    ensures
        registry.counts_from() == registry.epoch,
        registry.may_read(now) <==> call_ensures(nanos_since, (&registry.epoch,), now),
{
}

/// The indices as integers.
spec fn ints(order: Seq<usize>) -> Seq<int> {
    Seq::new(order.len(), |k: int| order[k] as int)
}

/// Whether each index is that of a provider.
spec fn in_bounds(order: Seq<usize>, n: int) -> bool {
    forall|k: int| 0 <= k < order.len() ==> (#[trigger] order[k]) < n
}

impl ProviderRegistry {
    /// The invariant of the type.
    pub open spec fn wf(&self) -> bool {
        self@.valid()
    }

    /// The moment from which the registry counts time.
    pub closed spec fn counts_from(&self) -> Instant {
        self.epoch
    }

    /// Whether the clock, read against the moment from which the registry counts,
    /// may give this number of nanoseconds.
    pub closed spec fn may_read(&self, now: u128) -> bool {
        call_ensures(crate::clock::nanos_since, (&self.epoch,), now)
    }

    /// The present moment, in nanoseconds since the registry was built.
    fn now(&self) -> (now: u128)
        ensures
            self.may_read(now),
    {
        let clock = nanos_since;
        let now: u128 = clock(&self.epoch);
        assert(call_ensures(clock, (&self.epoch,), now));
        now
    }

    /// Build a registry from a prioritized list of providers.
    ///
    /// The order matters: the first provider is preferred when healthy.
    pub fn new(providers: Vec<RpcProvider>) -> (registry: ProviderRegistry)
        ensures
            registry.wf(),
            registry@ == PoolView::fresh(listed(providers@)),
            call_ensures(Instant::now, (), registry.counts_from()),
    {
        let mut states: Vec<ProviderState> = Vec::new();
        let ghost all = providers@;
        for provider in iter: providers
            invariant
                iter.seq() == all,
                states@.len() == iter.index(),
                forall|i: int|
                    0 <= i < states@.len() ==> (#[trigger] states@[i])@ == StateView::fresh(
                        all[i]@,
                    ) && states@[i]@.valid(),
        {
            states.push(ProviderState::new(provider));
        }
        let clock = Instant::now;
        let epoch: Instant = clock();
        assert(call_ensures(clock, (), epoch));
        let registry = ProviderRegistry { states, round_robin_cursor: 0, epoch };
        assert(registry@ =~= PoolView::fresh(listed(all)));
        registry
    }

    // ── Looking up ────────────────────────────────────────────────────────

    /// Number of providers.
    pub fn len(&self) -> (n: usize)
        ensures
            n == self@.states.len(),
    {
        self.states.len()
    }

    /// The index of the first provider with this URL.
    pub fn find_by_url(&self, url: &str) -> (found: Option<usize>)
        ensures
            match found {
                Some(i) => self@.find(url@) == Some(i as int) && self@.is_first_with(
                    i as int,
                    url@,
                ),
                None => self@.find(url@) is None,
            },
    {
        let wanted: String = url.to_owned();
        let mut i: usize = 0;
        while i < self.states.len()
            invariant
                i <= self.states@.len(),
                wanted@ == url@,
                forall|j: int|
                    0 <= j < i ==> (#[trigger] self@.states[j]).provider.url != url@,
            decreases self.states@.len() - i,
        {
            assert(self@.states[i as int] == self.states@[i as int]@);
            if self.states[i].provider().url == wanted {
                proof {
                    crate::pool::lemma_find_is_first(self@, i as int, url@);
                }
                return Some(i);
            }
            i = i + 1;
        }
        proof {
            crate::pool::lemma_find_nothing(self@, url@);
        }
        None
    }

    /// The provider at an index, in order of priority.
    pub fn provider(&self, index: usize) -> (provider: &RpcProvider)
        requires
            index < self@.states.len(),
        ensures
            provider@ == self@.states[index as int].provider,
    {
        self.states[index].provider()
    }

    /// The latency statistics of the provider at an index.
    pub fn stats(&self, index: usize) -> (stats: &ProviderStats)
        requires
            index < self@.states.len(),
        ensures
            stats@ == self@.states[index as int].stats,
    {
        self.states[index].stats()
    }

    /// The ledger number that the last successful health check of the provider at
    /// an index returned; zero if there was none yet.
    pub fn latest_ledger(&self, index: usize) -> (ledger: u64)
        requires
            index < self@.states.len(),
        ensures
            ledger == self@.states[index as int].latest_ledger,
    {
        self.states[index].latest_ledger()
    }

    // ── Routing ───────────────────────────────────────────────────────────

    /// The indices of the providers that are available at `now`, in priority
    /// order.
    fn available_at(&self, now: u128) -> (available: Vec<usize>)
        ensures
            ints(available@) == self@.available(now as int),
            in_bounds(available@, self.states@.len() as int),
    {
        let mut available: Vec<usize> = Vec::new();
        proof {
            reveal(Seq::filter);
            assert(ints(available@) =~= self@.available_of_first(0, now as int));
        }
        let mut i: usize = 0;
        while i < self.states.len()
            invariant
                i <= self.states@.len(),
                ints(available@) == self@.available_of_first(i as nat, now as int),
                in_bounds(available@, i as int),
            decreases self.states@.len() - i,
        {
            let ghost before = available@;
            assert(self@.states[i as int] == self.states@[i as int]@);
            proof {
                crate::pool::lemma_available_step(self@, i as nat, now as int);
            }
            if self.states[i].is_available(now) {
                available.push(i);
                assert(ints(available@) =~= ints(before).push(i as int));
            }
            i = i + 1;
        }
        available
    }

    /// Return the list of providers that are available for requests at `now`, in
    /// priority order (skipping tripped providers whose cooldown hasn't elapsed).
    pub fn healthy_providers_at(&self, now: u128) -> (healthy: Vec<&RpcProvider>)
        ensures
            healthy@.len() == self@.available(now as int).len(),
            borrowed(healthy@) == self@.healthy(now as int),
    {
        let available = self.available_at(now);
        let mut healthy: Vec<&RpcProvider> = Vec::new();
        let mut k: usize = 0;
        while k < available.len()
            invariant
                k <= available@.len(),
                in_bounds(available@, self.states@.len() as int),
                ints(available@) == self@.available(now as int),
                healthy@.len() == k,
                forall|j: int|
                    0 <= j < k ==> (#[trigger] healthy@[j])@ == self@.states[available@[j] as int].provider,
            decreases available@.len() - k,
        {
            healthy.push(self.states[available[k]].provider());
            k = k + 1;
        }
        assert(borrowed(healthy@) =~= self@.healthy(now as int)) by {
            assert forall|j: int| 0 <= j < healthy@.len() implies borrowed(healthy@)[j]
                == self@.healthy(now as int)[j] by {
                assert(ints(available@)[j] == available@[j] as int);
            }
        }
        healthy
    }

    /// Return the list of providers that are currently available for requests, in
    /// priority order (skipping tripped providers whose cooldown hasn't elapsed).
    pub fn healthy_providers(&self) -> (healthy: Vec<&RpcProvider>)
        ensures
            exists|now: u128| #[trigger]
                self.may_read(now) && borrowed(healthy@) == self@.healthy(now as int),
            self@.untripped() ==> borrowed(healthy@) == self@.providers(),
    {
        let now: u128 = self.now();
        proof {
            if self@.untripped() {
                crate::pool_laws::law_no_trip_all_healthy(self@, now as int);
            }
        }
        self.healthy_providers_at(now)
    }

    /// Whether every one of these providers has enough samples to drive routing.
    fn all_warmed(&self, order: &Vec<usize>) -> (warmed: bool)
        requires
            in_bounds(order@, self.states@.len() as int),
        ensures
            warmed == self@.all_warmed(ints(order@)),
    {
        let mut k: usize = 0;
        while k < order.len()
            invariant
                k <= order@.len(),
                in_bounds(order@, self.states@.len() as int),
                forall|j: int|
                    0 <= j < k ==> self@.states[#[trigger] order@[j] as int].stats.is_warmed(),
            decreases order@.len() - k,
        {
            if !self.states[order[k]].stats().is_warmed() {
                assert(!self@.states[ints(order@)[k as int]].stats.is_warmed());
                return false;
            }
            k = k + 1;
        }
        assert forall|j: int| 0 <= j < ints(order@).len() implies self@.states[
            #[trigger] ints(order@)[j]].stats.is_warmed() by {
            assert(ints(order@)[j] == order@[j] as int);
        }
        true
    }

    /// Whether provider `a` is tried no later than `b` when latency decides.
    fn not_slower(&self, a: usize, b: usize) -> (first: bool)
        requires
            a < self.states@.len(),
            b < self.states@.len(),
        ensures
            first == self@.not_slower(a as int, b as int),
    {
        let ema_a: u64 = self.states[a].stats().ema_rtt_us();
        let ema_b: u64 = self.states[b].stats().ema_rtt_us();
        ema_a < ema_b || (ema_a == ema_b && a <= b)
    }

    /// Insert one more provider into providers that stand in order of latency.
    fn insert_by_latency(&self, sorted: &mut Vec<usize>, index: usize)
        requires
            index < self.states@.len(),
            in_bounds(old(sorted)@, self.states@.len() as int),
            vstd::relations::sorted_by(
                ints(old(sorted)@),
                |i: int, j: int| self@.not_slower(i, j),
            ),
        ensures
            in_bounds(final(sorted)@, self.states@.len() as int),
            vstd::relations::sorted_by(
                ints(final(sorted)@),
                |i: int, j: int| self@.not_slower(i, j),
            ),
            ints(final(sorted)@).to_multiset() == ints(old(sorted)@).to_multiset().insert(
                index as int,
            ),
    {
        let ghost leq = |i: int, j: int| self@.not_slower(i, j);
        let ghost before = ints(sorted@);
        let mut at: usize = sorted.len();
        while at > 0 && !self.not_slower(sorted[at - 1], index)
            invariant
                at <= sorted@.len(),
                index < self.states@.len(),
                in_bounds(sorted@, self.states@.len() as int),
                before == ints(sorted@),
                leq == |i: int, j: int| self@.not_slower(i, j),
                vstd::relations::sorted_by(before, leq),
                forall|k: int|
                    at <= k < before.len() ==> !self@.not_slower(#[trigger] before[k], index as int),
            decreases at,
        {
            at = at - 1;
        }
        sorted.insert(at, index);
        proof {
            let after = ints(sorted@);
            assert(after =~= before.insert(at as int, index as int));
            assert forall|i: int, j: int| 0 <= i < j < after.len() implies #[trigger] leq(
                after[i],
                after[j],
            ) by {
                let old_i = if i < at { i } else { i - 1 };
                let old_j = if j < at { j } else { j - 1 };
                if i != at && j != at {
                    assert(leq(before[old_i], before[old_j]));
                } else if j == at {
                    if i < at - 1 {
                        assert(leq(before[i], before[at - 1]));
                    }
                    assert(self@.not_slower(before[at - 1], index as int));
                } else {
                    assert(!self@.not_slower(before[old_j], index as int));
                }
            }
            vstd::seq_lib::to_multiset_insert(before, at as int, index as int);
        }
    }

    /// These providers in order of latency, the fastest first.
    fn sort_by_latency(&self, order: &Vec<usize>) -> (sorted: Vec<usize>)
        requires
            in_bounds(order@, self.states@.len() as int),
        ensures
            in_bounds(sorted@, self.states@.len() as int),
            ints(sorted@) == self@.fastest_first(ints(order@)),
    {
        let ghost leq = |i: int, j: int| self@.not_slower(i, j);
        let mut sorted: Vec<usize> = Vec::new();
        let mut k: usize = 0;
        assert(ints(sorted@) =~= ints(order@).take(0));
        while k < order.len()
            invariant
                k <= order@.len(),
                in_bounds(order@, self.states@.len() as int),
                in_bounds(sorted@, self.states@.len() as int),
                leq == |i: int, j: int| self@.not_slower(i, j),
                vstd::relations::sorted_by(ints(sorted@), leq),
                ints(sorted@).to_multiset() == ints(order@).take(k as int).to_multiset(),
            decreases order@.len() - k,
        {
            self.insert_by_latency(&mut sorted, order[k]);
            proof {
                let prefix = ints(order@).take(k as int);
                assert(ints(order@).take(k + 1) =~= prefix.push(order@[k as int] as int));
                prefix.to_multiset_ensures();
            }
            k = k + 1;
        }
        proof {
            assert(ints(order@).take(order@.len() as int) =~= ints(order@));
            crate::pool::lemma_fastest_first_unique(self@, ints(order@), ints(sorted@));
        }
        sorted
    }

    /// These providers with the first `mid` of them moved to the end.
    fn rotate_left(order: &Vec<usize>, mid: usize) -> (rotated: Vec<usize>)
        requires
            mid <= order@.len(),
        ensures
            rotated@ == crate::pool::rotated_left(order@, mid as int),
    {
        let mut rotated: Vec<usize> = Vec::new();
        let mut k: usize = mid;
        while k < order.len()
            invariant
                mid <= k <= order@.len(),
                rotated@ == order@.subrange(mid as int, k as int),
            decreases order@.len() - k,
        {
            rotated.push(order[k]);
            k = k + 1;
        }
        let ghost tail = rotated@;
        assert(tail =~= order@.skip(mid as int));
        k = 0;
        while k < mid
            invariant
                k <= mid <= order@.len(),
                rotated@ == tail + order@.take(k as int),
            decreases mid - k,
        {
            rotated.push(order[k]);
            k = k + 1;
        }
        rotated
    }

    /// Return the list of providers that are healthy at `now`, ordered by
    /// preference for the failover loop, honouring measured latency when
    /// available:
    ///
    /// - If **every** healthy provider has reached `MIN_SAMPLES_FOR_EMA` samples,
    ///   sort by EMA ascending: the fastest observed provider is tried first.
    /// - Otherwise fall back to round-robin (starting index advances by one on
    ///   each call) to give new providers a chance to accumulate statistics
    ///   instead of being starved by warmer neighbours.
    ///
    /// Only the **ordering** depends on this: even the slowest healthy provider
    /// is in the returned list, so that callers can still fail over to it.
    pub fn providers_by_latency_at(&mut self, now: u128) -> (ordered: Vec<RpcProvider>)
        requires
            old(self).wf(),
        ensures
            final(self).wf(),
            final(self).counts_from() == old(self).counts_from(),
            final(self)@ == old(self)@.routed(now as int),
            ordered@.len() == old(self)@.preferred(now as int).len(),
            listed(ordered@) == old(self)@.providers_at(old(self)@.preferred(now as int)),
    {
        let available = self.available_at(now);
        let ghost before = self@;
        let order: Vec<usize>;
        if self.all_warmed(&available) {
            order = self.sort_by_latency(&available);
        } else {
            let cursor: usize = self.round_robin_cursor;
            self.round_robin_cursor = cursor.wrapping_add(1);
            let mid: usize = cursor % available.len();
            order = Self::rotate_left(&available, mid);
            assert(ints(order@) =~= crate::pool::rotated_left(ints(available@), mid as int));
        }
        assert(self@ =~= before.routed(now as int));
        let mut ordered: Vec<RpcProvider> = Vec::new();
        let mut k: usize = 0;
        while k < order.len()
            invariant
                k <= order@.len(),
                in_bounds(order@, self.states@.len() as int),
                self@.states == before.states,
                ordered@.len() == k,
                forall|j: int|
                    0 <= j < k ==> (#[trigger] ordered@[j])@ == before.states[order@[j] as int].provider,
            decreases order@.len() - k,
        {
            assert(self@.states[order@[k as int] as int] == self.states@[order@[k as int] as int]@);
            ordered.push(self.states[order[k]].provider().clone());
            k = k + 1;
        }
        assert(listed(ordered@) =~= before.providers_at(before.preferred(now as int))) by {
            assert forall|j: int| 0 <= j < ordered@.len() implies listed(ordered@)[j]
                == before.providers_at(ints(order@))[j] by {
                assert(ints(order@)[j] == order@[j] as int);
            }
        }
        ordered
    }

    /// Return the list of healthy providers ordered by preference for the
    /// failover loop, as [`ProviderRegistry::providers_by_latency_at`] does for the
    /// present moment.
    pub fn providers_by_latency(&mut self) -> (ordered: Vec<RpcProvider>)
        requires
            old(self).wf(),
        ensures
            final(self).wf(),
            final(self).counts_from() == old(self).counts_from(),
            exists|now: u128| #[trigger]
                old(self).may_read(now) && final(self)@ == old(self)@.routed(now as int) && listed(
                    ordered@,
                ) == old(self)@.providers_at(old(self)@.preferred(now as int)),
            old(self)@.untripped() ==> final(self)@ == old(self)@.routed(0) && listed(ordered@)
                == old(self)@.providers_at(old(self)@.preferred(0)),
    {
        let now: u128 = self.now();
        proof {
            if self@.untripped() {
                crate::pool_laws::law_no_trip_all_healthy(self@, now as int);
                crate::pool_laws::law_no_trip_all_healthy(self@, 0);
            }
        }
        self.providers_by_latency_at(now)
    }

    // ── Reports ───────────────────────────────────────────────────────────

    /// Whether [`ProviderRegistry::record_rtt`] can fold in this sample within
    /// 64-bit arithmetic.
    pub fn accepts_rtt(&self, url: &str, rtt_us: u64) -> (accepted: bool)
        requires
            self.wf(),
        ensures
            accepted == self@.accepts(url@, rtt_us as int),
    {
        match self.find_by_url(url) {
            Some(i) => {
                assert(self@.states[i as int].valid());
                self.states[i].stats().accepts(rtt_us)
            },
            None => true,
        }
    }

    /// Record an RTT observation (microseconds) for the provider at `url`. No-op
    /// when the URL is unknown so the caller can record unconditionally.
    pub fn record_rtt(&mut self, url: &str, rtt_us: u64)
        requires
            old(self).wf(),
            old(self)@.accepts(url@, rtt_us as int),
        ensures
            final(self).wf(),
            final(self).counts_from() == old(self).counts_from(),
            final(self)@ == old(self)@.sampled(url@, rtt_us as int),
    {
        let ghost before = self@;
        if let Some(i) = self.find_by_url(url) {
            assert(self@.states[i as int] == self.states@[i as int]@);
            assert(self@.states[i as int].valid());
            self.states[i].sample(rtt_us);
        }
        assert(self@ =~= before.sampled(url@, rtt_us as int));
    }

    /// Snapshot the current RTT statistics for every provider in the registry, in
    /// priority order. Intended for metrics endpoints, `/health`, and tests: the
    /// returned `Vec` is a value type so callers don't hold the registry across
    /// inspection.
    pub fn stats_snapshot(&self) -> (snapshot: Vec<ProviderStatsSnapshot>)
        ensures
            snapshot@.len() == self@.states.len(),
            forall|i: int|
                0 <= i < snapshot@.len() ==> (#[trigger] snapshot@[i]).shows(self@.states[i]),
    {
        let mut snapshot: Vec<ProviderStatsSnapshot> = Vec::new();
        let mut i: usize = 0;
        while i < self.states.len()
            invariant
                i <= self.states@.len(),
                snapshot@.len() == i,
                forall|j: int| 0 <= j < i ==> (#[trigger] snapshot@[j]).shows(self@.states[j]),
            decreases self.states@.len() - i,
        {
            let state = &self.states[i];
            snapshot.push(
                ProviderStatsSnapshot {
                    name: state.provider().name.clone(),
                    url: state.provider().url.clone(),
                    ema_rtt_us: state.stats().ema_rtt_us(),
                    sample_count: state.stats().sample_count(),
                },
            );
            i = i + 1;
        }
        snapshot
    }

    /// Report a successful request to `url`. Resets the failure counter and
    /// clears any active trip.
    pub fn report_success(&mut self, url: &str)
        requires
            old(self).wf(),
        ensures
            final(self).wf(),
            final(self).counts_from() == old(self).counts_from(),
            final(self)@ == old(self)@.succeeded(url@),
    {
        let ghost before = self@;
        if let Some(i) = self.find_by_url(url) {
            assert(self@.states[i as int] == self.states@[i as int]@);
            assert(self@.states[i as int].valid());
            self.states[i].succeed();
        }
        assert(self@ =~= before.succeeded(url@));
    }

    /// Whether [`ProviderRegistry::report_failure`] can count one more failure of
    /// this provider.
    pub fn can_fail(&self, url: &str) -> (possible: bool)
        ensures
            possible == self@.can_fail(url@),
    {
        match self.find_by_url(url) {
            Some(i) => self.states[i].can_fail(),
            None => true,
        }
    }

    /// Report a failed request to `url` at `now`. Increments the failure counter
    /// and trips the circuit breaker when the threshold is reached. Tells what the
    /// failure came to; there is nothing to tell when the URL is unknown.
    pub fn report_failure_at(&mut self, url: &str, now: u128) -> (note: Option<FailureNote>)
        requires
            old(self).wf(),
            old(self)@.can_fail(url@),
        ensures
            final(self).wf(),
            final(self).counts_from() == old(self).counts_from(),
            final(self)@ == old(self)@.failed(url@, now as int),
            match old(self)@.find(url@) {
                Some(i) => note matches Some(n) && n.describes(old(self)@.states[i]),
                None => note is None,
            },
    {
        let ghost before = self@;
        let mut note: Option<FailureNote> = None;
        if let Some(i) = self.find_by_url(url) {
            assert(self@.states[i as int] == self.states@[i as int]@);
            assert(self@.states[i as int].valid());
            note = Some(self.states[i].fail(now));
        }
        assert(self@ =~= before.failed(url@, now as int));
        note
    }

    /// Report a failed request to `url`, as
    /// [`ProviderRegistry::report_failure_at`] does for the present moment.
    pub fn report_failure(&mut self, url: &str) -> (note: Option<FailureNote>)
        requires
            old(self).wf(),
            old(self)@.can_fail(url@),
        ensures
            final(self).wf(),
            final(self).counts_from() == old(self).counts_from(),
            exists|now: u128| #[trigger]
                old(self).may_read(now) && final(self)@ == old(self)@.failed(url@, now as int),
            match old(self)@.find(url@) {
                Some(i) => note matches Some(n) && n.describes(old(self)@.states[i]) && (n.failures
                    < CIRCUIT_BREAKER_THRESHOLD ==> final(self)@ == old(self)@.failed(url@, 0)),
                None => note is None,
            },
    {
        let now: u128 = self.now();
        self.report_failure_at(url, now)
    }

    /// Determine whether a request should be retried on the next provider, from
    /// the status of its reply: `true` for HTTP 429 and the 5xx status codes.
    pub fn is_retryable_status(status: u16) -> (retryable: bool)
        ensures
            retryable == (status == 429 || 500 <= status < 600),
    {
        status == 429 || (500 <= status && status < 600)
    }

    // ── Health checks ─────────────────────────────────────────────────────

    /// What to do next in a round of health checks in which `probed` providers
    /// have been probed already. A round probes the providers in priority order.
    pub fn health_step(&self, probed: usize) -> (step: HealthStep)
        ensures
            match step {
                HealthStep::Probe { index, request } => index == probed && probed
                    < self@.states.len() && request.probes(self@.states[probed as int].provider),
                HealthStep::Done => probed >= self@.states.len(),
            },
    {
        if probed < self.states.len() {
            let provider = self.states[probed].provider();
            let request = ProbeRequest {
                url: provider.url.clone(),
                auth: provider.auth(),
                body: probe_body(),
            };
            HealthStep::Probe { index: probed, request }
        } else {
            HealthStep::Done
        }
    }

    /// Whether [`ProviderRegistry::record_probe`] can count one more failure of
    /// the provider at an index.
    pub fn can_fail_probe(&self, index: usize) -> (possible: bool)
        requires
            index < self@.states.len(),
        ensures
            possible == self@.states[index as int].can_fail(),
    {
        self.states[index].can_fail()
    }

    /// Record the outcome at `now` of a health check of the provider at an index.
    /// A ledger number resets the failure counter and clears any active trip; an
    /// error counts as a failure, and is told about.
    pub fn record_probe_at(
        &mut self,
        index: usize,
        outcome: &Result<u64, ProbeError>,
        now: u128,
    ) -> (note: Option<FailureNote>)
        requires
            old(self).wf(),
            index < old(self)@.states.len(),
            outcome is Err ==> old(self)@.states[index as int].can_fail(),
        ensures
            final(self).wf(),
            final(self).counts_from() == old(self).counts_from(),
            final(self)@ == old(self)@.probed(index as int, *outcome, now as int),
            match *outcome {
                Ok(_) => note is None,
                Err(_) => note matches Some(n) && n.describes(old(self)@.states[index as int]),
            },
    {
        let ghost before = self@;
        assert(self@.states[index as int] == self.states@[index as int]@);
        assert(self@.states[index as int].valid());
        let mut note: Option<FailureNote> = None;
        match outcome {
            Ok(ledger) => self.states[index].found_at(*ledger),
            Err(_) => {
                note = Some(self.states[index].fail(now));
            },
        }
        assert(self@ =~= before.probed(index as int, *outcome, now as int));
        note
    }

    /// Record the outcome of a health check, as
    /// [`ProviderRegistry::record_probe_at`] does for the present moment.
    pub fn record_probe(&mut self, index: usize, outcome: &Result<u64, ProbeError>) -> (note: Option<
        FailureNote,
    >)
        requires
            old(self).wf(),
            index < old(self)@.states.len(),
            outcome is Err ==> old(self)@.states[index as int].can_fail(),
        ensures
            final(self).wf(),
            final(self).counts_from() == old(self).counts_from(),
            exists|now: u128| #[trigger]
                old(self).may_read(now) && final(self)@ == old(self)@.probed(
                    index as int,
                    *outcome,
                    now as int,
                ),
            match *outcome {
                Ok(_) => note is None && final(self)@ == old(self)@.probed(
                    index as int,
                    *outcome,
                    0,
                ),
                Err(_) => note matches Some(n) && n.describes(old(self)@.states[index as int]) && (
                n.failures < CIRCUIT_BREAKER_THRESHOLD ==> final(self)@ == old(self)@.probed(
                    index as int,
                    *outcome,
                    0,
                )),
            },
    {
        let now: u128 = self.now();
        self.record_probe_at(index, outcome, now)
    }
}

} // verus!
