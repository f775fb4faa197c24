//! The circuit breaker and the runtime state of one provider.
//!
//! Moments are nanoseconds, counted from a fixed moment that all of them share.
use vstd::prelude::*;

use crate::provider::{ProviderView, RpcProvider};
use crate::stats::{ProviderStats, StatsView};

verus! {

/// Number of consecutive failures before a provider is tripped.
pub const CIRCUIT_BREAKER_THRESHOLD: u64 = 3;

/// How long a tripped provider is excluded from the pool: five minutes, in
/// nanoseconds.
pub const CIRCUIT_BREAKER_COOLDOWN_NANOS: u128 = 300_000_000_000;

/// EMA smoothing window, measured in samples. A window of 20 weights the newest
/// sample at about 9.5%: responsive enough to notice a provider slowing down
/// within a few requests, stable enough that a single outlier does not dominate
/// routing decisions.
pub const DEFAULT_EMA_WINDOW: u32 = 20;

/// What is known of one provider.
pub struct StateView {
    pub provider: ProviderView,
    /// Failures since the last success.
    pub consecutive_failures: int,
    /// When the circuit breaker was last tripped (`None`: it is closed).
    pub tripped_at: Option<int>,
    /// Latest ledger number returned by a successful health check.
    pub latest_ledger: int,
    pub stats: StatsView,
}

impl StateView {
    /// A provider of which nothing has been seen yet.
    pub open spec fn fresh(provider: ProviderView) -> StateView {
        StateView {
            provider,
            consecutive_failures: 0,
            tripped_at: None,
            latest_ledger: 0,
            stats: StatsView::fresh(DEFAULT_EMA_WINDOW as int),
        }
    }

    /// The breaker is tripped exactly while the failures in a row number at least
    /// [`CIRCUIT_BREAKER_THRESHOLD`].
    pub open spec fn valid(self) -> bool {
        &&& self.stats.valid()
        &&& 0 <= self.consecutive_failures <= u64::MAX
        &&& self.tripped_at is Some <==> self.consecutive_failures >= CIRCUIT_BREAKER_THRESHOLD
    }

    /// Whether the provider may be used: its breaker is closed, or was tripped at
    /// least [`CIRCUIT_BREAKER_COOLDOWN_NANOS`] ago.
    pub open spec fn available(self, now: int) -> bool {
        match self.tripped_at {
            None => true,
            Some(when) => now - when >= CIRCUIT_BREAKER_COOLDOWN_NANOS,
        }
    }

    /// Whether one more failure can be counted.
    pub open spec fn can_fail(self) -> bool {
        self.consecutive_failures < u64::MAX
    }

    /// After one more failure at `now`. At the threshold, and at each failure
    /// beyond it, the breaker is tripped at `now`.
    pub open spec fn failed(self, now: int) -> StateView {
        StateView {
            consecutive_failures: self.consecutive_failures + 1,
            tripped_at: if self.consecutive_failures + 1 >= CIRCUIT_BREAKER_THRESHOLD {
                Some(now)
            } else {
                self.tripped_at
            },
            ..self
        }
    }

    /// After a success: no failures in a row, and the breaker is closed.
    pub open spec fn succeeded(self) -> StateView {
        StateView { consecutive_failures: 0, tripped_at: None, ..self }
    }

    /// After a health check that found the provider at `ledger`.
    pub open spec fn found_at(self, ledger: int) -> StateView {
        StateView { latest_ledger: ledger, ..self.succeeded() }
    }

    /// After one more latency sample.
    pub open spec fn sampled(self, rtt_us: int) -> StateView {
        StateView { stats: self.stats.sampled(rtt_us), ..self }
    }
}

/// The moment as an integer.
pub open spec fn moment_view(moment: Option<u128>) -> Option<int> {
    match moment {
        Some(m) => Some(m as int),
        None => None,
    }
}

/// Runtime health state for a single provider.
#[derive(Debug)]
pub(crate) struct ProviderState {
    provider: RpcProvider,
    /// Rolling count of consecutive failures (reset on success).
    consecutive_failures: u64,
    /// When the circuit breaker was tripped (`None` = healthy).
    tripped_at: Option<u128>,
    /// Latest ledger number returned by the last successful health check.
    latest_ledger: u64,
    /// RTT statistics recorded by every successful request against this
    /// provider.
    stats: ProviderStats,
}

impl View for ProviderState {
    type V = StateView;

    closed spec fn view(&self) -> StateView {
        StateView {
            provider: self.provider@,
            consecutive_failures: self.consecutive_failures as int,
            tripped_at: moment_view(self.tripped_at),
            latest_ledger: self.latest_ledger as int,
            stats: self.stats@,
        }
    }
}

/// What a counted failure came to.
#[derive(Debug, Clone, Copy, PartialEq, Eq)]
pub struct FailureNote {
    /// Failures in a row, this one counted.
    pub failures: u64,
    /// Whether this failure tripped a breaker that was closed.
    pub newly_tripped: bool,
}

impl FailureNote {
    /// The note of the next failure of a provider in the given state.
    pub open spec fn describes(self, before: StateView) -> bool {
        &&& self.failures == before.consecutive_failures + 1
        &&& self.newly_tripped <==> before.tripped_at is None && before.consecutive_failures + 1
            >= CIRCUIT_BREAKER_THRESHOLD
    }
}

impl ProviderState {
    pub(crate) fn new(provider: RpcProvider) -> (state: ProviderState)
        ensures
            state@ == StateView::fresh(provider@),
            state@.valid(),
    {
        ProviderState {
            provider,
            consecutive_failures: 0,
            tripped_at: None,
            latest_ledger: 0,
            stats: ProviderStats::new(DEFAULT_EMA_WINDOW),
        }
    }

    pub(crate) fn provider(&self) -> (provider: &RpcProvider)
        ensures
            provider@ == self@.provider,
    {
        &self.provider
    }

    pub(crate) fn stats(&self) -> (stats: &ProviderStats)
        ensures
            stats@ == self@.stats,
    {
        &self.stats
    }

    pub(crate) fn latest_ledger(&self) -> (ledger: u64)
        ensures
            ledger == self@.latest_ledger,
    {
        self.latest_ledger
    }

    /// Whether one more failure can be counted.
    pub(crate) fn can_fail(&self) -> (possible: bool)
        ensures
            possible == self@.can_fail(),
    {
        self.consecutive_failures < u64::MAX
    }

    /// Whether the provider may be used at `now`.
    pub(crate) fn is_available(&self, now: u128) -> (available: bool)
        ensures
            available == self@.available(now as int),
    {
        match self.tripped_at {
            None => true,
            Some(when) => when <= now && now - when >= CIRCUIT_BREAKER_COOLDOWN_NANOS,
        }
    }

    /// Count a failure at `now`, and trip the breaker when the threshold is
    /// reached.
    pub(crate) fn fail(&mut self, now: u128) -> (note: FailureNote)
        requires
            old(self)@.valid(),
            old(self)@.can_fail(),
        ensures
            final(self)@ == old(self)@.failed(now as int),
            final(self)@.valid(),
            note.describes(old(self)@),
    {
        let failures: u64 = self.consecutive_failures + 1;
        self.consecutive_failures = failures;
        let mut newly_tripped = false;
        if failures >= CIRCUIT_BREAKER_THRESHOLD {
            newly_tripped = self.tripped_at.is_none();
            self.tripped_at = Some(now);
        }
        FailureNote { failures, newly_tripped }
    }

    /// Forget the failures and close the breaker.
    pub(crate) fn succeed(&mut self)
        requires
            old(self)@.valid(),
        ensures
            final(self)@ == old(self)@.succeeded(),
            final(self)@.valid(),
    {
        self.consecutive_failures = 0;
        self.tripped_at = None;
    }

    /// Note the ledger that a health check found, which is a success.
    pub(crate) fn found_at(&mut self, ledger: u64)
        requires
            old(self)@.valid(),
        ensures
            final(self)@ == old(self)@.found_at(ledger as int),
            final(self)@.valid(),
    {
        self.latest_ledger = ledger;
        self.succeed();
    }

    /// Fold one latency sample into the statistics.
    pub(crate) fn sample(&mut self, rtt_us: u64)
        requires
            old(self)@.valid(),
            old(self)@.stats.accepts(rtt_us as int),
        ensures
            final(self)@ == old(self)@.sampled(rtt_us as int),
            final(self)@.valid(),
    {
        self.stats.record(rtt_us);
    }
}

} // verus!
