//! Round-trip-time statistics of one provider: an exponential moving average in
//! whole microseconds, updated with integer arithmetic only.
use vstd::prelude::*;

verus! {

/// Minimum samples a provider must have accumulated before its EMA is trusted
/// for latency-based routing.
pub const MIN_SAMPLES_FOR_EMA: u64 = 10;

/// The scale of the smoothing factor: a factor of one is stored as this number.
pub const ALPHA_SCALE: u64 = 1_000_000;

/// What a [`ProviderStats`] holds, as mathematical integers.
pub struct StatsView {
    /// Moving average of the round-trip time, in microseconds.
    pub ema_rtt_us: int,
    /// Number of samples recorded.
    pub sample_count: int,
    /// Smoothing factor, in millionths.
    pub alpha_millionths: int,
}

impl StatsView {
    /// Statistics without samples. The smoothing factor is `2 / (window + 1)`,
    /// rounded down to a millionth; a window of zero counts as a window of one.
    pub open spec fn fresh(ema_window: int) -> StatsView {
        let window = if ema_window < 1 {
            1
        } else {
            ema_window
        };
        StatsView {
            ema_rtt_us: 0,
            sample_count: 0,
            alpha_millionths: 2 * ALPHA_SCALE as int / (window + 1),
        }
    }

    /// The smoothing factor lies between zero and one, and the other numbers fit
    /// their machine integers.
    pub open spec fn valid(self) -> bool {
        &&& 0 <= self.alpha_millionths <= ALPHA_SCALE
        &&& 0 <= self.ema_rtt_us <= u64::MAX
        &&& 0 <= self.sample_count <= u64::MAX
    }

    /// `alpha * sample + (1 - alpha) * average`, in millionths of a microsecond.
    pub open spec fn weighted_sum(self, rtt_us: int) -> int {
        self.alpha_millionths * rtt_us + (ALPHA_SCALE - self.alpha_millionths) * self.ema_rtt_us
    }

    /// Whether the sample can be folded in without leaving 64-bit arithmetic. A
    /// first sample always can.
    pub open spec fn accepts(self, rtt_us: int) -> bool {
        self.sample_count == 0 || self.weighted_sum(rtt_us) <= u64::MAX
    }

    /// The statistics after one more sample. The first sample is the average;
    /// each later one is folded in, rounding down. The counter is a 64-bit one
    /// that starts over at zero behind its largest value.
    pub open spec fn sampled(self, rtt_us: int) -> StatsView {
        StatsView {
            ema_rtt_us: if self.sample_count == 0 {
                rtt_us
            } else {
                self.weighted_sum(rtt_us) / ALPHA_SCALE as int
            },
            sample_count: if self.sample_count == u64::MAX {
                0
            } else {
                self.sample_count + 1
            },
            alpha_millionths: self.alpha_millionths,
        }
    }

    /// Whether there are enough samples to route by latency.
    pub open spec fn is_warmed(self) -> bool {
        self.sample_count >= MIN_SAMPLES_FOR_EMA
    }
}

/// Per-provider latency statistics. All times are whole microseconds.
#[derive(Debug)]
pub struct ProviderStats {
    /// EMA of RTT in whole microseconds.
    ema_rtt_us: u64,
    /// Number of samples recorded.
    sample_count: u64,
    /// The EMA smoothing factor in millionths, so that the update is
    /// integer-only.
    alpha_millionths: u64,
}

impl View for ProviderStats {
    type V = StatsView;

    closed spec fn view(&self) -> StatsView {
        StatsView {
            ema_rtt_us: self.ema_rtt_us as int,
            sample_count: self.sample_count as int,
            alpha_millionths: self.alpha_millionths as int,
        }
    }
}

/// The two products of the update are at least zero, and fit 128-bit arithmetic.
proof fn lemma_weighted_sum_parts(alpha: int, rtt_us: int, ema: int)
    requires
        0 <= alpha <= ALPHA_SCALE,
        0 <= rtt_us <= u64::MAX,
        0 <= ema <= u64::MAX,
    ensures
        0 <= alpha * rtt_us <= ALPHA_SCALE * u64::MAX,
        0 <= (ALPHA_SCALE - alpha) * ema <= ALPHA_SCALE * u64::MAX,
{
    let rest = ALPHA_SCALE - alpha;
    assert(0 <= alpha * rtt_us <= ALPHA_SCALE * u64::MAX) by (nonlinear_arith)
        requires
            0 <= alpha <= ALPHA_SCALE,
            0 <= rtt_us <= u64::MAX,
    ;
    assert(0 <= rest * ema <= ALPHA_SCALE * u64::MAX) by (nonlinear_arith)
        requires
            0 <= rest <= ALPHA_SCALE,
            0 <= ema <= u64::MAX,
    ;
}

impl ProviderStats {
    /// The invariant of the type.
    pub open spec fn wf(&self) -> bool {
        self@.valid()
    }

    /// Build a fresh stats tracker with `ema_window` samples of memory.
    /// Smaller windows react faster to latency changes; larger windows smooth
    /// over transient outliers. A zero window is clamped to one sample.
    pub fn new(ema_window: u32) -> (stats: ProviderStats)
        ensures
            stats.wf(),
            stats@ == StatsView::fresh(ema_window as int),
    {
        let w: u64 = if ema_window < 1 {
            1
        } else {
            ema_window as u64
        };
        proof {
            crate::stats_laws::law_fresh_is_valid(ema_window);
        }
        let alpha_millionths: u64 = 2_000_000 / (w + 1);
        ProviderStats { ema_rtt_us: 0, sample_count: 0, alpha_millionths }
    }

    /// Whether [`ProviderStats::record`] can fold in this sample within 64-bit
    /// arithmetic.
    pub fn accepts(&self, rtt_us: u64) -> (accepted: bool)
        requires
            self.wf(),
        ensures
            accepted == self@.accepts(rtt_us as int),
    {
        if self.sample_count == 0 {
            return true;
        }
        proof {
            lemma_weighted_sum_parts(
                self.alpha_millionths as int,
                rtt_us as int,
                self.ema_rtt_us as int,
            );
        }
        let sample_part: u128 = self.alpha_millionths as u128 * rtt_us as u128;
        let history_part: u128 = (ALPHA_SCALE - self.alpha_millionths) as u128
            * self.ema_rtt_us as u128;
        sample_part + history_part <= u64::MAX as u128
    }

    /// Record one RTT observation (microseconds) and fold it into the EMA. The
    /// first sample seeds the EMA directly so the series starts on the true
    /// value rather than slowly rising from zero.
    pub fn record(&mut self, rtt_us: u64)
        requires
            old(self).wf(),
            old(self)@.accepts(rtt_us as int),
        ensures
            final(self).wf(),
            final(self)@ == old(self)@.sampled(rtt_us as int),
    {
        let count: u64 = self.sample_count;
        self.sample_count = count.wrapping_add(1);
        if count == 0 {
            self.ema_rtt_us = rtt_us;
            return;
        }
        let prev: u64 = self.ema_rtt_us;
        let alpha: u64 = self.alpha_millionths;
        proof {
            lemma_weighted_sum_parts(alpha as int, rtt_us as int, prev as int);
        }
        let new_ema: u64 = (alpha * rtt_us + (ALPHA_SCALE - alpha) * prev) / ALPHA_SCALE;
        self.ema_rtt_us = new_ema;
    }

    /// Current EMA in microseconds. Zero when no samples have been recorded yet.
    pub fn ema_rtt_us(&self) -> (ema: u64)
        ensures
            ema == self@.ema_rtt_us,
    {
        self.ema_rtt_us
    }

    /// Total samples recorded so far. Used to gate the switch from warmup
    /// (round-robin) to steady-state (least-EMA) routing.
    pub fn sample_count(&self) -> (count: u64)
        ensures
            count == self@.sample_count,
    {
        self.sample_count
    }

    /// True once the stats have enough samples to drive latency-based routing
    /// decisions. See [`MIN_SAMPLES_FOR_EMA`].
    pub fn is_warmed(&self) -> (warmed: bool)
        ensures
            warmed == self@.is_warmed(),
    {
        self.sample_count() >= MIN_SAMPLES_FOR_EMA
    }
}

} // verus!
