//! What holds of the latency statistics over any series of samples.
use vstd::prelude::*;

use crate::stats::{StatsView, ALPHA_SCALE, MIN_SAMPLES_FOR_EMA};

verus! {

/// The largest sample that can never overflow the update, whatever the
/// smoothing factor: a little over 213 days.
pub const SAFE_RTT_US: u64 = 18_446_744_073_709;

impl StatsView {
    /// The statistics after a whole series of samples, oldest first.
    pub open spec fn sampled_all(self, samples: Seq<int>) -> StatsView
        decreases samples.len(),
    {
        if samples.len() == 0 {
            self
        } else {
            self.sampled_all(samples.drop_last()).sampled(samples.last())
        }
    }

    /// Whether each sample of the series can be recorded in its turn.
    pub open spec fn accepts_all(self, samples: Seq<int>) -> bool {
        forall|k: int|
            0 <= k < samples.len() ==> #[trigger] self.sampled_all(samples.take(k)).accepts(
                samples[k],
            )
    }

    /// The statistics after `n` samples of the same value.
    pub open spec fn sampled_times(self, rtt_us: int, n: nat) -> StatsView {
        self.sampled_all(Seq::new(n, |i: int| rtt_us))
    }
}

/// Statistics without samples are valid, for every window.
pub proof fn law_fresh_is_valid(ema_window: u32)
    ensures
        StatsView::fresh(ema_window as int).valid(),
{
    let window: int = if ema_window < 1 { 1 } else { ema_window as int };
    assert(0 <= 2_000_000int / (window + 1) <= 1_000_000) by (nonlinear_arith)
        requires
            window >= 1,
    ;
}

/// A zero window is clamped to a window of one sample.
pub proof fn law_zero_window_counts_as_one()
    ensures
        StatsView::fresh(0) == StatsView::fresh(1),
{
}

/// A smaller window never has a smaller smoothing factor, so it never weighs the
/// newest sample less.
pub proof fn law_smaller_window_weighs_newest_more(small: u32, large: u32)
    requires
        small <= large,
    ensures
        StatsView::fresh(large as int).alpha_millionths <= StatsView::fresh(
            small as int,
        ).alpha_millionths,
{
    let s: int = if small < 1 { 1 } else { small as int };
    let l: int = if large < 1 { 1 } else { large as int };
    assert(2_000_000int / (l + 1) <= 2_000_000int / (s + 1)) by (nonlinear_arith)
        requires
            1 <= s <= l,
    ;
}

/// The first sample seeds the average with its exact value, for every window.
pub proof fn law_first_sample_seeds_average(ema_window: u32, rtt_us: u64)
    ensures
        StatsView::fresh(ema_window as int).accepts(rtt_us as int),
        StatsView::fresh(ema_window as int).sampled(rtt_us as int).ema_rtt_us == rtt_us,
        StatsView::fresh(ema_window as int).sampled(rtt_us as int).sample_count == 1,
{
}

/// One more sample moves the average towards the sample and never past it: the
/// new average lies between the old one and the sample.
pub proof fn law_average_stays_between(stats: StatsView, rtt_us: int)
    requires
        stats.valid(),
        stats.sample_count > 0,
        0 <= rtt_us,
    ensures
        stats.ema_rtt_us <= rtt_us ==> stats.ema_rtt_us <= stats.sampled(rtt_us).ema_rtt_us
            <= rtt_us,
        rtt_us <= stats.ema_rtt_us ==> rtt_us <= stats.sampled(rtt_us).ema_rtt_us
            <= stats.ema_rtt_us,
{
    let a = stats.alpha_millionths;
    let p = stats.ema_rtt_us;
    let sum = a * rtt_us + (ALPHA_SCALE - a) * p;
    if p <= rtt_us {
        assert(p * ALPHA_SCALE <= sum <= rtt_us * ALPHA_SCALE) by (nonlinear_arith)
            requires
                0 <= a <= ALPHA_SCALE,
                p <= rtt_us,
                sum == a * rtt_us + (ALPHA_SCALE - a) * p,
        ;
    }
    if rtt_us <= p {
        assert(rtt_us * ALPHA_SCALE <= sum <= p * ALPHA_SCALE) by (nonlinear_arith)
            requires
                0 <= a <= ALPHA_SCALE,
                rtt_us <= p,
                sum == a * rtt_us + (ALPHA_SCALE - a) * p,
        ;
    }
}

/// A slower sample never leaves a faster average behind.
pub proof fn law_average_is_monotone_in_sample(stats: StatsView, fast: int, slow: int)
    requires
        stats.valid(),
        0 <= fast <= slow,
    ensures
        stats.sampled(fast).ema_rtt_us <= stats.sampled(slow).ema_rtt_us,
{
    let a = stats.alpha_millionths;
    assert(a * fast <= a * slow) by (nonlinear_arith)
        requires
            0 <= a,
            fast <= slow,
    ;
}

/// With the larger smoothing factor the average ends up at least as close to the
/// sample.
pub proof fn law_larger_factor_reacts_faster(quick: StatsView, slow: StatsView, rtt_us: int)
    requires
        quick.valid(),
        slow.valid(),
        quick.sample_count > 0,
        slow.sample_count > 0,
        quick.ema_rtt_us == slow.ema_rtt_us,
        quick.alpha_millionths >= slow.alpha_millionths,
        0 <= rtt_us,
    ensures
        quick.ema_rtt_us <= rtt_us ==> slow.sampled(rtt_us).ema_rtt_us <= quick.sampled(
            rtt_us,
        ).ema_rtt_us <= rtt_us,
        rtt_us <= quick.ema_rtt_us ==> rtt_us <= quick.sampled(rtt_us).ema_rtt_us
            <= slow.sampled(rtt_us).ema_rtt_us,
{
    law_average_stays_between(quick, rtt_us);
    let q = quick.alpha_millionths;
    let s = slow.alpha_millionths;
    let p = quick.ema_rtt_us;
    let quick_sum = q * rtt_us + (ALPHA_SCALE - q) * p;
    let slow_sum = s * rtt_us + (ALPHA_SCALE - s) * p;
    assert(quick_sum - slow_sum == (q - s) * (rtt_us - p)) by (nonlinear_arith)
        requires
            quick_sum == q * rtt_us + (ALPHA_SCALE - q) * p,
            slow_sum == s * rtt_us + (ALPHA_SCALE - s) * p,
    ;
    if p <= rtt_us {
        assert((q - s) * (rtt_us - p) >= 0) by (nonlinear_arith)
            requires
                q >= s,
                rtt_us >= p,
        ;
    }
    if rtt_us <= p {
        assert((q - s) * (rtt_us - p) <= 0) by (nonlinear_arith)
            requires
                q >= s,
                rtt_us <= p,
        ;
    }
}

/// No sample changes the smoothing factor, and the invariant survives every
/// sample.
pub proof fn law_sample_keeps_invariant(stats: StatsView, rtt_us: u64)
    requires
        stats.valid(),
    ensures
        stats.sampled(rtt_us as int).alpha_millionths == stats.alpha_millionths,
        stats.sampled(rtt_us as int).valid(),
{
    if stats.sample_count > 0 {
        law_average_stays_between(stats, rtt_us as int);
    }
}

/// As long as samples and average stay at or under [`SAFE_RTT_US`], the next
/// sample is accepted and the average stays at or under it too.
pub proof fn law_safe_sample_is_accepted(stats: StatsView, rtt_us: int)
    requires
        stats.valid(),
        stats.ema_rtt_us <= SAFE_RTT_US,
        0 <= rtt_us <= SAFE_RTT_US,
    ensures
        stats.accepts(rtt_us),
        stats.sampled(rtt_us).valid(),
        stats.sampled(rtt_us).ema_rtt_us <= SAFE_RTT_US,
{
    let a = stats.alpha_millionths;
    let p = stats.ema_rtt_us;
    let sum = a * rtt_us + (ALPHA_SCALE - a) * p;
    assert(sum <= ALPHA_SCALE * SAFE_RTT_US) by (nonlinear_arith)
        requires
            0 <= a <= ALPHA_SCALE,
            p <= SAFE_RTT_US,
            rtt_us <= SAFE_RTT_US,
            sum == a * rtt_us + (ALPHA_SCALE - a) * p,
    ;
    if stats.sample_count > 0 {
        law_average_stays_between(stats, rtt_us);
    }
}

/// A series of samples at or under [`SAFE_RTT_US`] is accepted whole from the
/// start, for every window.
pub proof fn law_safe_series_is_accepted(ema_window: u32, samples: Seq<int>)
    requires
        forall|k: int| 0 <= k < samples.len() ==> 0 <= #[trigger] samples[k] <= SAFE_RTT_US,
    ensures
        StatsView::fresh(ema_window as int).accepts_all(samples),
        StatsView::fresh(ema_window as int).sampled_all(samples).valid(),
        StatsView::fresh(ema_window as int).sampled_all(samples).ema_rtt_us <= SAFE_RTT_US,
    decreases samples.len(),
{
    let fresh = StatsView::fresh(ema_window as int);
    law_fresh_is_valid(ema_window);
    if samples.len() > 0 {
        let before = samples.drop_last();
        law_safe_series_is_accepted(ema_window, before);
        law_safe_sample_is_accepted(fresh.sampled_all(before), samples.last());
        assert forall|k: int| 0 <= k < samples.len() implies #[trigger] fresh.sampled_all(
            samples.take(k),
        ).accepts(samples[k]) by {
            if k < before.len() {
                assert(samples.take(k) =~= before.take(k));
                assert(fresh.sampled_all(before.take(k)).accepts(before[k]));
            } else {
                assert(samples.take(k) =~= before);
            }
        }
    }
}

/// However many samples of one value are recorded, the average is that value and
/// the count is their number.
pub proof fn law_identical_samples_average_to_their_value(ema_window: u32, rtt_us: int, n: nat)
    requires
        0 <= rtt_us,
        1 <= n <= u64::MAX,
    ensures
        StatsView::fresh(ema_window as int).sampled_times(rtt_us, n).ema_rtt_us == rtt_us,
        StatsView::fresh(ema_window as int).sampled_times(rtt_us, n).sample_count == n,
    decreases n,
{
    let fresh = StatsView::fresh(ema_window as int);
    let series = Seq::new(n, |i: int| rtt_us);
    assert(series.drop_last() =~= Seq::new((n - 1) as nat, |i: int| rtt_us));
    if n == 1 {
        assert(fresh.sampled_all(series.drop_last()) == fresh);
    } else {
        law_identical_samples_average_to_their_value(ema_window, rtt_us, (n - 1) as nat);
        let before = fresh.sampled_all(series.drop_last());
        let a = before.alpha_millionths;
        assert(a * rtt_us + (ALPHA_SCALE - a) * rtt_us == ALPHA_SCALE * rtt_us)
            by (nonlinear_arith);
        assert((ALPHA_SCALE * rtt_us) / (ALPHA_SCALE as int) == rtt_us) by (nonlinear_arith);
    }
}

/// The average is zero while there are no samples, and afterwards only if some
/// sample was zero.
pub proof fn law_zero_average_means_no_samples(ema_window: u32, samples: Seq<int>)
    requires
        forall|k: int| 0 <= k < samples.len() ==> 0 <= #[trigger] samples[k] <= u64::MAX,
    ensures
        samples.len() == 0 ==> StatsView::fresh(ema_window as int).sampled_all(samples).ema_rtt_us
            == 0,
        samples.len() > 0 && StatsView::fresh(ema_window as int).sampled_all(samples).ema_rtt_us
            == 0 ==> samples.contains(0),
        StatsView::fresh(ema_window as int).sampled_all(samples).valid(),
    decreases samples.len(),
{
    let fresh = StatsView::fresh(ema_window as int);
    law_fresh_is_valid(ema_window);
    if samples.len() > 0 {
        let before = samples.drop_last();
        let stats = fresh.sampled_all(before);
        law_zero_average_means_no_samples(ema_window, before);
        law_sample_keeps_invariant(stats, samples.last() as u64);
        if stats.sample_count > 0 {
            law_average_stays_between(stats, samples.last());
        }
        if stats.sampled(samples.last()).ema_rtt_us == 0 {
            if samples.last() == 0 {
                assert(samples[samples.len() - 1] == 0);
            } else {
                assert(before.contains(0));
                let k = choose|k: int| 0 <= k < before.len() && before[k] == 0;
                assert(samples[k] == 0);
            }
        }
    }
}

/// Fresh statistics are warmed after a series of samples exactly when the series
/// has [`MIN_SAMPLES_FOR_EMA`] samples.
pub proof fn law_warmed_after_enough_samples(ema_window: u32, samples: Seq<int>)
    requires
        samples.len() <= u64::MAX,
    ensures
        StatsView::fresh(ema_window as int).sampled_all(samples).sample_count == samples.len(),
        StatsView::fresh(ema_window as int).sampled_all(samples).is_warmed() <==> samples.len()
            >= MIN_SAMPLES_FOR_EMA,
    decreases samples.len(),
{
    if samples.len() > 0 {
        law_warmed_after_enough_samples(ema_window, samples.drop_last());
    }
}

/// Warmed statistics stay warmed, until the counter starts over.
pub proof fn law_warmed_stays_warmed(stats: StatsView, rtt_us: int)
    requires
        stats.is_warmed(),
        stats.sample_count < u64::MAX,
    ensures
        stats.sampled(rtt_us).is_warmed(),
{
}

/// Whether the average has come as close to `rtt_us` as whole microseconds
/// allow: at the value, or under it by less than one step of the update.
pub open spec fn has_converged(stats: StatsView, rtt_us: int) -> bool {
    &&& stats.ema_rtt_us <= rtt_us
    &&& stats.alpha_millionths * (rtt_us - stats.ema_rtt_us) < ALPHA_SCALE
}

/// Under repeated samples of one value an average that has not converged moves
/// strictly towards that value, and one that has converged stays where it is.
pub proof fn law_repeated_sample_makes_progress(stats: StatsView, rtt_us: int)
    requires
        stats.valid(),
        stats.sample_count > 0,
        stats.alpha_millionths > 0,
        0 <= rtt_us,
    ensures
        has_converged(stats, rtt_us) ==> stats.sampled(rtt_us).ema_rtt_us == stats.ema_rtt_us,
        !has_converged(stats, rtt_us) && stats.ema_rtt_us < rtt_us ==> stats.ema_rtt_us
            < stats.sampled(rtt_us).ema_rtt_us <= rtt_us,
        stats.ema_rtt_us > rtt_us ==> rtt_us <= stats.sampled(rtt_us).ema_rtt_us
            < stats.ema_rtt_us,
{
    law_average_stays_between(stats, rtt_us);
    let a = stats.alpha_millionths;
    let p = stats.ema_rtt_us;
    let sum = a * rtt_us + (ALPHA_SCALE - a) * p;
    assert(sum == ALPHA_SCALE * p + a * (rtt_us - p)) by (nonlinear_arith)
        requires
            sum == a * rtt_us + (ALPHA_SCALE - a) * p,
    ;
    if p <= rtt_us {
        assert(a * (rtt_us - p) >= 0) by (nonlinear_arith)
            requires
                a >= 0,
                rtt_us >= p,
        ;
    } else {
        assert(a * (rtt_us - p) < 0) by (nonlinear_arith)
            requires
                a > 0,
                rtt_us < p,
        ;
    }
}

/// Whether the average has converged after `enough` samples of the value, and
/// after any larger number of them.
pub open spec fn converged_from(stats: StatsView, rtt_us: int, enough: nat) -> bool {
    forall|n: nat|
        n >= enough ==> has_converged(#[trigger] stats.sampled_times(rtt_us, n), rtt_us)
}

/// Recording the first of `n + 1` equal samples and then the rest is recording
/// all of them.
proof fn lemma_sampled_times_step(stats: StatsView, rtt_us: int, n: nat)
    ensures
        stats.sampled_times(rtt_us, n + 1) == stats.sampled(rtt_us).sampled_times(rtt_us, n),
    decreases n,
{
    let long = Seq::new(n + 1, |i: int| rtt_us);
    let short = Seq::new(n, |i: int| rtt_us);
    assert(long.drop_last() =~= short);
    if n == 0 {
        assert(stats.sampled_all(short) == stats);
    } else {
        lemma_sampled_times_step(stats, rtt_us, (n - 1) as nat);
        assert(short.drop_last() =~= Seq::new((n - 1) as nat, |i: int| rtt_us));
    }
}

/// One more sample of the value keeps a converged average converged.
proof fn lemma_converged_step(stats: StatsView, rtt_us: int)
    requires
        stats.valid(),
        stats.alpha_millionths > 0,
        0 <= rtt_us <= u64::MAX,
        has_converged(stats, rtt_us),
    ensures
        has_converged(stats.sampled(rtt_us), rtt_us),
{
    if stats.sample_count == 0 {
        assert(stats.alpha_millionths * 0 == 0) by (nonlinear_arith);
    } else {
        law_repeated_sample_makes_progress(stats, rtt_us);
    }
}

/// However many more samples of the value follow, a converged average stays
/// converged.
proof fn lemma_converged_stays(stats: StatsView, rtt_us: int, n: nat)
    requires
        stats.valid(),
        stats.alpha_millionths > 0,
        0 <= rtt_us <= u64::MAX,
        has_converged(stats, rtt_us),
    ensures
        has_converged(stats.sampled_times(rtt_us, n), rtt_us),
    decreases n,
{
    if n == 0 {
        assert(stats.sampled_times(rtt_us, 0) == stats);
    } else {
        lemma_converged_step(stats, rtt_us);
        law_sample_keeps_invariant(stats, rtt_us as u64);
        lemma_sampled_times_step(stats, rtt_us, (n - 1) as nat);
        lemma_converged_stays(stats.sampled(rtt_us), rtt_us, (n - 1) as nat);
    }
}

/// Statistics without samples have converged after the first one.
proof fn lemma_first_sample_converges(stats: StatsView, rtt_us: int)
    requires
        stats.valid(),
        stats.alpha_millionths > 0,
        stats.sample_count == 0,
        0 <= rtt_us <= u64::MAX,
    ensures
        converged_from(stats, rtt_us, 1),
{
    let next = stats.sampled(rtt_us);
    law_sample_keeps_invariant(stats, rtt_us as u64);
    assert(stats.alpha_millionths * 0 == 0) by (nonlinear_arith);
    assert forall|n: nat| n >= 1 implies has_converged(
        #[trigger] stats.sampled_times(rtt_us, n),
        rtt_us,
    ) by {
        lemma_sampled_times_step(stats, rtt_us, (n - 1) as nat);
        lemma_converged_stays(next, rtt_us, (n - 1) as nat);
    }
}

/// If the average converges from the next state on, it converges one sample
/// later from this one.
proof fn lemma_converged_one_later(stats: StatsView, rtt_us: int, enough: nat)
    requires
        converged_from(stats.sampled(rtt_us), rtt_us, enough),
    ensures
        converged_from(stats, rtt_us, enough + 1),
{
    assert forall|n: nat| n >= enough + 1 implies has_converged(
        #[trigger] stats.sampled_times(rtt_us, n),
        rtt_us,
    ) by {
        lemma_sampled_times_step(stats, rtt_us, (n - 1) as nat);
        let later = stats.sampled(rtt_us).sampled_times(rtt_us, (n - 1) as nat);
        assert(has_converged(later, rtt_us));
    }
}

/// Converged from some number of samples on is converged from any larger one on.
proof fn lemma_converged_from_later(stats: StatsView, rtt_us: int, enough: nat, later: nat)
    requires
        converged_from(stats, rtt_us, enough),
        enough <= later,
    ensures
        converged_from(stats, rtt_us, later),
{
}

/// How far the average is from a value.
pub open spec fn distance(stats: StatsView, rtt_us: int) -> nat {
    if stats.ema_rtt_us > rtt_us {
        (stats.ema_rtt_us - rtt_us) as nat
    } else {
        (rtt_us - stats.ema_rtt_us) as nat
    }
}

/// The average converges: from any state, samples of one value bring it to that
/// value, up to the rounding of one step, and keep it there. It takes at most one
/// sample for each microsecond of distance, and one more.
pub proof fn law_average_converges(stats: StatsView, rtt_us: int)
    requires
        stats.valid(),
        stats.alpha_millionths > 0,
        0 <= rtt_us <= u64::MAX,
    ensures
        converged_from(stats, rtt_us, distance(stats, rtt_us) + 1),
    decreases distance(stats, rtt_us),
{
    let next = stats.sampled(rtt_us);
    let enough = distance(stats, rtt_us) + 1;
    law_sample_keeps_invariant(stats, rtt_us as u64);
    assert(stats.alpha_millionths * 0 == 0) by (nonlinear_arith);
    if has_converged(stats, rtt_us) {
        assert forall|n: nat| n >= enough implies has_converged(
            #[trigger] stats.sampled_times(rtt_us, n),
            rtt_us,
        ) by {
            lemma_converged_stays(stats, rtt_us, n);
        }
    } else if stats.sample_count == 0 {
        lemma_first_sample_converges(stats, rtt_us);
        lemma_converged_from_later(stats, rtt_us, 1, enough);
    } else if stats.sample_count == u64::MAX {
        lemma_first_sample_converges(next, rtt_us);
        lemma_converged_one_later(stats, rtt_us, 1);
        lemma_converged_from_later(stats, rtt_us, 2, enough);
    } else {
        law_repeated_sample_makes_progress(stats, rtt_us);
        law_average_converges(next, rtt_us);
        lemma_converged_one_later(stats, rtt_us, distance(next, rtt_us) + 1);
        lemma_converged_from_later(stats, rtt_us, distance(next, rtt_us) + 2, enough);
    }
}

} // verus!
