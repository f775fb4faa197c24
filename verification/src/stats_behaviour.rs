//! What each operation on the latency statistics does, number by number.
use vstd::prelude::*;

use crate::stats::{StatsView, ALPHA_SCALE, MIN_SAMPLES_FOR_EMA};

verus! {

/// The numbers that the statistics are built on.
pub proof fn law_numbers()
    ensures
        MIN_SAMPLES_FOR_EMA == 10,
        ALPHA_SCALE == 1_000_000,
{
}

/// Fresh statistics hold nothing, and their smoothing factor is the largest number
/// of millionths that does not exceed `2 / (window + 1)`, a zero window counting as
/// one.
pub proof fn law_fresh_holds_nothing(ema_window: u32)
    ensures
        ({
            let stats = StatsView::fresh(ema_window as int);
            let samples: int = if ema_window == 0 { 2 } else { ema_window + 1 };
            &&& stats.ema_rtt_us == 0
            &&& stats.sample_count == 0
            &&& stats.alpha_millionths >= 0
            &&& stats.alpha_millionths * samples <= 2_000_000
            &&& (stats.alpha_millionths + 1) * samples > 2_000_000
        }),
{
    let samples: int = if ema_window == 0 { 2 } else { ema_window + 1 };
    let alpha = 2_000_000int / samples;
    vstd::arithmetic::div_mod::lemma_fundamental_div_mod(2_000_000, samples);
    assert(alpha * samples <= 2_000_000 && (alpha + 1) * samples > 2_000_000 && alpha >= 0)
        by (nonlinear_arith)
        requires
            samples >= 2,
            2_000_000 == samples * alpha + 2_000_000int % samples,
            0 <= 2_000_000int % samples < samples,
    ;
}

/// Statistics are valid exactly when the factor is at most one and the other two
/// numbers fit 64 bits.
pub proof fn law_valid_numbers(stats: StatsView)
    ensures
        stats.valid() <==> 0 <= stats.alpha_millionths <= 1_000_000 && 0 <= stats.ema_rtt_us
            <= 0xffff_ffff_ffff_ffff && 0 <= stats.sample_count <= 0xffff_ffff_ffff_ffff,
{
}

/// The newest sample weighs exactly the smoothing factor, and all history the
/// rest; what is left of a microsecond is dropped. No size of the sample, of the
/// average or of the step changes that.
pub proof fn law_newest_sample_weighs_the_factor(stats: StatsView, rtt_us: int)
    requires
        stats.valid(),
        stats.sample_count > 0,
        0 <= rtt_us,
    ensures
        ({
            let weighed = stats.alpha_millionths * rtt_us + (1_000_000 - stats.alpha_millionths)
                * stats.ema_rtt_us;
            let average = stats.sampled(rtt_us).ema_rtt_us;
            1_000_000 * average <= weighed < 1_000_000 * (average + 1)
        }),
{
}

/// Without samples before it, a sample is the average.
pub proof fn law_sample_without_history_is_the_average(stats: StatsView, rtt_us: int)
    requires
        stats.sample_count == 0,
    ensures
        stats.sampled(rtt_us).ema_rtt_us == rtt_us,
{
}

/// Each sample counts once, up to the largest count, behind which the count is
/// zero again.
pub proof fn law_each_sample_counts_once(stats: StatsView, rtt_us: int)
    requires
        stats.valid(),
    ensures
        stats.sample_count < 0xffff_ffff_ffff_ffff ==> stats.sampled(rtt_us).sample_count
            == stats.sample_count + 1,
        stats.sample_count == 0xffff_ffff_ffff_ffff ==> stats.sampled(rtt_us).sample_count == 0,
        stats.sampled(rtt_us).alpha_millionths == stats.alpha_millionths,
{
}

/// A sample is accepted exactly when it is the first, or when its weighed sum with
/// the history, in millionths of a microsecond, fits 64 bits.
pub proof fn law_accepts_what_fits(stats: StatsView, rtt_us: int)
    ensures
        stats.accepts(rtt_us) <==> (stats.sample_count == 0 || stats.alpha_millionths * rtt_us + (
        1_000_000 - stats.alpha_millionths) * stats.ema_rtt_us <= 0xffff_ffff_ffff_ffff),
{
}

/// Statistics are warmed from ten samples on.
pub proof fn law_warmed_from_ten_samples(stats: StatsView)
    ensures
        stats.is_warmed() <==> stats.sample_count >= 10,
{
}

/// The averages that two samples lead to lie apart by the factor's share of the
/// samples' difference, up to the rounding: the average responds in proportion.
pub proof fn law_average_responds_in_proportion(stats: StatsView, fast: int, slow: int)
    requires
        stats.valid(),
        stats.sample_count > 0,
        0 <= fast <= slow,
    ensures
        ({
            let apart = stats.sampled(slow).ema_rtt_us - stats.sampled(fast).ema_rtt_us;
            let share = stats.alpha_millionths * (slow - fast);
            1_000_000 * (apart - 1) < share < 1_000_000 * (apart + 1)
        }),
{
    law_newest_sample_weighs_the_factor(stats, fast);
    law_newest_sample_weighs_the_factor(stats, slow);
    let a = stats.alpha_millionths;
    assert(a * slow - a * fast == a * (slow - fast)) by (nonlinear_arith);
}

} // verus!
