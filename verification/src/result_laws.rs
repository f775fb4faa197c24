//! What the functions that only look give back, from their arguments alone.
//!
//! Each law takes a result that the function may give on these arguments, and
//! says what that result is.
use vstd::prelude::*;

use crate::probe::{check_status, ledger_from_sequence, parse_ledger, probe_body, ProbeError};
use crate::provider::RpcProvider;
use crate::registry::{HealthStep, ProviderRegistry, ProviderStatsSnapshot};
use crate::stats::ProviderStats;

verus! {

// ── Statistics ────────────────────────────────────────────────────────────

/// New statistics hold nothing, and their factor is `2 / (window + 1)`, rounded
/// down to a millionth.
pub proof fn law_new_stats(ema_window: u32, stats: ProviderStats)
    requires
        call_ensures(ProviderStats::new, (ema_window,), stats),
    ensures
        stats@.valid(),
        stats@.ema_rtt_us == 0,
        stats@.sample_count == 0,
        ({
            let samples: int = if ema_window == 0 { 2 } else { ema_window + 1 };
            stats@.alpha_millionths * samples <= 2_000_000 && (stats@.alpha_millionths + 1)
                * samples > 2_000_000
        }),
{
    crate::stats_behaviour::law_fresh_holds_nothing(ema_window);
}

/// The getters give what the statistics hold.
pub proof fn law_stats_getters(stats: ProviderStats, ema: u64, count: u64, warmed: bool)
    requires
        call_ensures(ProviderStats::ema_rtt_us, (&stats,), ema),
        call_ensures(ProviderStats::sample_count, (&stats,), count),
        call_ensures(ProviderStats::is_warmed, (&stats,), warmed),
    ensures
        ema == stats@.ema_rtt_us,
        count == stats@.sample_count,
        warmed <==> count >= 10,
{
}

/// A sample is accepted exactly when it is the first or its weighed sum with the
/// history fits 64 bits.
pub proof fn law_stats_accept(stats: ProviderStats, rtt_us: u64, accepted: bool)
    requires
        call_ensures(ProviderStats::accepts, (&stats, rtt_us), accepted),
    ensures
        accepted <==> (stats@.sample_count == 0 || stats@.alpha_millionths * rtt_us + (1_000_000
            - stats@.alpha_millionths) * stats@.ema_rtt_us <= 0xffff_ffff_ffff_ffff),
{
}

// ── Registry ──────────────────────────────────────────────────────────────

/// A new registry has the given providers, in order, and has seen nothing of any
/// of them.
pub proof fn law_new_registry(providers: Vec<RpcProvider>, registry: ProviderRegistry)
    requires
        call_ensures(ProviderRegistry::new, (providers,), registry),
    ensures
        registry@.valid(),
        registry@.cursor == 0,
        registry@.states.len() == providers@.len(),
        forall|i: int|
            0 <= i < providers@.len() ==> {
                let state = #[trigger] registry@.states[i];
                &&& state.provider == providers@[i]@
                &&& state.consecutive_failures == 0
                &&& state.tripped_at is None
                &&& state.latest_ledger == 0
                &&& state.stats.ema_rtt_us == 0
                &&& state.stats.sample_count == 0
            },
{
    let given = crate::registry::listed(providers@);
    assert forall|i: int| 0 <= i < providers@.len() implies {
        let state = #[trigger] registry@.states[i];
        &&& state.provider == providers@[i]@
        &&& state.consecutive_failures == 0
        &&& state.tripped_at is None
        &&& state.latest_ledger == 0
        &&& state.stats.ema_rtt_us == 0
        &&& state.stats.sample_count == 0
    } by {
        crate::pool_behaviour::law_fresh_pool_has_seen_nothing(given, i);
    }
}

/// The getters give what the registry holds at an index.
pub proof fn law_registry_getters(
    registry: ProviderRegistry,
    index: usize,
    n: usize,
    provider: &RpcProvider,
    stats: &ProviderStats,
    ledger: u64,
    possible: bool,
)
    requires
        call_ensures(ProviderRegistry::len, (&registry,), n),
        call_ensures(ProviderRegistry::provider, (&registry, index), provider),
        call_ensures(ProviderRegistry::stats, (&registry, index), stats),
        call_ensures(ProviderRegistry::latest_ledger, (&registry, index), ledger),
        call_ensures(ProviderRegistry::can_fail_probe, (&registry, index), possible),
    ensures
        n == registry@.states.len(),
        provider@ == registry@.states[index as int].provider,
        stats@ == registry@.states[index as int].stats,
        ledger == registry@.states[index as int].latest_ledger,
        possible <==> registry@.states[index as int].consecutive_failures
            < 0xffff_ffff_ffff_ffff,
{
}

/// A copy of a provider holds what the provider holds, and the header to
/// authenticate with is the configured pair, if both parts are configured.
pub proof fn law_provider_copy_and_header(
    provider: RpcProvider,
    copy: RpcProvider,
    auth: Option<(String, String)>,
)
    requires
        call_ensures(RpcProvider::clone, (&provider,), copy),
        call_ensures(RpcProvider::auth, (&provider,), auth),
    ensures
        copy@ == provider@,
        match (provider.auth_header, provider.auth_value) {
            (Some(header), Some(value)) => auth matches Some(pair) && pair.0@ == header@ && pair.1@
                == value@,
            _ => auth is None,
        },
{
}

/// Exactly 429 and the statuses from 500 to 599 are retried.
pub proof fn law_retryable_statuses(status: u16, retryable: bool)
    requires
        call_ensures(ProviderRegistry::is_retryable_status, (status,), retryable),
    ensures
        retryable <==> status == 429 || 500 <= status <= 599,
{
}

/// The search gives the index of the first provider with the URL, and nothing when
/// there is none.
pub proof fn law_found_index(registry: ProviderRegistry, url: &str, found: Option<usize>)
    requires
        call_ensures(ProviderRegistry::find_by_url, (&registry, url), found),
    ensures
        match found {
            Some(i) => {
                &&& i < registry@.states.len()
                &&& registry@.states[i as int].provider.url == url@
                &&& forall|j: int|
                    0 <= j < i ==> (#[trigger] registry@.states[j]).provider.url != url@
            },
            None => forall|j: int|
                0 <= j < registry@.states.len() ==> (#[trigger] registry@.states[j]).provider.url
                    != url@,
        },
{
    crate::pool_laws::law_find_gives_first(registry@, url@);
}

/// A snapshot has an entry for each provider, in order, with its name, its URL,
/// its average and its number of samples.
pub proof fn law_snapshot_entries(
    registry: ProviderRegistry,
    snapshot: Vec<ProviderStatsSnapshot>,
)
    requires
        call_ensures(ProviderRegistry::stats_snapshot, (&registry,), snapshot),
    ensures
        snapshot@.len() == registry@.states.len(),
        forall|i: int|
            0 <= i < snapshot@.len() ==> {
                let entry = #[trigger] snapshot@[i];
                let state = registry@.states[i];
                &&& entry.name@ == state.provider.name
                &&& entry.url@ == state.provider.url
                &&& entry.ema_rtt_us == state.stats.ema_rtt_us
                &&& entry.sample_count == state.stats.sample_count
            },
{
    assert forall|i: int| 0 <= i < snapshot@.len() implies {
        let entry = #[trigger] snapshot@[i];
        let state = registry@.states[i];
        &&& entry.name@ == state.provider.name
        &&& entry.url@ == state.provider.url
        &&& entry.ema_rtt_us == state.stats.ema_rtt_us
        &&& entry.sample_count == state.stats.sample_count
    } by {
        assert(snapshot@[i].shows(registry@.states[i]));
    }
}

/// The list of healthy providers has an entry for each available one and no other,
/// in ascending order of their indices.
pub proof fn law_healthy_entries(
    registry: ProviderRegistry,
    now: u128,
    healthy: Vec<&RpcProvider>,
)
    requires
        call_ensures(ProviderRegistry::healthy_providers_at, (&registry, now), healthy),
    ensures
        healthy@.len() == registry@.available(now as int).len(),
        forall|k: int|
            0 <= k < healthy@.len() ==> (#[trigger] healthy@[k])@ == registry@.states[
                registry@.available(now as int)[k]].provider,
{
    assert(crate::registry::borrowed(healthy@) == registry@.healthy(now as int));
    assert forall|k: int| 0 <= k < healthy@.len() implies (#[trigger] healthy@[k])@
        == registry@.states[registry@.available(now as int)[k]].provider by {
        assert(crate::registry::borrowed(healthy@)[k] == healthy@[k]@);
        assert(registry@.healthy(now as int)[k] == healthy@[k]@);
    }
}

/// The next step of a round is to probe the next provider, with its URL, its
/// header and the fixed document, as long as there is one.
pub proof fn law_next_health_step(registry: ProviderRegistry, probed: usize, step: HealthStep)
    requires
        call_ensures(ProviderRegistry::health_step, (&registry, probed), step),
    ensures
        step is Done <==> probed >= registry@.states.len(),
        step matches HealthStep::Probe { index, request } ==> {
            let provider = registry@.states[probed as int].provider;
            &&& index == probed
            &&& request.url@ == provider.url
            &&& match (provider.auth_header, provider.auth_value) {
                (Some(header), Some(value)) => request.auth matches Some(auth) && auth.0@ == header
                    && auth.1@ == value,
                _ => request.auth is None,
            }
            &&& request.body@
                == "{\"jsonrpc\":\"2.0\",\"id\":1,\"method\":\"getLatestLedger\",\"params\":null}"@
        },
{
}

/// The questions before a report are answered by the counts and averages alone.
pub proof fn law_questions_before_reports(
    registry: ProviderRegistry,
    url: &str,
    rtt_us: u64,
    i: int,
    accepted: bool,
    possible: bool,
)
    requires
        call_ensures(ProviderRegistry::accepts_rtt, (&registry, url, rtt_us), accepted),
        call_ensures(ProviderRegistry::can_fail, (&registry, url), possible),
        0 <= i < registry@.states.len(),
        registry@.states[i].provider.url == url@,
        forall|j: int| 0 <= j < i ==> (#[trigger] registry@.states[j]).provider.url != url@,
    ensures
        possible <==> registry@.states[i].consecutive_failures < 0xffff_ffff_ffff_ffff,
        accepted <==> ({
            let stats = registry@.states[i].stats;
            stats.sample_count == 0 || stats.alpha_millionths * rtt_us + (1_000_000
                - stats.alpha_millionths) * stats.ema_rtt_us <= 0xffff_ffff_ffff_ffff
        }),
{
    crate::pool_behaviour::law_reports_that_fit(registry@, url@, i, rtt_us as int);
}

// ── Probes ────────────────────────────────────────────────────────────────

/// Exactly the statuses from 200 to 299 let the body be read; any other is the
/// error that names it.
pub proof fn law_checked_status(status: u16, verdict: Result<(), ProbeError>)
    requires
        call_ensures(check_status, (status,), verdict),
    ensures
        verdict is Ok <==> 200 <= status <= 299,
        !(200 <= status <= 299) ==> verdict == Err::<(), ProbeError>(ProbeError::Status(status)),
{
}

/// A probe gives the number that was found, whatever it is, and tells a document
/// without one from no document.
pub proof fn law_ledger_found(found: Option<Option<u64>>, ledger: Result<u64, ProbeError>)
    requires
        call_ensures(ledger_from_sequence, (found,), ledger),
    ensures
        forall|n: u64| found == Some(Some(n)) <==> #[trigger] is_ledger(ledger, n),
        found == Some(None::<u64>) <==> ledger == Err::<u64, ProbeError>(
            ProbeError::MissingSequence,
        ),
        found is None <==> ledger == Err::<u64, ProbeError>(ProbeError::Decode),
{
}

/// Whether the outcome of a probe is this ledger number.
pub open spec fn is_ledger(outcome: Result<u64, ProbeError>, n: u64) -> bool {
    outcome == Ok::<u64, ProbeError>(n)
}

/// The body of a reply gives the number at `result`, `sequence` of the decoded
/// document, whatever it is; an error tells a document without one from no
/// document.
pub proof fn law_ledger_of_a_body(body: &[u8], ledger: Result<u64, ProbeError>)
    requires
        call_ensures(parse_ledger, (body,), ledger),
    ensures
        match crate::probe::decoded(body@) {
            None => ledger == Err::<u64, ProbeError>(ProbeError::Decode),
            Some(integers) => if integers.contains_key(seq!["result"@, "sequence"@]) {
                ledger == Ok::<u64, ProbeError>(integers[seq!["result"@, "sequence"@]])
            } else {
                ledger == Err::<u64, ProbeError>(ProbeError::MissingSequence)
            },
        },
{
}

/// The document of a probe.
pub proof fn law_probe_document(body: String)
    requires
        call_ensures(probe_body, (), body),
    ensures
        body@ == "{\"jsonrpc\":\"2.0\",\"id\":1,\"method\":\"getLatestLedger\",\"params\":null}"@,
{
}

/// An error in words starts with its kind and gives its reason in full.
pub proof fn law_message_of_an_error(error: ProbeError, message: String)
    requires
        call_ensures(ProbeError::message, (&error,), message),
    ensures
        match error {
            ProbeError::Timeout => message@ == "timeout"@,
            ProbeError::Request(reason) => message@ == "request error: "@ + reason@,
            ProbeError::Status(status) => message@.take("HTTP "@.len() as int) == "HTTP "@
                && crate::probe_behaviour::number_of(message@.skip("HTTP "@.len() as int))
                == status,
            ProbeError::Body(reason) => message@ == "parse error: "@ + reason@,
            ProbeError::Decode => message@ == "parse error: error decoding response body"@,
            ProbeError::MissingSequence => message@ == "missing sequence in response"@,
        },
{
    if let ProbeError::Status(status) = error {
        crate::probe_behaviour::law_text_of_each_error(message, status);
    }
}

} // verus!
