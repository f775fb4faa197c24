//! What the parts of a probe, a provider and a snapshot hold, piece by piece.
use vstd::prelude::*;

use crate::health::StateView;
use crate::probe::{ProbeError, ProbeRequest, HEALTH_CHECK_TIMEOUT_SECS};
use crate::provider::{ProviderView, RpcProvider};
use crate::registry::ProviderStatsSnapshot;

verus! {

/// A probe waits ten seconds.
pub proof fn law_probe_waits_ten_seconds()
    ensures
        HEALTH_CHECK_TIMEOUT_SECS == 10,
{
}

// ── Providers ─────────────────────────────────────────────────────────────

/// What is known of a provider is all that it holds.
pub proof fn law_provider_is_what_it_holds(provider: RpcProvider)
    ensures
        provider@.name == provider.name@,
        provider@.url == provider.url@,
        provider@.auth_header is Some <==> provider.auth_header is Some,
        provider.auth_header matches Some(header) ==> provider@.auth_header == Some(header@),
        provider@.auth_value is Some <==> provider.auth_value is Some,
        provider.auth_value matches Some(value) ==> provider@.auth_value == Some(value@),
{
}

/// A provider authenticates with a header exactly when both its name and its value
/// are configured, and then with these two.
pub proof fn law_auth_needs_both(provider: ProviderView, header: Seq<char>, value: Seq<char>)
    ensures
        provider.auth() == Some((header, value)) <==> provider.auth_header == Some(header)
            && provider.auth_value == Some(value),
        provider.auth() is None <==> provider.auth_header is None || provider.auth_value is None,
{
}

/// What is known of a pair of strings, or of a string, is its characters.
pub proof fn law_texts_are_their_characters(
    pair: Option<(String, String)>,
    text: Option<String>,
)
    ensures
        match pair {
            Some(p) => crate::provider::pair_view(pair) == Some((p.0@, p.1@)),
            None => crate::provider::pair_view(pair) is None,
        },
        match text {
            Some(t) => crate::provider::text_view(text) == Some(t@),
            None => crate::provider::text_view(text) is None,
        },
{
}

/// Lists of providers are known entry by entry.
pub proof fn law_lists_entry_by_entry(owned: Seq<RpcProvider>, lent: Seq<&RpcProvider>)
    ensures
        crate::registry::listed(owned).len() == owned.len(),
        forall|k: int|
            0 <= k < owned.len() ==> #[trigger] crate::registry::listed(owned)[k] == owned[k]@,
        crate::registry::borrowed(lent).len() == lent.len(),
        forall|k: int|
            0 <= k < lent.len() ==> #[trigger] crate::registry::borrowed(lent)[k] == lent[k]@,
{
}

/// A snapshot shows a provider exactly when it has its name, its URL, its average
/// and its number of samples.
pub proof fn law_snapshot_shows_all(snapshot: ProviderStatsSnapshot, state: StateView)
    ensures
        snapshot.shows(state) <==> {
            &&& snapshot.name@ == state.provider.name
            &&& snapshot.url@ == state.provider.url
            &&& snapshot.ema_rtt_us == state.stats.ema_rtt_us
            &&& snapshot.sample_count == state.stats.sample_count
        },
{
}

// ── What is sent ──────────────────────────────────────────────────────────

/// A request probes a provider exactly when it goes to its URL, carries the header
/// that is configured in full and no other, and calls `getLatestLedger`.
pub proof fn law_request_probes_its_provider(request: ProbeRequest, provider: ProviderView)
    ensures
        request.probes(provider) <==> {
            &&& request.url@ == provider.url
            &&& match (provider.auth_header, provider.auth_value) {
                (Some(header), Some(value)) => request.auth matches Some(auth) && auth.0@ == header
                    && auth.1@ == value,
                _ => request.auth is None,
            }
            &&& request.body@
                == "{\"jsonrpc\":\"2.0\",\"id\":1,\"method\":\"getLatestLedger\",\"params\":null}"@
        },
{
}

/// The document that a probe sends.
pub proof fn law_probe_text()
    ensures
        crate::probe::probe_text()
            == "{\"jsonrpc\":\"2.0\",\"id\":1,\"method\":\"getLatestLedger\",\"params\":null}"@,
{
}

// ── What a reply means ────────────────────────────────────────────────────

/// A reply has a ledger number exactly when it has one at `result`, `sequence`,
/// and then that one, whatever it is.
pub proof fn law_sequence_of_a_reply(integers: Map<Seq<Seq<char>>, u64>, sequence: u64)
    ensures
        crate::probe::sequence_in(integers) == Some(sequence) <==> integers.contains_key(
            seq!["result"@, "sequence"@],
        ) && integers[seq!["result"@, "sequence"@]] == sequence,
        crate::probe::sequence_in(integers) is None <==> !integers.contains_key(
            seq!["result"@, "sequence"@],
        ),
{
}

/// The number that a text of decimal digits stands for.
pub open spec fn number_of(text: Seq<char>) -> int
    decreases text.len(),
{
    if text.len() == 0 {
        0
    } else {
        10 * number_of(text.drop_last()) + (text.last() as int - '0' as int)
    }
}

/// The decimal digits of a number stand for it, are digits, and start with zero
/// only for zero itself, which is one digit.
pub proof fn law_decimal_stands_for_its_number(n: nat)
    ensures
        number_of(crate::probe::decimal(n)) == n,
        crate::probe::decimal(n).len() >= 1,
        forall|k: int|
            0 <= k < crate::probe::decimal(n).len() ==> '0' as int
                <= #[trigger] crate::probe::decimal(n)[k] as int <= '9' as int,
        n > 0 ==> crate::probe::decimal(n)[0] != '0',
        n == 0 ==> crate::probe::decimal(n).len() == 1,
    decreases n,
{
    let text = crate::probe::decimal(n);
    assert(number_of(Seq::empty()) == 0);
    if n < 10 {
        assert(text.drop_last() =~= Seq::empty());
    } else {
        law_decimal_stands_for_its_number(n / 10);
        assert(text.drop_last() =~= crate::probe::decimal(n / 10));
    }
}

/// The text of each error.
pub proof fn law_text_of_each_error(reason: String, status: u16)
    ensures
        ProbeError::Timeout.text() == "timeout"@,
        ProbeError::Request(reason).text() == "request error: "@ + reason@,
        ProbeError::Body(reason).text() == "parse error: "@ + reason@,
        ProbeError::Decode.text() == "parse error: error decoding response body"@,
        ProbeError::MissingSequence.text() == "missing sequence in response"@,
        ({
            let text = ProbeError::Status(status).text();
            let prefix = "HTTP "@;
            &&& text.take(prefix.len() as int) == prefix
            &&& number_of(text.skip(prefix.len() as int)) == status
            &&& text.len() > prefix.len()
            &&& status > 0 ==> text[prefix.len() as int] != '0'
            &&& status == 0 ==> text.len() == prefix.len() + 1
            &&& forall|k: int|
                prefix.len() <= k < text.len() ==> '0' as int <= #[trigger] text[k] as int <= '9' as int
        }),
{
    let prefix = "HTTP "@;
    let digits = crate::probe::decimal(status as nat);
    let text = ProbeError::Status(status).text();
    law_decimal_stands_for_its_number(status as nat);
    assert(text.take(prefix.len() as int) =~= prefix);
    assert(text.skip(prefix.len() as int) =~= digits);
    assert forall|k: int| prefix.len() <= k < text.len() implies '0' as int
        <= #[trigger] text[k] as int <= '9' as int by {
        assert(text[k] == digits[k - prefix.len()]);
    }
}

} // verus!
