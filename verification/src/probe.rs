//! The `getLatestLedger` health probe: what is sent, and what a reply means.
use vstd::prelude::*;

use crate::provider::ProviderView;

verus! {

/// Timeout for the lightweight `getLatestLedger` health probe, in seconds.
pub const HEALTH_CHECK_TIMEOUT_SECS: u64 = 10;

/// The JSON-RPC document that a probe sends: a call of `getLatestLedger` without
/// parameters.
pub open spec fn probe_text() -> Seq<char> {
    "{\"jsonrpc\":\"2.0\",\"id\":1,\"method\":\"getLatestLedger\",\"params\":null}"@
}

/// The JSON-RPC document that a probe sends.
pub fn probe_body() -> (body: String)
    ensures
        body@ == probe_text(),
{
    "{\"jsonrpc\":\"2.0\",\"id\":1,\"method\":\"getLatestLedger\",\"params\":null}".to_owned()
}

/// A probe to POST: where to, the header to authenticate with, and the document.
#[derive(Debug)]
pub struct ProbeRequest {
    pub url: String,
    /// Header name and value.
    pub auth: Option<(String, String)>,
    /// JSON document.
    pub body: String,
}

impl ProbeRequest {
    /// Whether this is the request that probes the provider.
    pub open spec fn probes(&self, provider: ProviderView) -> bool {
        &&& self.url@ == provider.url
        &&& crate::provider::pair_view(self.auth) == provider.auth()
        &&& self.body@ == probe_text()
    }
}

/// Why a probe did not give a ledger number.
#[derive(Debug, PartialEq, Eq)]
pub enum ProbeError {
    /// No answer within the time allowed.
    Timeout,
    /// The request could not be made; the transport says why.
    Request(String),
    /// The answer has a status that is not a success.
    Status(u16),
    /// The answer's body could not be read; the transport says why.
    Body(String),
    /// The answer's body is no JSON document.
    Decode,
    /// The answer holds no ledger sequence number.
    MissingSequence,
}

/// A JSON document, decoded.
#[verifier::external_type_specification]
#[verifier::external_body]
pub struct ExJsonValue(serde_json::Value);

/// The reason why bytes are no JSON document.
#[verifier::external_type_specification]
#[verifier::external_body]
pub struct ExJsonError(serde_json::Error);

/// The integers that a decoded document holds: from each path of object keys to
/// the number there, where that is an integer that fits an `u64`.
pub uninterp spec fn integers_at(value: serde_json::Value) -> Map<Seq<Seq<char>>, u64>;

/// What `serde_json::from_slice` makes of the bytes: the integers of the document,
/// or nothing where the bytes are no document.
pub uninterp spec fn decoded(body: Seq<u8>) -> Option<Map<Seq<Seq<char>>, u64>>;

/// Calls `serde_json::from_slice`. Whether there is a document, and which integers
/// it holds, is a function of the bytes. Nothing is claimed of the error.
#[verifier::external_body]
fn decode(body: &[u8]) -> (result: Result<serde_json::Value, serde_json::Error>)
    ensures
        match result {
            Ok(value) => decoded(body@) == Some(integers_at(value)),
            Err(_) => decoded(body@) is None,
        },
{
    serde_json::from_slice(body)
}

/// Calls `serde_json::Value::index` with a string: the value under that key of an
/// object, or null where there is none or the value is no object. So the
/// integers below it are those of the whole whose path starts with the key.
#[verifier::external_body]
fn member<'a>(value: &'a serde_json::Value, key: &str) -> (inner: &'a serde_json::Value)
    ensures
        forall|path: Seq<Seq<char>>| #[trigger]
            integers_at(*inner).contains_key(path) <==> integers_at(*value).contains_key(
                seq![key@] + path,
            ),
        forall|path: Seq<Seq<char>>| #[trigger]
            integers_at(*inner).contains_key(path) ==> integers_at(*inner)[path] == integers_at(
                *value,
            )[seq![key@] + path],
{
    &value[key]
}

/// Calls `serde_json::Value::as_u64`: the integer that the value itself is, which
/// is the one at the empty path.
#[verifier::external_body]
fn as_integer(value: &serde_json::Value) -> (number: Option<u64>)
    ensures
        number == (if integers_at(*value).contains_key(Seq::empty()) {
            Some(integers_at(*value)[Seq::empty()])
        } else {
            None
        }),
{
    value.as_u64()
}

/// The path of the ledger number in a reply: `result`, then `sequence`.
pub open spec fn sequence_path() -> Seq<Seq<char>> {
    seq!["result"@, "sequence"@]
}

/// The ledger number at `result.sequence` of a reply, if it has one there.
pub open spec fn sequence_in(integers: Map<Seq<Seq<char>>, u64>) -> Option<u64> {
    if integers.contains_key(sequence_path()) {
        Some(integers[sequence_path()])
    } else {
        None
    }
}

/// Read the ledger sequence number out of the body of a reply.
pub fn parse_ledger(body: &[u8]) -> (ledger: Result<u64, ProbeError>)
    ensures
        match decoded(body@) {
            Some(integers) => match sequence_in(integers) {
                Some(sequence) => ledger == Ok::<u64, ProbeError>(sequence),
                None => ledger == Err::<u64, ProbeError>(ProbeError::MissingSequence),
            },
            None => ledger == Err::<u64, ProbeError>(ProbeError::Decode),
        },
{
    match decode(body) {
        Ok(json) => {
            let outer = member(&json, "result");
            let inner = member(outer, "sequence");
            let sequence = as_integer(inner);
            assert(seq!["sequence"@] + Seq::<Seq<char>>::empty() =~= seq!["sequence"@]);
            assert(seq!["result"@] + seq!["sequence"@] =~= sequence_path());
            ledger_from_sequence(Some(sequence))
        },
        Err(_) => ledger_from_sequence(None),
    }
}

/// What a probe gives, from what was found in the body of the reply: a document or
/// none, and in the document a ledger number or none.
pub fn ledger_from_sequence(found: Option<Option<u64>>) -> (ledger: Result<u64, ProbeError>)
    ensures
        ledger == (match found {
            Some(Some(sequence)) => Ok(sequence),
            Some(None) => Err(ProbeError::MissingSequence),
            None => Err(ProbeError::Decode),
        }),
{
    match found {
        Some(Some(sequence)) => Ok(sequence),
        Some(None) => Err(ProbeError::MissingSequence),
        None => Err(ProbeError::Decode),
    }
}

/// Whether the body of a reply with this status is worth reading: the status is
/// one of 200 to 299.
pub fn check_status(status: u16) -> (verdict: Result<(), ProbeError>)
    ensures
        verdict == (if 200 <= status < 300 {
            Ok(())
        } else {
            Err(ProbeError::Status(status))
        }),
{
    if 200 <= status && status < 300 {
        Ok(())
    } else {
        Err(ProbeError::Status(status))
    }
}

/// The character of a decimal digit.
pub open spec fn digit(d: int) -> char {
    seq!['0', '1', '2', '3', '4', '5', '6', '7', '8', '9'][d]
}

/// The decimal digits of a number, most significant first.
pub open spec fn decimal(n: nat) -> Seq<char>
    decreases n,
{
    if n < 10 {
        seq![digit(n as int)]
    } else {
        decimal(n / 10).push(digit((n % 10) as int))
    }
}

fn digit_text(d: u16) -> (text: &'static str)
    requires
        d < 10,
    ensures
        text@ == seq![digit(d as int)],
{
    proof {
        reveal_strlit("0");
        reveal_strlit("1");
        reveal_strlit("2");
        reveal_strlit("3");
        reveal_strlit("4");
        reveal_strlit("5");
        reveal_strlit("6");
        reveal_strlit("7");
        reveal_strlit("8");
        reveal_strlit("9");
    }
    let text = match d {
        0 => "0",
        1 => "1",
        2 => "2",
        3 => "3",
        4 => "4",
        5 => "5",
        6 => "6",
        7 => "7",
        8 => "8",
        _ => "9",
    };
    assert(text@ =~= seq![digit(d as int)]);
    text
}

fn append_decimal(text: &mut String, n: u16)
    ensures
        final(text)@ == old(text)@ + decimal(n as nat),
    decreases n,
{
    if n >= 10 {
        append_decimal(text, n / 10);
    }
    text.append(digit_text(n % 10));
    assert(text@ =~= old(text)@ + decimal(n as nat));
}

impl ProbeError {
    /// The text of the error.
    pub open spec fn text(self) -> Seq<char> {
        match self {
            ProbeError::Timeout => "timeout"@,
            ProbeError::Request(reason) => "request error: "@ + reason@,
            ProbeError::Status(status) => "HTTP "@ + decimal(status as nat),
            ProbeError::Body(reason) => "parse error: "@ + reason@,
            ProbeError::Decode => "parse error: error decoding response body"@,
            ProbeError::MissingSequence => "missing sequence in response"@,
        }
    }

    /// The error in words, as it appears in logs.
    pub fn message(&self) -> (message: String)
        ensures
            message@ == self.text(),
    {
        match self {
            ProbeError::Timeout => "timeout".to_owned(),
            ProbeError::Request(reason) => "request error: ".to_owned().concat(reason.as_str()),
            ProbeError::Status(status) => {
                let mut message = "HTTP ".to_owned();
                append_decimal(&mut message, *status);
                message
            },
            ProbeError::Body(reason) => "parse error: ".to_owned().concat(reason.as_str()),
            ProbeError::Decode => "parse error: error decoding response body".to_owned(),
            ProbeError::MissingSequence => "missing sequence in response".to_owned(),
        }
    }
}

} // verus!
