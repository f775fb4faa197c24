use rpc_provider::{
    check_status, ledger_from_sequence, parse_ledger, probe_body, HealthStep, ProbeError, ProviderRegistry,
    RpcProvider, HEALTH_CHECK_TIMEOUT_SECS,
};

fn provider(url: &str, header: Option<&str>, value: Option<&str>) -> RpcProvider {
    RpcProvider {
        name: "p".to_string(),
        url: url.to_string(),
        auth_header: header.map(|h| h.to_string()),
        auth_value: value.map(|v| v.to_string()),
    }
}

#[test]
fn reply_with_a_sequence_gives_the_ledger() {
    let body = br#"{"jsonrpc":"2.0","id":1,"result":{"id":"ab","sequence":51234567}}"#;
    assert_eq!(parse_ledger(body), Ok(51_234_567));
    assert_eq!(
        parse_ledger(br#" { "result" : { "sequence" : 18446744073709551615 } } "#),
        Ok(u64::MAX)
    );
    // The last of two equal keys counts.
    assert_eq!(
        parse_ledger(br#"{"result":{"sequence":1},"result":{"sequence":2}}"#),
        Ok(2)
    );
}

#[test]
fn reply_without_a_sequence_is_told_so() {
    for body in [
        "{}",
        "null",
        "[1,2]",
        "7",
        r#"{"result":null}"#,
        r#"{"result":7}"#,
        r#"{"result":{}}"#,
        r#"{"sequence":7}"#,
        r#"{"result":[{"sequence":7}]}"#,
        r#"{"result":{"sequence":"7"}}"#,
        r#"{"result":{"sequence":-7}}"#,
        r#"{"result":{"sequence":7.5}}"#,
        r#"{"result":{"sequence":18446744073709551616}}"#,
        r#"{"result":{"sequence":{"sequence":7}}}"#,
        r#"{"error":{"code":-32601,"message":"method not found"}}"#,
    ] {
        assert_eq!(
            parse_ledger(body.as_bytes()),
            Err(ProbeError::MissingSequence),
            "{body}"
        );
    }
}

#[test]
fn reply_that_is_no_json_is_a_parse_error() {
    for body in ["<html>", "", r#"{"result":{"sequence":1}} x"#, "{'result':1}"] {
        assert_eq!(parse_ledger(body.as_bytes()), Err(ProbeError::Decode), "{body}");
    }
    assert_eq!(parse_ledger(&[0xff, 0xfe]), Err(ProbeError::Decode));
}

#[test]
fn what_was_found_decides_the_outcome() {
    assert_eq!(ledger_from_sequence(Some(Some(9))), Ok(9));
    assert_eq!(
        ledger_from_sequence(Some(None)),
        Err(ProbeError::MissingSequence)
    );
    assert_eq!(ledger_from_sequence(None), Err(ProbeError::Decode));
}

#[test]
fn only_the_two_hundreds_are_successes() {
    for status in [200, 204, 299] {
        assert_eq!(check_status(status), Ok(()));
    }
    for status in [0, 100, 199, 300, 404, 429, 500, 65535] {
        assert_eq!(check_status(status), Err(ProbeError::Status(status)));
    }
}

#[test]
fn errors_in_words() {
    assert_eq!(ProbeError::Timeout.message(), "timeout");
    assert_eq!(
        ProbeError::Request("refused".to_string()).message(),
        "request error: refused"
    );
    assert_eq!(ProbeError::Status(503).message(), "HTTP 503");
    assert_eq!(ProbeError::Status(7).message(), "HTTP 7");
    assert_eq!(ProbeError::Status(65_535).message(), "HTTP 65535");
    assert_eq!(
        ProbeError::Body("cut off".to_string()).message(),
        "parse error: cut off"
    );
    assert_eq!(
        ProbeError::Decode.message(),
        "parse error: error decoding response body"
    );
    assert_eq!(
        ProbeError::MissingSequence.message(),
        "missing sequence in response"
    );
}

#[test]
fn round_probes_each_provider_in_order() {
    let registry = ProviderRegistry::new(vec![
        provider("http://a.test", Some("X-API-Key"), Some("secret")),
        provider("http://b.test", Some("X-API-Key"), None),
        provider("http://c.test", None, Some("secret")),
    ]);
    let mut seen = Vec::new();
    let mut probed = 0;
    while let HealthStep::Probe { index, request } = registry.health_step(probed) {
        assert_eq!(index, probed);
        assert_eq!(request.body, probe_body());
        seen.push((request.url, request.auth));
        probed += 1;
    }
    let auth = Some(("X-API-Key".to_string(), "secret".to_string()));
    assert_eq!(
        seen,
        [
            ("http://a.test".to_string(), auth),
            ("http://b.test".to_string(), None),
            ("http://c.test".to_string(), None),
        ]
    );
    assert!(matches!(registry.health_step(9), HealthStep::Done));
}

#[test]
fn probe_calls_get_latest_ledger() {
    let body = probe_body();
    assert_eq!(
        body,
        r#"{"jsonrpc":"2.0","id":1,"method":"getLatestLedger","params":null}"#
    );
    let document: serde_json::Value = serde_json::from_str(&body).unwrap();
    assert_eq!(document.as_object().unwrap().len(), 4);
    assert_eq!(document["jsonrpc"], "2.0");
    assert_eq!(document["id"], 1);
    assert_eq!(document["method"], "getLatestLedger");
    assert!(document["params"].is_null());
}

#[test]
fn probes_wait_ten_seconds() {
    assert_eq!(HEALTH_CHECK_TIMEOUT_SECS, 10);
}
