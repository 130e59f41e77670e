use aether::client::{check_returned_hash, parse_h256_hex, returned_hash};
use aether::client::{
    default_timeout_secs, parse_http_response, AetherClient, AetherSdkError, ClientConfig,
    HttpEndpoint, JobBuilder,
};
use aether::types::H256;

#[test]
fn parse_invalid_endpoint_scheme() {
    let err = HttpEndpoint::parse("https://localhost:8545").unwrap_err();
    assert!(matches!(err, AetherSdkError::InvalidEndpoint(_)));
}

#[test]
fn builds_job_submission_payload() {
    let client = AetherClient::new("http://localhost:8545");
    let model_hash = H256::repeat_byte(1);
    let input_hash = H256::repeat_byte(2);
    let metadata = serde_json::from_str::<serde_json::Value>(
        r#"{"prompt": "Generate a haiku about verifiable compute.", "priority": "gold"}"#,
    )
    .unwrap();

    let submission = client
        .job()
        .job_id("hello-aic-job")
        .unwrap()
        .model_hash(model_hash)
        .input_hash(input_hash)
        .max_fee(500_000_000)
        .expires_at(1_700_000_000)
        .metadata(metadata)
        .to_submission()
        .unwrap();

    assert_eq!(submission.url, "http://localhost:8545/v1/jobs");
    assert_eq!(submission.method, "POST");
    assert_eq!(
        submission.headers,
        vec![("content-type".to_string(), "application/json".to_string())]
    );
    assert_eq!(submission.body.job_id, "hello-aic-job");

    let prepared = client.prepare_job_submission(submission.body.clone());
    assert_eq!(prepared, submission);
}

#[test]
fn endpoint_parts() {
    let e = HttpEndpoint::parse("  http://example.com:8080/rpc/v1  ").unwrap();
    assert_eq!(e.host, "example.com");
    assert_eq!(e.port, 8080);
    assert_eq!(e.path, "/rpc/v1");
    assert_eq!(e.host_header(), "example.com:8080");
    let e = HttpEndpoint::parse("http://localhost").unwrap();
    assert_eq!(e.port, 80);
    assert_eq!(e.path, "/");
    assert_eq!(e.host_header(), "localhost");
    let e = HttpEndpoint::parse("http://h:+81").unwrap();
    assert_eq!(e.port, 81);
}

#[test]
fn endpoint_errors() {
    match HttpEndpoint::parse("ftp://x") {
        Err(AetherSdkError::InvalidEndpoint(m)) => {
            assert_eq!(m, "only http:// endpoints are supported, got: ftp://x")
        }
        other => panic!("unexpected {:?}", other),
    }
    match HttpEndpoint::parse("http:///path") {
        Err(AetherSdkError::InvalidEndpoint(m)) => assert_eq!(m, "invalid endpoint host: http:///path"),
        other => panic!("unexpected {:?}", other),
    }
    match HttpEndpoint::parse("http://host:99999") {
        Err(AetherSdkError::InvalidEndpoint(m)) => {
            assert_eq!(m, "invalid endpoint port in http://host:99999")
        }
        other => panic!("unexpected {:?}", other),
    }
    match HttpEndpoint::parse("http://:80") {
        Err(AetherSdkError::InvalidEndpoint(m)) => assert_eq!(m, "invalid endpoint host: http://:80"),
        other => panic!("unexpected {:?}", other),
    }
}

#[test]
fn http_response_framing() {
    let (status, body) =
        parse_http_response("HTTP/1.1 200 OK\r\nContent-Type: x\r\n\r\n{\"a\":1}").unwrap();
    assert_eq!(status, "HTTP/1.1 200 OK");
    assert_eq!(body, "{\"a\":1}");
    match parse_http_response("no separator") {
        Err(AetherSdkError::InvalidResponse(m)) => {
            assert_eq!(m, "invalid http response from rpc endpoint")
        }
        other => panic!("unexpected {:?}", other),
    }
    match parse_http_response("\r\n\r\nbody") {
        Err(AetherSdkError::InvalidResponse(m)) => assert_eq!(m, "missing http status line"),
        other => panic!("unexpected {:?}", other),
    }
}

#[test]
fn client_configuration() {
    assert_eq!(default_timeout_secs(), 30);
    let c = ClientConfig::default();
    assert_eq!(c.default_fee, 2_000_000);
    assert_eq!(c.default_gas_limit, 500_000);
    assert_eq!(c.request_timeout_secs, 30);
    let client = AetherClient::with_config(
        "http://127.0.0.1:9",
        ClientConfig { request_timeout_secs: 1, ..ClientConfig::default() },
    );
    assert_eq!(client.endpoint(), "http://127.0.0.1:9");
    assert_eq!(client.config().request_timeout_secs, 1);
}

#[test]
fn job_builder_validation() {
    let b = JobBuilder::new("http://node//");
    assert!(b.job_id("   ").is_err());
    let b = JobBuilder::new("http://node//");
    assert_eq!(b.build().unwrap_err(), "job_id not set");
    let b = JobBuilder::new("http://node//").job_id("j").unwrap();
    assert_eq!(b.build().unwrap_err(), "model_hash not set");
    let b = b.model_hash(H256::zero()).input_hash(H256::zero());
    assert_eq!(b.build().unwrap_err(), "expires_at not set");
    let b = b.expires_at(0);
    assert_eq!(b.build().unwrap_err(), "expires_at not set");
    let b = b.expires_at(5).max_fee(0);
    let job = b.build().unwrap();
    assert_eq!(job.max_fee, 1_000_000);
    assert_eq!(job.expires_at, 5);
    assert!(job.metadata.is_none());
    let s = b.to_submission().unwrap();
    assert_eq!(s.url, "http://node/v1/jobs");
}

#[test]
fn sdk_error_messages() {
    assert_eq!(AetherSdkError::build("x").message(), "build error: x");
    assert_eq!(AetherSdkError::network("y").message(), "network error: y");
    assert_eq!(
        AetherSdkError::Rpc { code: -32601, message: "no".into() }.message(),
        "rpc error -32601: no"
    );
    assert_eq!(
        AetherSdkError::TxHashMismatch { expected: "a".into(), got: "b".into() }.message(),
        "tx hash mismatch: expected a, got b"
    );
    assert_eq!(AetherSdkError::invalid_endpoint("e").message(), "invalid endpoint: e");
}

#[test]
fn request_head_and_status() {
    let endpoint = aether::client::HttpEndpoint::parse("http://localhost:8545/rpc").unwrap();
    assert_eq!(
        aether::client::request_head(&endpoint, 12),
        "POST /rpc HTTP/1.1\r\nHost: localhost:8545\r\nContent-Type: application/json\r\nContent-Length: 12\r\nConnection: close\r\n\r\n"
    );
    assert!(aether::client::check_status("HTTP/1.1 200 OK").is_ok());
    let err = aether::client::check_status("HTTP/1.1 500 Internal").unwrap_err();
    assert!(matches!(err, aether::client::AetherSdkError::InvalidResponse(ref m) if m == "rpc returned non-success status: HTTP/1.1 500 Internal"));
}

#[test]
fn returned_hashes() {
    let hex = format!("0x{}", "cd".repeat(32));
    assert_eq!(parse_h256_hex(&hex).unwrap(), H256::from_bytes([0xcd; 32]));
    assert!(matches!(parse_h256_hex("0xzz").unwrap_err(), AetherSdkError::InvalidResponse(ref m) if m == "invalid tx hash hex: 0xzz"));
    assert!(matches!(parse_h256_hex("0x00").unwrap_err(), AetherSdkError::InvalidResponse(_)));
    assert!(matches!(
        returned_hash(None, Some((-32000, "boom".to_string()))).unwrap_err(),
        AetherSdkError::Rpc { code: -32000, ref message } if message == "boom"
    ));
    assert!(matches!(returned_hash(None, None).unwrap_err(), AetherSdkError::InvalidResponse(ref m) if m == "rpc response missing result"));
    assert_eq!(returned_hash(Some(hex.clone()), None).unwrap(), H256::from_bytes([0xcd; 32]));
    assert!(matches!(returned_hash(Some("0xabcd".to_string()), None).unwrap_err(),
        AetherSdkError::InvalidResponse(ref m) if m == "invalid tx hash: expected 32 bytes, got 2"));
    let h = H256::from_bytes([0xcd; 32]);
    assert_eq!(check_returned_hash(&h, h).unwrap(), h);
    assert!(matches!(check_returned_hash(&h, H256::zero()).unwrap_err(), AetherSdkError::TxHashMismatch { .. }));
}

#[test]
fn transfer_builder_requirements() {
    let client = AetherClient::new("http://localhost:8545");
    let missing_recipient = client.transfer().amount(5).prepare().unwrap_err();
    assert_eq!(missing_recipient, "missing recipient");
    let missing_amount = client.transfer().to(aether::types::Address::from_bytes([2; 20])).prepare().unwrap_err();
    assert_eq!(missing_amount, "missing amount");
    let (req, fee, gas_limit, chain_id) = client
        .transfer()
        .to(aether::types::Address::from_bytes([2; 20]))
        .amount(1_000)
        .memo("sdk test")
        .fee(7)
        .gas_limit(21_000)
        .chain_id(9)
        .prepare()
        .unwrap();
    assert_eq!(req.recipient, aether::types::Address::from_bytes([2; 20]));
    assert_eq!(req.amount, 1_000);
    assert_eq!(req.memo.as_deref(), Some("sdk test"));
    assert_eq!((fee, gas_limit, chain_id), (7, 21_000, 9));
    let (_, fee, gas_limit, chain_id) =
        client.transfer().to(aether::types::Address::from_bytes([2; 20])).amount(1).prepare().unwrap();
    assert_eq!((fee, gas_limit, chain_id), (2_000_000, 500_000, 1));
}
