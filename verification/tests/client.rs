use std::time::Duration;

use watchtower::client::{attr, new_batch, new_record, ClientBuilder, ClientError};
use watchtower::config::{ServerConfig, TlsMode};
use watchtower::proto::{any_value, Severity, Timestamp};

#[test]
fn builders_have_defaults() {
    let b = ClientBuilder::new("localhost:9090");
    assert_eq!(b.target, "localhost:9090");
    assert_eq!(b.timeout, Duration::from_secs(5));
    assert!(b.enable_compression);
    assert!(b.resource.is_none());
    assert_eq!(b.uri(), "http://localhost:9090");
    assert_eq!(ClientBuilder::new(String::from("https://x")).uri(), "https://x");
}

#[test]
fn builders_keep_what_they_are_told() {
    let b = ClientBuilder::new("t")
        .resource("svc", "host", "inst")
        .timeout(Duration::from_secs(9))
        .compression(false);
    assert_eq!(b.timeout, Duration::from_secs(9));
    assert!(!b.enable_compression);
    let r = b.resource.unwrap();
    assert_eq!(r.service_name, "svc");
    assert_eq!(r.host_name, "host");
    assert_eq!(r.instance_id, "inst");
    assert!(r.attributes.is_empty());
}

#[test]
fn attributes_of_every_type() {
    let kind = |kv: watchtower::proto::KeyValue| kv.value.unwrap().value.unwrap();
    assert!(matches!(kind(attr("k", "x")), any_value::Kind::StringValue(s) if s == "x"));
    assert!(matches!(kind(attr("k", String::from("y"))), any_value::Kind::StringValue(s) if s == "y"));
    assert!(matches!(kind(attr("k", 4999i64)), any_value::Kind::IntValue(4999)));
    assert!(matches!(kind(attr("k", true)), any_value::Kind::BoolValue(true)));
    assert_eq!(attr("user_id", "u").key, "user_id");
}

#[test]
fn records_of_log_calls() {
    let b = ClientBuilder::new("t").resource("svc", "host", "inst");
    let now = Duration::new(1_700, 5);
    let r = new_record(Severity::Warn, "careful", vec![attr("a", 1i64)], &b.resource, now);
    assert_eq!(r.timestamp, Some(Timestamp { seconds: 1_700, nanos: 5 }));
    assert_eq!(r.severity, 13);
    assert_eq!(r.body, "careful");
    assert_eq!(r.attributes.len(), 1);
    assert_eq!(r.resource.as_ref().unwrap().service_name, "svc");
    assert!(r.trace_id.is_empty() && r.span_id.is_empty() && r.schema_url.is_empty());
    let batch = new_batch(vec![r]);
    assert_eq!(batch.records.len(), 1);
    assert!(batch.metadata.is_empty());
}

#[test]
fn client_errors_say_what_happened() {
    assert_eq!(ClientError::Connection("refused".into()).message(), "connection error: refused");
    assert_eq!(ClientError::Rpc("full".into()).message(), "RPC error: full");
}

#[test]
fn tls_modes() {
    let mut s = ServerConfig::default();
    assert!(matches!(s.tls_mode(), TlsMode::Plaintext));
    s.tls_cert = Some("c".into());
    s.tls_ca = Some("a".into());
    assert!(matches!(s.tls_mode(), TlsMode::Plaintext));
    s.tls_key = Some("k".into());
    match s.tls_mode() {
        TlsMode::Mutual { cert, key, ca } => assert_eq!((&*cert, &*key, &*ca), ("c", "k", "a")),
        other => panic!("{other:?}"),
    }
    s.tls_ca = None;
    match s.tls_mode() {
        TlsMode::Server { cert, key } => assert_eq!((&*cert, &*key), ("c", "k")),
        other => panic!("{other:?}"),
    }
}
