use std::time::Duration;

use watchtower::config::{ElasticSinkConfig, ForwardSinkConfig, SinkConfig};
use watchtower::proto::{LogBatch, LogRecord};
use watchtower::sink::elastic::{
    build_bulk_bodies, build_bulk_body, bulk_outcome, bulk_url, BulkSend, ElasticSink,
};
use watchtower::sink::forward::{connect_error, endpoint_uri, rejection};
use watchtower::sink::retry::{delay_before, Action, Delivery};
use watchtower::sink::{sink_name, SinkError};

fn record(body: &str) -> LogRecord {
    LogRecord { severity: 9, body: body.into(), ..Default::default() }
}

fn batch(bodies: &[&str]) -> LogBatch {
    LogBatch { records: bodies.iter().map(|b| record(b)).collect(), metadata: Default::default() }
}

fn config() -> ElasticSinkConfig {
    ElasticSinkConfig {
        addresses: vec!["http://a:9200".into(), "http://b:9200/".into(), "http://c".into()],
        index: "logs".into(),
        username: Some("u".into()),
        password: Some("p".into()),
        tls: false,
        batch_size: 2,
        flush_interval: Duration::from_secs(5),
        retry_attempts: 2,
        retry_backoff: Duration::from_secs(1),
    }
}

#[test]
fn bulk_body_has_two_lines_for_each_record() {
    let body = build_bulk_body("logs", &batch(&["a", "b\nc"]));
    assert_eq!(
        body,
        "{\"index\":{\"_index\":\"logs\"}}\n{\"body\":\"a\",\"severity\":9}\n\
         {\"index\":{\"_index\":\"logs\"}}\n{\"body\":\"b\\nc\",\"severity\":9}\n"
    );
    assert_eq!(body.lines().count(), 4);
    assert_eq!(build_bulk_body("logs", &batch(&[])), "");
}

#[test]
fn bulk_bodies_are_limited() {
    let whole = batch(&["a", "b", "c", "d", "e"]);
    let bodies = build_bulk_bodies("i", &whole, 2);
    assert_eq!(bodies.len(), 3);
    assert_eq!(bodies.concat(), build_bulk_body("i", &whole));
    assert_eq!(bodies[2], build_bulk_body("i", &batch(&["e"])));
    assert_eq!(build_bulk_bodies("i", &whole, 0).len(), 1);
    assert_eq!(build_bulk_bodies("i", &whole, 5).len(), 1);
    assert!(build_bulk_bodies("i", &batch(&[]), 2).is_empty());
}

#[test]
fn bulk_urls() {
    assert_eq!(bulk_url("http://es:9200"), "http://es:9200/_bulk");
    assert_eq!(bulk_url("http://es:9200///"), "http://es:9200/_bulk");
    assert_eq!(bulk_url(""), "/_bulk");
}

#[test]
fn bulk_answers() {
    assert!(bulk_outcome(200, "200 OK", "").is_ok());
    assert!(bulk_outcome(299, "299", "").is_ok());
    assert!(bulk_outcome(199, "199", "").is_err());
    match bulk_outcome(429, "429 Too Many Requests", "slow down") {
        Err(SinkError::Rejected(m)) => assert_eq!(m, "429 Too Many Requests: slow down"),
        other => panic!("{other:?}"),
    }
}

#[test]
fn addresses_take_turns() {
    let mut sink = ElasticSink::new("elasticsearch-0", &config());
    assert_eq!(sink.label, "elasticsearch-0");
    assert_eq!(sink.next_address(), "http://a:9200");
    assert_eq!(sink.next_address(), "http://b:9200/");
    assert_eq!(sink.next_address(), "http://c");
    assert_eq!(sink.next_address(), "http://a:9200");
    sink.round_robin = usize::MAX;
    sink.next_address();
    assert_eq!(sink.round_robin, 0);
}

#[test]
fn credentials_need_both_parts() {
    let mut cfg = config();
    assert_eq!(
        ElasticSink::new("x", &cfg).credential(),
        Some(("u".to_string(), "p".to_string()))
    );
    cfg.password = None;
    assert_eq!(ElasticSink::new("x", &cfg).credential(), None);
}

#[test]
fn pauses_double_up_to_a_limit() {
    let second = Duration::from_secs(1);
    let pauses: Vec<u64> = (1..=5).map(|k| delay_before(second, k).unwrap().as_secs()).collect();
    assert_eq!(pauses, vec![1, 2, 4, 8, 16]);
    assert_eq!(delay_before(second, 32).unwrap().as_secs(), 2_147_483_648);
    assert_eq!(delay_before(second, 33).unwrap().as_secs(), 4_294_967_295);
    assert_eq!(delay_before(second, u32::MAX).unwrap().as_secs(), 4_294_967_295);
    assert_eq!(delay_before(Duration::MAX, 1), Some(Duration::MAX));
    assert_eq!(delay_before(Duration::MAX, 2), None);
}

fn network(words: &str) -> Result<(), SinkError> {
    Err(SinkError::Network(words.into()))
}

#[test]
fn a_delivery_is_tried_as_often_as_it_may() {
    let (mut d, first) = Delivery::begin(1, 2, Duration::from_millis(100));
    assert!(matches!(first, Action::Try));
    for (k, pause) in [(1, 100), (2, 200)] {
        match d.report(network("down")) {
            Action::Retry { attempt, delay } => {
                assert_eq!(attempt, k);
                assert_eq!(delay, Duration::from_millis(pause));
            }
            _ => panic!("no retry"),
        }
    }
    match d.report(network("still down")) {
        Action::Failed(e) => assert_eq!(e.message(), "network error: still down"),
        _ => panic!("not failed"),
    }
}

#[test]
fn a_delivery_ends_with_its_first_success() {
    let (mut d, _) = Delivery::begin(1, 3, Duration::from_secs(1));
    d.report(network("down"));
    assert!(matches!(d.report(Ok(())), Action::Done));
    let (_, nothing) = Delivery::begin(0, 3, Duration::from_secs(1));
    assert!(matches!(nothing, Action::Done));
    let (mut d, _) = Delivery::begin(1, 3, Duration::MAX);
    assert!(matches!(d.report(network("x")), Action::Retry { attempt: 1, .. }));
    assert!(matches!(d.report(network("x")), Action::PauseTooLong));
}

#[test]
fn a_batch_goes_out_in_one_request_after_the_other() {
    let sink = ElasticSink::new("e", &config());
    let (mut send, first) = BulkSend::begin(&sink, &batch(&["a", "b", "c"]));
    assert!(matches!(first, Action::Try));
    assert_eq!(send.body(), build_bulk_body("logs", &batch(&["a", "b"])));
    assert!(matches!(send.report(network("x")), Action::Retry { attempt: 1, .. }));
    assert_eq!(send.body(), build_bulk_body("logs", &batch(&["a", "b"])));
    assert!(matches!(send.report(Ok(())), Action::Try));
    assert_eq!(send.body(), build_bulk_body("logs", &batch(&["c"])));
    assert!(matches!(send.report(network("x")), Action::Retry { attempt: 1, .. }));
    assert!(matches!(send.report(network("x")), Action::Retry { attempt: 2, .. }));
    assert!(matches!(send.report(network("last")), Action::Failed(SinkError::Network(m)) if m == "last"));
    let (_, nothing) = BulkSend::begin(&sink, &batch(&[]));
    assert!(matches!(nothing, Action::Done));
    let (mut send, _) = BulkSend::begin(&sink, &batch(&["a"]));
    assert!(matches!(send.report(Ok(())), Action::Done));
}

#[test]
fn targets_without_a_scheme() {
    assert_eq!(endpoint_uri("aggregator:9090"), "http://aggregator:9090");
    assert_eq!(endpoint_uri("https://aggregator:9090"), "https://aggregator:9090");
    assert_eq!(endpoint_uri("a:/b//c"), "http://a:/b//c");
}

#[test]
fn errors_say_what_happened() {
    assert_eq!(
        connect_error("up:9090", "refused").message(),
        "network error: connect to up:9090: refused"
    );
    assert_eq!(rejection("Unavailable", "busy").message(), "upstream rejected: gRPC Unavailable: busy");
    assert_eq!(SinkError::Serialization("x".into()).message(), "serialization error: x");
}

#[test]
fn sinks_are_named_by_position() {
    let forward = ForwardSinkConfig {
        target: "t".into(),
        enable_compression: true,
        timeout: Duration::from_secs(10),
        tls_cert: None,
        tls_ca: None,
        retry_attempts: 3,
        retry_backoff: Duration::from_secs(1),
    };
    assert_eq!(sink_name(&SinkConfig::Elasticsearch(config()), 0), "elasticsearch-0");
    assert_eq!(sink_name(&SinkConfig::OpenSearch(config()), 12), "opensearch-12");
    assert_eq!(sink_name(&SinkConfig::Watchtower(forward), 3), "watchtower-forward");
}
