use std::collections::HashMap;

use watchtower::health::{handle_request, HealthServer};
use watchtower::metrics::Metrics;
use watchtower::pipeline::{
    count_delivery, count_flush, count_retry, fan_out, settle_queue, settle_spill, Admission,
    Queued, Worker, WorkerEvent,
};
use watchtower::proto::{
    any_value, AnyValue, KeyValue, LogBatch, LogRecord, Resource, Severity, Timestamp,
};
use watchtower::server::{
    begin_ingest, finish_ingest, open_stream, stream_step, IngestAction, RefusalCode, StreamAction,
    StreamEvent,
};

fn make_record(i: usize) -> LogRecord {
    LogRecord {
        timestamp: Some(Timestamp { seconds: 1700000000 + i as i64, nanos: 123_000_000 }),
        severity: Severity::Info.number(),
        body: format!("test log message {i}"),
        attributes: vec![KeyValue {
            key: "request_id".into(),
            value: Some(AnyValue {
                value: Some(any_value::Kind::StringValue(format!("req-{i}"))),
            }),
        }],
        resource: Some(Resource {
            service_name: "test-service".into(),
            host_name: "localhost".into(),
            instance_id: "test-1".into(),
            attributes: vec![],
        }),
        trace_id: vec![],
        span_id: vec![],
        schema_url: String::new(),
    }
}

fn make_batch(n: usize) -> LogBatch {
    LogBatch { records: (0..n).map(make_record).collect(), metadata: HashMap::new() }
}

fn sizes(batches: &[LogBatch]) -> Vec<usize> {
    batches.iter().map(|b| b.records.len()).collect()
}

#[test]
fn test_unary_ingest() {
    let mut metrics = Metrics::new();
    let mut worker = Worker::new(16);
    let batch = make_batch(10);
    assert!(matches!(begin_ingest(&mut metrics, batch.records.len()), IngestAction::Submit));
    assert!(worker.step(WorkerEvent::Batch(batch)).is_empty());
    let resp = finish_ingest(10, true).unwrap();
    assert_eq!(resp.accepted_count, 10);
    assert!(resp.errors.is_empty());
    assert_eq!(sizes(&worker.step(WorkerEvent::Tick)), vec![10]);
    assert_eq!(metrics.records_received.get(), 10);
    assert_eq!(metrics.batches_received.get(), 1);
}

#[test]
fn test_empty_batch_returns_zero() {
    let mut metrics = Metrics::new();
    match begin_ingest(&mut metrics, 0) {
        IngestAction::Respond(resp) => assert_eq!(resp.accepted_count, 0),
        IngestAction::Submit => panic!("submitted"),
    }
    assert_eq!(metrics.batches_received.get(), 1);
}

#[test]
fn test_multiple_batches() {
    let mut metrics = Metrics::new();
    let mut worker = Worker::new(16);
    let mut received = 0;
    for _ in 0..5 {
        begin_ingest(&mut metrics, 20);
        assert_eq!(finish_ingest(20, true).unwrap().accepted_count, 20);
        received += sizes(&worker.step(WorkerEvent::Batch(make_batch(20)))).iter().sum::<usize>();
    }
    received += sizes(&worker.step(WorkerEvent::Tick)).iter().sum::<usize>();
    assert_eq!(received, 100);
    assert_eq!(metrics.batches_received.get(), 5);
    assert_eq!(metrics.records_received.get(), 100);
}

#[test]
fn test_streaming_ingest() {
    let mut metrics = Metrics::new();
    open_stream(&mut metrics);
    assert_eq!(metrics.active_streams.get(), 1);
    let mut worker = Worker::new(16);
    let mut delivered = Vec::new();
    let mut total_accepted = 0i64;
    for n in [5, 3, 7] {
        let action = stream_step(&mut metrics, StreamEvent::Batch { records: n });
        assert_eq!(action, StreamAction::Submit);
        delivered.extend(worker.step(WorkerEvent::Batch(make_batch(n))));
        total_accepted += finish_ingest(n, true).unwrap().accepted_count;
    }
    delivered.extend(worker.step(WorkerEvent::Tick));
    assert_eq!(sizes(&delivered).iter().sum::<usize>(), 15);
    assert_eq!(stream_step(&mut metrics, StreamEvent::End), StreamAction::Close);
    assert_eq!(total_accepted, 15);
    assert_eq!(metrics.records_received.get(), 15);
    assert_eq!(metrics.active_streams.get(), 0);
}

#[test]
fn streams_close_on_errors() {
    let mut metrics = Metrics::new();
    open_stream(&mut metrics);
    open_stream(&mut metrics);
    assert_eq!(stream_step(&mut metrics, StreamEvent::ReceiveError), StreamAction::Close);
    assert_eq!(metrics.grpc_errors.get(), 1);
    assert_eq!(stream_step(&mut metrics, StreamEvent::AnswerRefused), StreamAction::Close);
    assert_eq!(metrics.grpc_errors.get(), 1);
    assert_eq!(metrics.active_streams.get(), 0);
    let empty = StreamEvent::Batch { records: 0 };
    assert_eq!(stream_step(&mut metrics, empty), StreamAction::Submit);
}

#[test]
fn refused_batches_are_answered_with_their_reason() {
    let e = finish_ingest(3, false).unwrap_err();
    assert_eq!(e.code, RefusalCode::ResourceExhausted);
    assert_eq!(e.message, "pipeline buffer full");
}

#[test]
fn test_fan_out_to_multiple_sinks() {
    let copies = fan_out(&make_batch(8), 2);
    assert_eq!(sizes(&copies), vec![8, 8]);
    for copy in &copies {
        for (i, r) in copy.records.iter().enumerate() {
            assert_eq!(r.body, format!("test log message {i}"));
            assert_eq!(r.resource.as_ref().unwrap().service_name, "test-service");
        }
        assert!(copy.metadata.is_empty());
    }
    assert!(fan_out(&make_batch(1), 0).is_empty());
}

#[test]
fn test_pipeline_submit_and_flush() {
    let mut metrics = Metrics::new();
    let mut worker = Worker::new(4);
    let mut received = Vec::new();
    for event in [
        WorkerEvent::Batch(make_batch(3)),
        WorkerEvent::Batch(make_batch(3)),
        WorkerEvent::Tick,
        WorkerEvent::Tick,
        WorkerEvent::Batch(make_batch(2)),
        WorkerEvent::Closed,
    ] {
        let batches = worker.step(event);
        if !batches.is_empty() {
            count_flush(&mut metrics);
        }
        received.extend(batches);
    }
    assert_eq!(sizes(&received), vec![4, 2, 2]);
    let bodies: Vec<&str> =
        received.iter().flat_map(|b| b.records.iter().map(|r| r.body.as_str())).collect();
    let expected: Vec<String> =
        [0, 1, 2, 0, 1, 2, 0, 1].iter().map(|i| format!("test log message {i}")).collect();
    assert_eq!(bodies, expected);
    assert_eq!(metrics.pipeline_flushes.get(), 2);
}

#[test]
fn full_queues_spill_or_drop() {
    let mut m = Metrics::new();
    assert_eq!(settle_queue(&mut m, Queued::Sent, 5, true), Admission::Taken);
    assert_eq!(settle_queue(&mut m, Queued::Full, 5, true), Admission::Spill);
    assert_eq!(m.records_dropped.get(), 0);
    assert!(settle_spill(&mut m, true, 5));
    assert_eq!(m.records_dropped.get(), 0);
    assert!(!settle_spill(&mut m, false, 5));
    assert_eq!(m.records_dropped.get(), 5);
    assert_eq!(settle_queue(&mut m, Queued::Full, 2, false), Admission::Refused);
    assert_eq!(m.records_dropped.get(), 7);
    assert_eq!(settle_queue(&mut m, Queued::Closed, 9, true), Admission::Refused);
    assert_eq!(m.records_dropped.get(), 7);
}

#[test]
fn test_metrics_prometheus_render() {
    let mut metrics = Metrics::new();
    metrics.records_received.inc_by(42);
    metrics.batches_received.inc_by(3);

    let output = metrics.render();

    assert!(output.contains("watchtower_records_received_total 42"));
    assert!(output.contains("watchtower_batches_received_total 3"));
    assert!(output.contains("watchtower_records_dropped_total 0"));
}

#[test]
fn metrics_text_in_full() {
    let mut m = Metrics::default();
    m.active_streams.dec();
    m.pipeline_buffer_used.set(12);
    count_delivery(&mut m, "b", 7, true);
    count_delivery(&mut m, "a", 1, true);
    count_delivery(&mut m, "b", 2, true);
    count_delivery(&mut m, "q\"x", 2, false);
    let expected = "\
# HELP watchtower_active_streams Active gRPC streaming connections
# TYPE watchtower_active_streams gauge
watchtower_active_streams -1
# HELP watchtower_batches_received_total Total batches received via gRPC
# TYPE watchtower_batches_received_total counter
watchtower_batches_received_total 0
# HELP watchtower_grpc_errors_total gRPC-level errors
# TYPE watchtower_grpc_errors_total counter
watchtower_grpc_errors_total 0
# HELP watchtower_pipeline_buffer_used Current pipeline buffer occupancy
# TYPE watchtower_pipeline_buffer_used gauge
watchtower_pipeline_buffer_used 12
# HELP watchtower_pipeline_flushes_total Total pipeline flushes to sinks
# TYPE watchtower_pipeline_flushes_total counter
watchtower_pipeline_flushes_total 0
# HELP watchtower_records_dropped_total Records dropped due to backpressure
# TYPE watchtower_records_dropped_total counter
watchtower_records_dropped_total 0
# HELP watchtower_records_received_total Total log records received via gRPC
# TYPE watchtower_records_received_total counter
watchtower_records_received_total 0
# HELP watchtower_sink_errors_total Delivery errors per sink
# TYPE watchtower_sink_errors_total counter
watchtower_sink_errors_total{sink=\"q\\\"x\"} 1
# HELP watchtower_sink_records_sent_total Records sent per sink
# TYPE watchtower_sink_records_sent_total counter
watchtower_sink_records_sent_total{sink=\"a\"} 1
watchtower_sink_records_sent_total{sink=\"b\"} 9
";
    assert_eq!(m.render(), expected);
    count_retry(&mut m, "a");
    assert_eq!(m.sink_retries.get("a"), 1);
    assert_eq!(m.sink_retries.get("b"), 0);
    assert!(m.render().ends_with("watchtower_sink_retries_total{sink=\"a\"} 1\n"));
}

#[test]
fn large_counts_are_exact_up_to_two_to_the_53() {
    let mut m = Metrics::new();
    m.grpc_errors.inc_by(9_007_199_254_740_992);
    assert!(m.render().contains("watchtower_grpc_errors_total 9007199254740992\n"));
    m.grpc_errors.inc_by(u64::MAX);
    assert_eq!(m.grpc_errors.get(), 9_007_199_254_740_991);
}

#[test]
fn health_answers() {
    let m = Metrics::new();
    let (mut server, handle) = HealthServer::new();
    let r = handle_request("/healthz", &server, &m);
    assert_eq!((r.status, r.body.as_str()), (200, "ok\n"));
    let r = handle_request("/readyz", &server, &m);
    assert_eq!((r.status, r.body.as_str()), (503, "not ready\n"));
    handle.set_ready(&mut server);
    let r = handle_request("/readyz", &server, &m);
    assert_eq!((r.status, r.body.as_str()), (200, "ready\n"));
    handle.set_not_ready(&mut server);
    assert_eq!(handle_request("/readyz", &server, &m).status, 503);
    let r = handle_request("/metrics", &server, &m);
    assert_eq!(r.status, 200);
    assert_eq!(
        r.headers,
        vec![("Content-Type".to_string(), "text/plain; version=0.0.4".to_string())]
    );
    assert_eq!(r.body, m.render());
    let r = handle_request("/", &server, &m);
    assert_eq!((r.status, r.body.as_str()), (404, "not found\n"));
    assert!(r.headers.is_empty());
}

#[test]
fn all_handles_share_one_flag() {
    let m = Metrics::new();
    let (mut server, handle) = HealthServer::new();
    let clone = handle.clone();
    let status = |server: &HealthServer| handle_request("/readyz", server, &m).status;
    clone.set_ready(&mut server);
    assert_eq!(status(&server), 200);
    handle.set_ready(&mut server);
    assert_eq!(status(&server), 200);
    handle.set_not_ready(&mut server);
    assert_eq!(status(&server), 503);
    clone.set_not_ready(&mut server);
    assert_eq!(status(&server), 503);
}

#[test]
fn counting_in_one_metric_changes_one_name() {
    let zero = Metrics::new().render();
    let mut m = Metrics::new();
    m.records_dropped.inc_by(7);
    let name = "watchtower_records_dropped_total";
    assert_eq!(m.render(), zero.replace(&format!("{name} 0"), &format!("{name} 7")));
    assert_eq!(Metrics::new().render(), zero);
    count_retry(&mut m, "only");
    let lines = "# HELP watchtower_sink_retries_total Retry attempts per sink\n\
                 # TYPE watchtower_sink_retries_total counter\n\
                 watchtower_sink_retries_total{sink=\"only\"} 1\n";
    assert!(m.render().ends_with(lines));
}

#[test]
fn sinks_are_listed_by_name_and_escaped() {
    let mut m = Metrics::new();
    let counts =
        [("store", 1), ("a\\b\nc\"d", 2), ("elasticsearch-0", 3), ("Z", 4), ("store", 5)];
    for (sink, n) in counts {
        count_delivery(&mut m, sink, n, true);
    }
    let text = m.render();
    let lines: Vec<&str> = text.lines().filter(|l| l.contains("{sink=")).collect();
    assert_eq!(
        lines,
        vec![
            "watchtower_sink_records_sent_total{sink=\"Z\"} 4",
            "watchtower_sink_records_sent_total{sink=\"a\\\\b\\nc\\\"d\"} 2",
            "watchtower_sink_records_sent_total{sink=\"elasticsearch-0\"} 3",
            "watchtower_sink_records_sent_total{sink=\"store\"} 6",
        ]
    );
}

#[test]
fn batches_lose_the_metadata_that_came_with_them() {
    let mut worker = Worker::new(1);
    let mut batch = make_batch(2);
    batch.metadata.insert("k".into(), "v".into());
    for out in worker.step(WorkerEvent::Batch(batch)) {
        assert!(out.metadata.is_empty());
    }
}
