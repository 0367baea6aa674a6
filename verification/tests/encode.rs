use watchtower::calendar::days_to_date;
use watchtower::client::attr;
use watchtower::proto::{
    any_value, AnyValue, ArrayValue, Double, KeyValue, LogBatch, LogRecord, MapValue, Resource,
    Severity, Timestamp,
};
use watchtower::sink::encode::{
    any_value_to_json, attributes_to_json, batch_fits, record_to_json, rfc3339_from_nanos,
    timestamp_fits, timestamp_to_nanos,
};

fn sample() -> LogRecord {
    LogRecord {
        timestamp: Some(Timestamp { seconds: 1_700_000_000, nanos: 123_000_000 }),
        severity: Severity::Error.number(),
        body: "boom".into(),
        attributes: vec![KeyValue {
            key: "order_id".into(),
            value: Some(AnyValue { value: Some(any_value::Kind::StringValue("ord_9".into())) }),
        }],
        resource: Some(Resource {
            service_name: "pay".into(),
            host_name: "h1".into(),
            instance_id: "i1".into(),
            attributes: vec![],
        }),
        trace_id: vec![],
        span_id: vec![],
        schema_url: String::new(),
    }
}

fn value(kind: any_value::Kind) -> AnyValue {
    AnyValue { value: Some(kind) }
}

fn float(x: f64) -> Double {
    Double { bits: x.to_bits(), number: serde_json::Number::from_f64(x) }
}

fn double(x: f64) -> AnyValue {
    value(any_value::Kind::DoubleValue(float(x)))
}

#[test]
fn attributes_made_of_floats() {
    let attrs = vec![attr("duration_ms", float(42.5)), attr("nan", float(f64::NAN))];
    assert_eq!(attributes_to_json(&attrs).to_string(), "{\"duration_ms\":42.5,\"nan\":null}");
}

#[test]
fn nanos_round_trip() {
    let ts = Timestamp { seconds: 1_700_000_000, nanos: 123_000_000 };
    assert_eq!(timestamp_to_nanos(&ts), 1_700_000_000_123_000_000);
}

#[test]
fn times_that_cannot_be_counted() {
    assert!(timestamp_fits(&Timestamp { seconds: -9_223_372_036, nanos: -854_775_808 }));
    assert!(!timestamp_fits(&Timestamp { seconds: -9_223_372_036, nanos: -854_775_809 }));
    assert!(!timestamp_fits(&Timestamp { seconds: 9_223_372_037, nanos: -2_000_000_000 }));
    let mut r = sample();
    r.timestamp = Some(Timestamp { seconds: i64::MAX, nanos: 0 });
    let good = LogBatch { records: vec![sample()], metadata: Default::default() };
    let bad = LogBatch { records: vec![sample(), r], metadata: Default::default() };
    assert!(batch_fits(&good));
    assert!(!batch_fits(&bad));
}

#[test]
fn rfc3339_has_expected_prefix() {
    let s = rfc3339_from_nanos(1_700_000_000_123_000_000);
    assert!(s.starts_with("2023-11-14T"), "got {s}");
    assert!(s.ends_with("Z"));
}

#[test]
fn rfc3339_in_full() {
    assert_eq!(rfc3339_from_nanos(1_700_000_000_123_000_000), "2023-11-14T22:13:20.123000000Z");
    assert_eq!(rfc3339_from_nanos(0), "1970-01-01T00:00:00.000000000Z");
    assert_eq!(rfc3339_from_nanos(-1), "1969-12-31T23:59:59.999999999Z");
    assert_eq!(rfc3339_from_nanos(951_782_400_000_000_000), "2000-02-29T00:00:00.000000000Z");
    assert_eq!(rfc3339_from_nanos(i64::MAX), "2262-04-11T23:47:16.854775807Z");
    assert_eq!(rfc3339_from_nanos(i64::MIN), "1677-09-21T00:12:43.145224192Z");
}

#[test]
fn rfc3339_orders_as_time_does() {
    let times = [i64::MIN, -86_400_000_000_001, -1, 0, 999_999_999, 1_000_000_000, 59_999_999_999,
        60_000_000_000, 86_399_999_999_999, 86_400_000_000_000, 951_782_400_000_000_000, i64::MAX];
    for a in times {
        assert_eq!(rfc3339_from_nanos(a).len(), 30);
        for b in times {
            assert_eq!(a < b, rfc3339_from_nanos(a) < rfc3339_from_nanos(b));
        }
    }
}

#[test]
fn dates_of_days() {
    assert_eq!(days_to_date(0), (1970, 1, 1));
    assert_eq!(days_to_date(-719_468), (0, 3, 1));
    assert_eq!(days_to_date(11_016), (2000, 2, 29));
    assert_eq!(days_to_date(47_541), (2100, 3, 1));
}

#[test]
fn record_json_shape() {
    let doc = record_to_json(&sample());
    assert_eq!(doc["severity"], 17);
    assert_eq!(doc["body"], "boom");
    assert_eq!(doc["resource"]["service_name"], "pay");
    assert_eq!(doc["attributes"]["order_id"], "ord_9");
}

#[test]
fn record_json_in_full() {
    let mut r = sample();
    r.trace_id = vec![0x0a, 0xf7];
    r.span_id = vec![0xb7];
    r.schema_url = "u".into();
    assert_eq!(
        record_to_json(&r).to_string(),
        "{\"@timestamp\":\"2023-11-14T22:13:20.123000000Z\",\
         \"attributes\":{\"order_id\":\"ord_9\"},\"body\":\"boom\",\
         \"resource\":{\"host_name\":\"h1\",\"instance_id\":\"i1\",\"service_name\":\"pay\"},\
         \"schema_url\":\"u\",\"severity\":17,\"span_id\":\"b7\",\"trace_id\":\"0af7\"}"
    );
    assert_eq!(
        record_to_json(&LogRecord::default()).to_string(),
        "{\"body\":\"\",\"severity\":0}"
    );
}

#[test]
fn every_kind_of_value() {
    let kinds = vec![
        value(any_value::Kind::StringValue("s\n".into())),
        value(any_value::Kind::IntValue(-7)),
        double(42.5),
        double(f64::NAN),
        value(any_value::Kind::BoolValue(true)),
        value(any_value::Kind::BytesValue(vec![0, 255])),
        value(any_value::Kind::MapValue(MapValue { entries: vec![attr("k", 1i64)] })),
        AnyValue { value: None },
    ];
    let all = value(any_value::Kind::ArrayValue(ArrayValue { values: kinds }));
    let text = any_value_to_json(&all).to_string();
    assert_eq!(text, "[\"s\\n\",-7,42.5,null,true,\"00ff\",{\"k\":1},null]");
    assert_eq!(any_value_to_json(&all.clone()).to_string(), text);
}

#[test]
fn later_attributes_win_and_absent_ones_vanish() {
    let attrs = vec![
        attr("a", 1i64),
        KeyValue { key: "b".into(), value: None },
        attr("a", "two"),
        KeyValue { key: "c".into(), value: Some(AnyValue { value: None }) },
    ];
    assert_eq!(attributes_to_json(&attrs).to_string(), "{\"a\":\"two\",\"c\":null}");
    assert_eq!(attributes_to_json(&[]).to_string(), "{}");
}

#[test]
fn copies_of_records_hold_the_same() {
    let mut r = sample();
    r.trace_id = vec![1, 2];
    r.attributes.push(KeyValue { key: "d".into(), value: Some(double(0.1)) });
    assert_eq!(record_to_json(&r.clone()), record_to_json(&r));
}

#[test]
fn severity_numbers() {
    let all = [
        (Severity::Unspecified, 0),
        (Severity::Trace, 1),
        (Severity::Debug, 5),
        (Severity::Info, 9),
        (Severity::Warn, 13),
        (Severity::Error, 17),
        (Severity::Fatal, 21),
    ];
    for (s, n) in all {
        assert_eq!(s.number(), n);
    }
}
