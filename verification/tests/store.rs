use watchtower::client::attr;
use watchtower::proto::{LogBatch, LogRecord, Resource, Severity, Timestamp};
use watchtower::sink::encode::record_to_json;
use watchtower::sink::store::{
    batch_rows, clamp_limit, is_durable, prune_cutoff, query_result, query_statement, record_row,
    row_to_json, rows_to_keep, Insert, InsertAction, LogQuery, Param, StoredRow, SCHEMA,
};

fn rec(body: &str, sev: Severity, service: &str, secs: i64) -> LogRecord {
    LogRecord {
        timestamp: Some(Timestamp { seconds: secs, nanos: 0 }),
        severity: sev.number(),
        body: body.into(),
        attributes: vec![],
        resource: Some(Resource {
            service_name: service.into(),
            host_name: "h".into(),
            instance_id: "i".into(),
            attributes: vec![],
        }),
        trace_id: vec![],
        span_id: vec![],
        schema_url: String::new(),
    }
}

fn batch(records: Vec<LogRecord>) -> LogBatch {
    LogBatch { records, metadata: Default::default() }
}

#[test]
fn rows_hold_what_the_records_hold() {
    let mut full = rec("a", Severity::Info, "svc", 1_700_000_000);
    full.trace_id = vec![0xab];
    full.span_id = vec![0x01, 0x02];
    full.attributes = vec![attr("k", "v")];
    full.schema_url = "u".into();
    let rows = batch_rows(&batch(vec![full, LogRecord::default()]));
    assert_eq!(rows.len(), 2);
    assert_eq!(rows[0].ts_nanos, 1_700_000_000_000_000_000);
    assert_eq!(rows[0].severity, 9);
    assert_eq!(rows[0].service_name, "svc");
    assert_eq!(rows[0].host_name, "h");
    assert_eq!(rows[0].instance_id, "i");
    assert_eq!(rows[0].trace_id, "ab");
    assert_eq!(rows[0].span_id, "0102");
    assert_eq!(rows[0].attributes, "{\"k\":\"v\"}");
    assert_eq!(rows[0].schema_url, "u");
    assert_eq!(rows[1].ts_nanos, 0);
    assert_eq!(rows[1].service_name, "");
    assert_eq!(rows[1].attributes, "");
}

#[test]
fn a_batch_is_committed_after_its_last_row() {
    let two = batch(vec![rec("a", Severity::Info, "svc", 1), rec("b", Severity::Error, "svc", 2)]);
    let (mut insert, first) = Insert::begin(&two);
    assert_eq!(first, InsertAction::Row);
    assert_eq!(insert.row().body, "a");
    assert_eq!(insert.row_done(true), InsertAction::Row);
    assert_eq!(insert.row().body, "b");
    assert_eq!(insert.row_done(true), InsertAction::Commit);
    assert_eq!(insert.commit_done(true), InsertAction::Done { stored: 2 });
    assert_eq!(insert.commit_done(false), InsertAction::RollBack);
}

#[test]
fn a_row_that_cannot_be_inserted_rolls_back() {
    let two = batch(vec![rec("a", Severity::Info, "svc", 1), rec("b", Severity::Error, "svc", 2)]);
    let (mut insert, _) = Insert::begin(&two);
    assert_eq!(insert.row_done(true), InsertAction::Row);
    assert_eq!(insert.row_done(false), InsertAction::RollBack);
    let (_, nothing) = Insert::begin(&batch(vec![]));
    assert_eq!(nothing, InsertAction::Done { stored: 0 });
}

#[test]
fn empty_batches_have_no_rows() {
    assert!(batch_rows(&batch(vec![])).is_empty());
}

#[test]
fn a_stored_record_is_read_back() {
    let mut r = rec("a", Severity::Error, "svc", 1_700_000_000);
    r.trace_id = vec![7];
    r.attributes = vec![attr("n", -3i64), attr("s", "t"), attr("b", true)];
    let mut doc = row_to_json(42, &record_row(&r));
    assert_eq!(doc["id"], 42);
    doc.as_object_mut().unwrap().remove("id");
    assert_eq!(doc, record_to_json(&r));
}

#[test]
fn attributes_that_are_no_json_are_null() {
    let mut row = record_row(&rec("a", Severity::Info, "s", 0));
    row.attributes = "{".into();
    assert!(row_to_json(1, &row)["attributes"].is_null());
    row.attributes = "{\"x\":[1]}".into();
    assert_eq!(row_to_json(1, &row)["attributes"]["x"][0], 1);
}

fn texts(params: &[Param]) -> Vec<String> {
    params
        .iter()
        .map(|p| match p {
            Param::Text(s) => format!("'{s}'"),
            Param::Int(n) => format!("{n}"),
        })
        .collect()
}

const SELECT: &str = "SELECT id, ts_nanos, severity, service_name, host_name, instance_id, body, \
                      trace_id, span_id, attributes, schema_url FROM logs WHERE 1=1";

#[test]
fn open_queries_bring_the_newest_rows() {
    let s = query_statement(&LogQuery { limit: 100, ..Default::default() });
    assert_eq!(s.sql, format!("{SELECT} ORDER BY id DESC LIMIT ?"));
    assert_eq!(texts(&s.params), vec!["100"]);
}

#[test]
fn queries_with_every_condition() {
    let s = query_statement(&LogQuery {
        q: Some("charge".into()),
        min_severity: Some(17),
        service: Some("pay".into()),
        since_nanos: Some(-5),
        after_id: Some(2),
        before_id: Some(9),
        limit: 5000,
    });
    assert_eq!(
        s.sql,
        format!(
            "{SELECT} AND body LIKE ? AND severity >= ? AND service_name = ? AND ts_nanos >= ? \
             AND id > ? AND id < ? ORDER BY id ASC LIMIT ?"
        )
    );
    assert_eq!(texts(&s.params), vec!["'%charge%'", "17", "'pay'", "-5", "2", "9", "1000"]);
    assert_eq!(s.sql.matches('?').count(), s.params.len());
}

#[test]
fn results_know_their_lowest_and_highest_number() {
    let rows: Vec<StoredRow> = [5, 3, 9, 4]
        .iter()
        .map(|id| StoredRow { id: *id, row: record_row(&rec("b", Severity::Warn, "s", *id)) })
        .collect();
    let r = query_result(&rows);
    assert_eq!(r.records.len(), 4);
    assert_eq!(r.records[2]["id"], 9);
    assert_eq!(r.oldest_id, Some(3));
    assert_eq!(r.newest_id, Some(9));
    let none = query_result(&[]);
    assert_eq!((none.oldest_id, none.newest_id), (None, None));
}

#[test]
fn retention_by_age_and_by_count() {
    assert_eq!(
        prune_cutoff(500 * 1_000_000_000, 2_000 * 1_000_000_000),
        1_500 * 1_000_000_000
    );
    assert_eq!(prune_cutoff(i64::MAX, -2), i64::MIN);
    assert_eq!(prune_cutoff(i64::MIN, 0), i64::MAX);
    assert_eq!(rows_to_keep(10, 4), Some(4));
    assert_eq!(rows_to_keep(4, 4), None);
    assert_eq!(rows_to_keep(10, u64::MAX), None);
}

#[test]
fn limits_and_paths() {
    assert_eq!(clamp_limit(0), 1);
    assert_eq!(clamp_limit(7), 7);
    assert_eq!(clamp_limit(usize::MAX), 1000);
    assert!(!is_durable(":memory:"));
    assert!(is_durable("/var/lib/logs.db"));
    assert!(SCHEMA.contains("CREATE TABLE IF NOT EXISTS logs"));
    assert_eq!(SCHEMA.matches("CREATE INDEX IF NOT EXISTS").count(), 3);
}
