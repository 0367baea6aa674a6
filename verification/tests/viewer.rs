use std::time::Duration;

use watchtower::config::BasicAuthConfig;
use watchtower::proto::{LogBatch, LogRecord, Resource, Timestamp};
use watchtower::sink::store::{batch_rows, query_result, LogQuery, StoredRow};
use watchtower::viewer::page::INDEX_HTML;
use watchtower::viewer::{
    apply_param, auth_matches, base64_encode, checked_query, form_decode, hex_val, json_error,
    json_ok, logs_answer, now_unix_nanos, parse_min_severity, parse_query, route, services_answer,
    unauthorized, url_decode, Route,
};

#[test]
fn base64_known_vectors() {
    assert_eq!(base64_encode(b"a:b"), "YTpi");
    assert_eq!(base64_encode(b"admin:changeme"), "YWRtaW46Y2hhbmdlbWU=");
    assert_eq!(base64_encode(b"a"), "YQ==");
    assert_eq!(base64_encode(b"ab"), "YWI=");
}

#[test]
fn base64_of_all_letters() {
    assert_eq!(base64_encode(b""), "");
    assert_eq!(base64_encode(&[0xfb, 0xff, 0xfe]), "+//+");
    assert_eq!(base64_encode("ä:ö".as_bytes()), "w6Q6w7Y=");
}

#[test]
fn auth_matches_logic() {
    assert!(auth_matches(None, &None));
    assert!(auth_matches(Some("anything"), &None));
    let cfg = Some(BasicAuthConfig { username: "admin".into(), password: "changeme".into() });
    assert!(auth_matches(Some("Basic YWRtaW46Y2hhbmdlbWU="), &cfg)); // correct
    assert!(!auth_matches(Some("Basic d3Jvbmc="), &cfg)); // wrong creds
    assert!(!auth_matches(None, &cfg)); // missing header
    assert!(!auth_matches(Some("YWRtaW46Y2hhbmdlbWU="), &cfg)); // missing "Basic " prefix
}

#[test]
fn severity_names_and_ints() {
    assert_eq!(parse_min_severity("error"), Some(17));
    assert_eq!(parse_min_severity("INFO"), Some(9));
    assert_eq!(parse_min_severity("13"), Some(13));
    assert_eq!(parse_min_severity("nonsense"), None);
}

#[test]
fn severity_of_every_name() {
    assert_eq!(parse_min_severity(" Trace "), Some(1));
    assert_eq!(parse_min_severity("debug"), Some(5));
    assert_eq!(parse_min_severity("warn"), Some(13));
    assert_eq!(parse_min_severity("Warning"), Some(13));
    assert_eq!(parse_min_severity("FATAL"), Some(21));
    assert_eq!(parse_min_severity("-2147483648"), Some(i32::MIN));
    assert_eq!(parse_min_severity("2147483648"), None);
    assert_eq!(parse_min_severity(""), None);
}

#[test]
fn parse_query_maps_all_fields() {
    let now = 1_700_000_000 * 1_000_000_000;
    let q = parse_query("q=charge&min_severity=error&service=pay&since=1h&limit=50", now);
    assert_eq!(q.q.as_deref(), Some("charge"));
    assert_eq!(q.min_severity, Some(17));
    assert_eq!(q.service.as_deref(), Some("pay"));
    assert_eq!(q.since_nanos, Some(now - 3600 * 1_000_000_000));
    assert_eq!(q.limit, 50);
}

#[test]
fn parse_query_after_id_and_defaults() {
    let q = parse_query("after_id=42", 0);
    assert_eq!(q.after_id, Some(42));
    assert_eq!(q.limit, 100); // default
}

#[test]
fn parse_query_passes_over_what_it_cannot_use() {
    let q = parse_query("&&q=&service=&since=soon&limit=x&colour=red&before_id=9&before_id", 5);
    assert_eq!(q.q, None);
    assert_eq!(q.service, None);
    assert_eq!(q.since_nanos, None);
    assert_eq!(q.limit, 100);
    assert_eq!(q.before_id, None);
    assert_eq!(q.min_severity, None);
    assert_eq!(parse_query("q=a=b", 0).q.as_deref(), Some("a=b"));
    assert_eq!(parse_query("q=a&q=b", 0).q.as_deref(), Some("b"));
}

#[test]
fn the_order_of_names_does_not_matter() {
    let a = parse_query("q=x&limit=7&service=pay&since=1h&q=y", 0);
    let b = parse_query("since=1h&&q=x&colour=red&q=y&limit=&service=pay&service=&limit=7", 0);
    assert_eq!(format!("{a:?}"), format!("{b:?}"));
    assert_eq!(a.q.as_deref(), Some("y"));
}

#[test]
fn limits_stay_in_range() {
    assert_eq!(parse_query("limit=0", 0).limit, 1);
    assert_eq!(parse_query("limit=1000", 0).limit, 1000);
    assert_eq!(parse_query("limit=1001", 0).limit, 1000);
    assert_eq!(parse_query("", 0).limit, 100);
}

#[test]
fn since_out_of_range_makes_no_query() {
    assert!(checked_query("since=1h", i64::MIN).is_none());
    assert!(checked_query("since=18446744073709551615d", 0).is_none());
    let q = checked_query("since=2s&limit=3", 0).unwrap();
    assert_eq!(q.since_nanos, Some(-2_000_000_000));
    assert_eq!(q.limit, 3);
}

#[test]
fn a_parameter_out_of_range_leaves_the_query() {
    let mut q = LogQuery::default();
    assert!(apply_param(&mut q, "since", "1s".into(), 10));
    assert_eq!(q.since_nanos, Some(10 - 1_000_000_000));
    assert!(!apply_param(&mut q, "since", "1s".into(), i64::MIN));
    assert_eq!(q.since_nanos, Some(10 - 1_000_000_000));
}

#[test]
fn url_decodes_query_text() {
    let q = parse_query("q=charge%20failed", 0);
    assert_eq!(q.q.as_deref(), Some("charge failed"));
}

#[test]
fn url_decoding_of_edge_cases() {
    assert_eq!(url_decode("a+b"), "a b");
    assert_eq!(url_decode("%41%7a"), "Az");
    assert_eq!(url_decode("%zz%4"), "%zz%4");
    assert_eq!(url_decode("%C3%A4"), "ä");
    assert_eq!(url_decode("100%"), "100%");
    assert_eq!(url_decode("%41"), "A");
    assert_eq!(url_decode("x%ffy"), "x\u{fffd}y");
    assert_eq!(form_decode(b"%00%FF"), vec![0, 255]);
    assert_eq!(hex_val(b'f'), Some(15));
    assert_eq!(hex_val(b'F'), Some(15));
    assert_eq!(hex_val(b'9'), Some(9));
    assert_eq!(hex_val(b'g'), None);
}

#[test]
fn any_text_can_be_searched_for() {
    let text = "a&b=c+d% ä";
    let query: String = text.bytes().map(|b| format!("%{b:02X}")).collect();
    assert_eq!(parse_query(&format!("q={query}"), 0).q.as_deref(), Some(text));
}

#[test]
fn index_html_is_embedded() {
    assert!(INDEX_HTML.contains("Watchtower"));
    assert!(INDEX_HTML.contains("/api/logs"));
}

#[test]
fn the_page_is_served_at_the_root() {
    match route(None, &None, "/") {
        Route::Answer(r) => {
            assert_eq!(r.status, 200);
            assert_eq!(
                r.headers,
                vec![("Content-Type".to_string(), "text/html; charset=utf-8".to_string())]
            );
            assert!(r.body.contains("Watchtower Logs"));
        }
        _ => panic!("no page"),
    }
    assert!(matches!(route(None, &None, "/api/logs"), Route::Logs));
    assert!(matches!(route(None, &None, "/api/services"), Route::Services));
    match route(None, &None, "/nothing") {
        Route::Answer(r) => {
            assert_eq!(r.status, 404);
            assert_eq!(r.body, "not found\n");
        }
        _ => panic!("found"),
    }
}

#[test]
fn test_viewer_basic_auth() {
    let auth = Some(BasicAuthConfig { username: "admin".into(), password: "changeme".into() });
    for path in ["/", "/api/logs", "/api/services", "/nothing"] {
        match route(None, &auth, path) {
            Route::Answer(r) => {
                assert_eq!(r.status, 401);
                assert_eq!(r.body, "unauthorized\n");
                assert_eq!(
                    r.headers,
                    vec![(
                        "WWW-Authenticate".to_string(),
                        "Basic realm=\"watchtower\"".to_string()
                    )]
                );
            }
            _ => panic!("passed"),
        }
    }
    let header = Some("Basic YWRtaW46Y2hhbmdlbWU=");
    assert!(matches!(route(header, &auth, "/api/logs"), Route::Logs));
    assert_eq!(unauthorized().status, 401);
}

#[test]
fn test_viewer_stores_and_serves_logs() {
    let records = (0..5)
        .map(|i| LogRecord {
            timestamp: Some(Timestamp { seconds: 1700000000 + i, nanos: 123_000_000 }),
            severity: 9,
            body: format!("test log message {i}"),
            resource: Some(Resource {
                service_name: "test-service".into(),
                host_name: "localhost".into(),
                instance_id: "test-1".into(),
                attributes: vec![],
            }),
            ..Default::default()
        })
        .collect();
    let batch = LogBatch { records, metadata: Default::default() };
    let rows: Vec<StoredRow> = batch_rows(&batch)
        .into_iter()
        .enumerate()
        .map(|(i, row)| StoredRow { id: i as i64 + 1, row })
        .collect();
    let answer = logs_answer(Some(query_result(&rows)));
    assert_eq!(answer.status, 200);
    assert_eq!(
        answer.headers,
        vec![("Content-Type".to_string(), "application/json".to_string())]
    );
    let v: serde_json::Value = serde_json::from_str(&answer.body).unwrap();
    assert_eq!(v["records"].as_array().unwrap().len(), 5);
    assert_eq!(v["records"][4]["body"], "test log message 4");
    assert_eq!(v["oldest_id"], 1);
    assert_eq!(v["newest_id"], 5);
}

#[test]
fn answers_without_rows_and_without_a_result() {
    let r = logs_answer(Some(query_result(&[])));
    assert_eq!(r.body, "{\"newest_id\":null,\"oldest_id\":null,\"records\":[]}");
    assert_eq!(json_error().body, "{\"error\":\"query failed\"}");
    let r = logs_answer(None);
    assert_eq!(r.status, 500);
    assert_eq!(r.body, "{\"error\":\"query failed\"}");
    let r = services_answer(Some(vec!["auth".into(), "p\"y".into()]));
    assert_eq!(r.status, 200);
    assert_eq!(r.body, "{\"services\":[\"auth\",\"p\\\"y\"]}");
    assert_eq!(services_answer(None).status, 500);
    assert_eq!(json_ok("{}".into()).body, "{}");
}

#[test]
fn the_clock_in_nanoseconds() {
    assert_eq!(now_unix_nanos(None), 0);
    assert_eq!(now_unix_nanos(Some(Duration::from_millis(1_500))), 1_500_000_000);
    // 2^64 nanoseconds and one more
    assert_eq!(now_unix_nanos(Some(Duration::new(18_446_744_073, 709_551_617))), 1);
    assert_eq!(now_unix_nanos(Some(Duration::new(18_446_744_073, 709_551_615))), -1);
}
