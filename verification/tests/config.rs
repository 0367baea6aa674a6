use std::time::Duration;

use watchtower::config::env::{ConfigError, Env};
use watchtower::config::{
    parse_duration, BasicAuthConfig, Config, ElasticSinkConfig, ForwardSinkConfig, SinkConfig,
    ViewerConfig,
};
use watchtower::duration::{checked_duration, parse_duration_str, DurationFault};

fn env(vars: &[(&str, &str)]) -> Env {
    Env { vars: vars.iter().map(|(k, v)| (k.to_string(), v.to_string())).collect() }
}

fn message(e: ConfigError) -> String {
    match e {
        ConfigError::Message(m) => m,
        ConfigError::Overflow => panic!("overflow"),
    }
}

#[test]
fn parses_hours_and_days() {
    assert_eq!(parse_duration("2h").unwrap(), Duration::from_secs(7200));
    assert_eq!(parse_duration("3d").unwrap(), Duration::from_secs(259200));
    assert_eq!(parse_duration("500ms").unwrap(), Duration::from_millis(500));
    assert_eq!(parse_duration("45s").unwrap(), Duration::from_secs(45));
    assert_eq!(parse_duration("10m").unwrap(), Duration::from_secs(600));
}

#[test]
fn durations_with_space_and_without_unit() {
    assert_eq!(parse_duration("  30 ").unwrap(), Duration::from_secs(30));
    assert_eq!(parse_duration(" 5 s ").unwrap(), Duration::from_secs(5));
    assert_eq!(parse_duration("+7m").unwrap(), Duration::from_secs(420));
    assert_eq!(parse_duration("18446744073709551615").unwrap(), Duration::from_secs(u64::MAX));
}

#[test]
fn durations_say_what_is_wrong() {
    assert_eq!(parse_duration("abc").unwrap_err(), "invalid duration: abc");
    assert_eq!(parse_duration("").unwrap_err(), "invalid duration: ");
    assert_eq!(parse_duration("s").unwrap_err(), "cannot parse integer from empty string");
    assert_eq!(parse_duration("xms").unwrap_err(), "invalid digit found in string");
    assert_eq!(
        parse_duration("18446744073709551616s").unwrap_err(),
        "number too large to fit in target type"
    );
    assert_eq!(parse_duration("-3d").unwrap_err(), "invalid digit found in string");
}

#[test]
fn durations_that_are_too_long() {
    assert!(matches!(checked_duration("18446744073709551615d"), Err(DurationFault::Overflow)));
    assert!(matches!(parse_duration_str("307445734561825861m"), Err(DurationFault::Overflow)));
    assert_eq!(
        parse_duration_str("307445734561825860m").unwrap(),
        Duration::from_secs(18446744073709551600)
    );
}

#[test]
fn short_durations_have_no_hours() {
    assert_eq!(parse_duration_str("2m").unwrap(), Duration::from_secs(120));
    assert_eq!(parse_duration_str("30").unwrap(), Duration::from_secs(30));
    match parse_duration_str("2h") {
        Err(DurationFault::Invalid(m)) => assert_eq!(m, "invalid digit found in string"),
        other => panic!("{other:?}"),
    }
}

#[test]
fn viewer_defaults_are_safe() {
    let cfg = Config::default();
    assert!(!cfg.viewer.enabled);
    assert_eq!(cfg.viewer.listen_addr, "127.0.0.1:9092");
    assert_eq!(cfg.viewer.db_path, ":memory:");
    assert_eq!(cfg.viewer.retention.max_records, 1_000_000);
    assert_eq!(cfg.viewer.retention.max_age, Duration::from_secs(7 * 86400));
    assert!(cfg.viewer.auth.is_none());
}

#[test]
fn server_and_pipeline_defaults() {
    let cfg = Config::default();
    assert_eq!(cfg.server.listen_addr, "[::]:9090");
    assert_eq!(cfg.server.max_recv_msg_size, 4194304);
    assert_eq!(cfg.server.max_concurrent_streams, 100);
    assert_eq!(cfg.server.keepalive_interval, Duration::from_secs(30));
    assert_eq!(cfg.server.keepalive_timeout, Duration::from_secs(10));
    assert!(cfg.server.enable_compression);
    assert_eq!(cfg.pipeline.batch_size, 1024);
    assert_eq!(cfg.pipeline.buffer_size, 8192);
    assert_eq!(cfg.pipeline.workers, 2);
    assert_eq!(cfg.pipeline.flush_interval, Duration::from_secs(2));
    assert!(cfg.health.enabled);
    assert_eq!(cfg.health.listen_addr, "[::]:9091");
    assert!(!cfg.spillover.enabled);
    assert_eq!(cfg.spillover.path, "/var/lib/watchtower/spillover.bin");
}

#[test]
fn rejects_no_sinks_when_viewer_disabled() {
    let cfg = Config::default(); // no sinks, viewer disabled
    assert!(cfg.validate().is_err());
    assert_eq!(
        cfg.validate().unwrap_err(),
        "no sinks configured and viewer disabled: logs would be discarded"
    );
}

#[test]
fn accepts_no_sinks_when_viewer_enabled() {
    let mut cfg = Config::default();
    cfg.viewer.enabled = true;
    assert!(cfg.validate().is_ok());
}

fn elastic(addresses: Vec<String>) -> ElasticSinkConfig {
    ElasticSinkConfig {
        addresses,
        index: "i".into(),
        username: None,
        password: None,
        tls: false,
        batch_size: 512,
        flush_interval: Duration::from_secs(5),
        retry_attempts: 3,
        retry_backoff: Duration::from_secs(1),
    }
}

fn forward(target: &str) -> ForwardSinkConfig {
    ForwardSinkConfig {
        target: target.into(),
        enable_compression: true,
        timeout: Duration::from_secs(10),
        tls_cert: None,
        tls_ca: None,
        retry_attempts: 3,
        retry_backoff: Duration::from_secs(1),
    }
}

#[test]
fn rejects_sizes_of_zero() {
    let mut cfg = Config::default();
    cfg.viewer.enabled = true;
    cfg.pipeline.workers = 0;
    assert_eq!(cfg.validate().unwrap_err(), "pipeline.workers must be > 0");
    cfg.pipeline.buffer_size = 0;
    assert_eq!(cfg.validate().unwrap_err(), "pipeline.buffer_size must be > 0");
    cfg.pipeline.batch_size = 0;
    assert_eq!(cfg.validate().unwrap_err(), "pipeline.batch_size must be > 0");
}

#[test]
fn rejects_the_first_incomplete_sink() {
    let mut cfg = Config::default();
    cfg.sinks.push(SinkConfig::Watchtower(forward("up:9090")));
    assert!(cfg.validate().is_ok());
    cfg.sinks.push(SinkConfig::OpenSearch(elastic(vec![])));
    cfg.sinks.push(SinkConfig::Watchtower(forward("")));
    assert_eq!(cfg.validate().unwrap_err(), "sink[1]: addresses required");
    cfg.sinks.remove(1);
    assert_eq!(cfg.validate().unwrap_err(), "sink[1]: target required");
    let copy = cfg.sinks[0].clone();
    cfg.sinks = vec![copy];
    assert!(cfg.validate().is_ok());
}

#[test]
fn viewer_env_vars_parse() {
    let env = env(&[
        ("WATCHTOWER_VIEWER_ENABLED", "true"),
        ("WATCHTOWER_VIEWER_PORT", "9092"),
        ("WATCHTOWER_VIEWER_DB_PATH", "/data/logs.db"),
        ("WATCHTOWER_VIEWER_MAX_RECORDS", "500000"),
        ("WATCHTOWER_VIEWER_MAX_AGE", "3d"),
        ("WATCHTOWER_VIEWER_AUTH_USERNAME", "admin"),
        ("WATCHTOWER_VIEWER_AUTH_PASSWORD", "secret"),
    ]);
    let mut v = ViewerConfig::default();
    Config::apply_viewer_env(&mut v, &env).unwrap();
    assert!(v.enabled);
    assert_eq!(v.listen_addr, "[::]:9092"); // PORT binds all interfaces (Railway)
    assert_eq!(v.db_path, "/data/logs.db");
    assert_eq!(v.retention.max_records, 500_000);
    assert_eq!(v.retention.max_age, Duration::from_secs(3 * 86400)); // "3d" needs h/d parser
    let auth = v.auth.expect("auth should be set when both user+pass present");
    assert_eq!(auth.username, "admin");
    assert_eq!(auth.password, "secret");
}

#[test]
fn viewer_env_listen_addr_overrides_port() {
    let env = env(&[
        ("WATCHTOWER_VIEWER_PORT", "9092"),
        ("WATCHTOWER_VIEWER_LISTEN_ADDR", "127.0.0.1:7000"),
    ]);
    let mut v = ViewerConfig::default();
    Config::apply_viewer_env(&mut v, &env).unwrap();
    assert_eq!(v.listen_addr, "127.0.0.1:7000");
}

#[test]
fn viewer_env_partial_auth_is_ignored() {
    let env = env(&[("WATCHTOWER_VIEWER_AUTH_USERNAME", "admin")]);
    let mut v = ViewerConfig::default();
    Config::apply_viewer_env(&mut v, &env).unwrap();
    assert!(!v.enabled);
    assert!(v.auth.is_none()); // password missing -> no auth
}

#[test]
fn viewer_env_stops_at_the_first_fault() {
    let env = env(&[
        ("WATCHTOWER_VIEWER_ENABLED", "FALSE"),
        ("WATCHTOWER_VIEWER_DB_PATH", "x.db"),
        ("WATCHTOWER_VIEWER_MAX_RECORDS", "many"),
        ("WATCHTOWER_VIEWER_MAX_AGE", "3d"),
    ]);
    let mut v = ViewerConfig::default();
    v.enabled = true;
    let e = Config::apply_viewer_env(&mut v, &env).unwrap_err();
    assert_eq!(message(e), "invalid WATCHTOWER_VIEWER_MAX_RECORDS");
    assert!(!v.enabled);
    assert_eq!(v.db_path, "x.db");
    assert_eq!(v.retention.max_age, Duration::from_secs(7 * 86400));
}

#[test]
fn viewer_env_age_can_be_wrong_or_too_long() {
    let mut v = ViewerConfig::default();
    let e = Config::apply_viewer_env(&mut v, &env(&[("WATCHTOWER_VIEWER_MAX_AGE", "old")]));
    assert_eq!(message(e.unwrap_err()), "invalid digit found in string");
    let e = Config::apply_viewer_env(
        &mut v,
        &env(&[("WATCHTOWER_VIEWER_MAX_AGE", "18446744073709551615d")]),
    );
    assert!(matches!(e, Err(ConfigError::Overflow)));
}

#[test]
fn env_config_with_one_sink() {
    let env = env(&[
        ("PORT", "8080"),
        ("WATCHTOWER_HEALTH_PORT", "8081"),
        ("WATCHTOWER_HEALTH_ENABLED", "0"),
        ("WATCHTOWER_WORKERS", "4"),
        ("WATCHTOWER_BATCH_SIZE", "16"),
        ("WATCHTOWER_BUFFER_SIZE", "32"),
        ("WATCHTOWER_FLUSH_INTERVAL", "250ms"),
        ("WATCHTOWER_SPILLOVER_ENABLED", "yes"),
        ("WATCHTOWER_SPILLOVER_PATH", "/tmp/s.bin"),
        ("WATCHTOWER_SINK_TYPE", "ElasticSearch"),
        ("WATCHTOWER_SINK_ADDRESSES", " https://a:9200 ,, https://b:9200"),
        ("WATCHTOWER_SINK_USERNAME", "elastic"),
        ("WATCHTOWER_SINK_PASSWORD", "pw"),
        ("WATCHTOWER_SINK_TLS", "true"),
        ("WATCHTOWER_SINK_RETRY_ATTEMPTS", "5"),
        ("WATCHTOWER_SINK_FLUSH_INTERVAL", "nonsense"),
    ]);
    let cfg = Config::from_env(&env).unwrap();
    assert_eq!(cfg.server.listen_addr, "[::]:8080");
    assert_eq!(cfg.health.listen_addr, "[::]:8081");
    assert!(!cfg.health.enabled);
    assert_eq!(cfg.pipeline.workers, 4);
    assert_eq!(cfg.pipeline.batch_size, 16);
    assert_eq!(cfg.pipeline.buffer_size, 32);
    assert_eq!(cfg.pipeline.flush_interval, Duration::from_millis(250));
    assert!(cfg.spillover.enabled);
    assert_eq!(cfg.spillover.path, "/tmp/s.bin");
    assert_eq!(cfg.sinks.len(), 1);
    match &cfg.sinks[0] {
        SinkConfig::Elasticsearch(c) => {
            assert_eq!(c.addresses, vec!["https://a:9200", "https://b:9200"]);
            assert_eq!(c.index, "watchtower-logs");
            assert_eq!(c.username.as_deref(), Some("elastic"));
            assert_eq!(c.password.as_deref(), Some("pw"));
            assert!(c.tls);
            assert_eq!(c.batch_size, 512);
            assert_eq!(c.flush_interval, Duration::from_secs(5));
            assert_eq!(c.retry_attempts, 5);
            assert_eq!(c.retry_backoff, Duration::from_secs(1));
        }
        other => panic!("{other:?}"),
    }
    assert!(cfg.validate().is_ok());
}

#[test]
fn env_sinks_come_in_the_order_of_their_prefixes() {
    let env = env(&[
        ("WATCHTOWER_SINK_15_TYPE", "opensearch"),
        ("WATCHTOWER_SINK_15_ADDRESSES", "https://os"),
        ("WATCHTOWER_SINK_0_TYPE", "watchtower"),
        ("WATCHTOWER_SINK_0_TARGET", "aggregator:9090"),
        ("WATCHTOWER_SINK_0_COMPRESSION", "false"),
        ("WATCHTOWER_SINK_0_TIMEOUT", "3s"),
        ("WATCHTOWER_SINK_1_TYPE", "elasticsearch"),
        ("WATCHTOWER_SINK_2_TYPE", "watchtower"),
        ("WATCHTOWER_SINK_2_TARGET", ""),
        ("WATCHTOWER_SINK_3_TYPE", "kafka"),
        ("WATCHTOWER_SINK_16_TYPE", "watchtower"),
        ("WATCHTOWER_SINK_16_TARGET", "late:9090"),
    ]);
    let sinks = Config::sinks_from_env(&env).unwrap();
    assert_eq!(sinks.len(), 2);
    match &sinks[0] {
        SinkConfig::Watchtower(c) => {
            assert_eq!(c.target, "aggregator:9090");
            assert!(!c.enable_compression);
            assert_eq!(c.timeout, Duration::from_secs(3));
            assert_eq!(c.tls_cert, None);
        }
        other => panic!("{other:?}"),
    }
    assert!(matches!(&sinks[1], SinkConfig::OpenSearch(c) if c.addresses == vec!["https://os"]));
    assert!(Config::parse_sink_env(&env, "WATCHTOWER_SINK").unwrap().is_none());
}

#[test]
fn env_faults_are_reported() {
    for (name, words) in [
        ("WATCHTOWER_WORKERS", "invalid WATCHTOWER_WORKERS"),
        ("WATCHTOWER_BATCH_SIZE", "invalid WATCHTOWER_BATCH_SIZE"),
        ("WATCHTOWER_BUFFER_SIZE", "invalid WATCHTOWER_BUFFER_SIZE"),
        ("WATCHTOWER_FLUSH_INTERVAL", "invalid digit found in string"),
    ] {
        let e = Config::from_env(&env(&[(name, "x")])).unwrap_err();
        assert_eq!(message(e), words);
    }
    let e = Config::from_env(&env(&[])).unwrap_err();
    assert_eq!(message(e), "no sinks configured and viewer disabled: logs would be discarded");
    let e = Config::from_env(&env(&[("WATCHTOWER_FLUSH_INTERVAL", "18446744073709551615m")]));
    assert!(matches!(e, Err(ConfigError::Overflow)));
    let e = Config::from_env(&env(&[
        ("WATCHTOWER_SINK_TYPE", "watchtower"),
        ("WATCHTOWER_SINK_TARGET", "t"),
        ("WATCHTOWER_SINK_TIMEOUT", "18446744073709551615m"),
    ]));
    assert!(matches!(e, Err(ConfigError::Overflow)));
}

#[test]
fn port_wins_over_a_file() {
    let mut cfg = Config::default();
    cfg.server.listen_addr = "127.0.0.1:1".into();
    cfg.health.listen_addr = "127.0.0.1:2".into();
    cfg.apply_env_overrides(&env(&[("PORT", "7")]));
    assert_eq!(cfg.server.listen_addr, "[::]:7");
    assert_eq!(cfg.health.listen_addr, "127.0.0.1:2");
}

#[test]
fn copies_hold_the_same_settings() {
    let mut v = ViewerConfig::default();
    v.auth = Some(BasicAuthConfig { username: "u".into(), password: "p".into() });
    let w = v.clone();
    assert_eq!(w.auth.unwrap().username, "u");
    assert_eq!(w.db_path, v.db_path);
}
