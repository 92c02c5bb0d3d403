use rustible_callback::plugins::logstash::{
    event_json, event_line, LogstashCallback, LogstashConfig, LogstashError, LogstashEvent, LogstashProtocol,
};
use rustible_callback::table::HostTable;
use rustible_callback::types::{Elapsed, ExecutionResult, JsonNumber, JsonValue, ModuleResult};

#[test]
fn logstash_test_config_builder() {
    let config = LogstashConfig::builder()
        .host("logstash.example.com")
        .port(5045)
        .protocol(LogstashProtocol::Tcp)
        .use_tls(true)
        .index("test-index")
        .application("test-app")
        .environment("production")
        .extra_field("team", "devops")
        .batch_size(50)
        .log_task_start(true)
        .build();

    assert_eq!(config.host, "logstash.example.com");
    assert_eq!(config.port, 5045);
    assert_eq!(config.protocol, LogstashProtocol::Tcp);
    assert!(config.use_tls);
    assert_eq!(config.index, "test-index");
    assert_eq!(config.application, "test-app");
    assert_eq!(config.environment, Some("production".to_string()));
    assert_eq!(config.extra_fields.get_ref("team"), Some(&"devops".to_string()));
    assert_eq!(config.batch_size, 50);
    assert!(config.log_task_start);
}

#[test]
fn logstash_test_default_config() {
    let config = LogstashConfig::default();
    assert_eq!(config.host, "localhost");
    assert_eq!(config.port, 5044);
    assert_eq!(config.protocol, LogstashProtocol::Tcp);
    assert!(!config.use_tls);
    assert_eq!(config.index, "rustible");
    assert_eq!(config.application, "rustible");
    assert!(config.environment.is_none());
    assert_eq!(config.batch_size, 100);
    assert_eq!(config.flush_interval_ms, 5000);
    assert!(!config.log_task_start);
    assert!(!config.log_facts);
}

#[test]
fn test_protocol_parsing() {
    assert_eq!("tcp".parse::<LogstashProtocol>().unwrap(), LogstashProtocol::Tcp);
    assert_eq!("TCP".parse::<LogstashProtocol>().unwrap(), LogstashProtocol::Tcp);
    assert_eq!("udp".parse::<LogstashProtocol>().unwrap(), LogstashProtocol::Udp);
    assert_eq!("http".parse::<LogstashProtocol>().unwrap(), LogstashProtocol::Http);
    assert!("invalid".parse::<LogstashProtocol>().is_err());
}

#[test]
fn test_protocol_display() {
    assert_eq!(LogstashProtocol::Tcp.to_string(), "tcp");
    assert_eq!(LogstashProtocol::Udp.to_string(), "udp");
    assert_eq!(LogstashProtocol::Http.to_string(), "http");
}

#[test]
fn test_address_format() {
    let config = LogstashConfig::builder().host("example.com").port(5044).build();
    assert_eq!(config.address(), "example.com:5044");
}

#[test]
fn test_error_display() {
    let err = LogstashError::ConnectionFailed("timeout".to_string());
    assert!(err.to_string().contains("Connection failed"));

    let err = LogstashError::ConfigError("missing host".to_string());
    assert!(err.to_string().contains("Configuration error"));
}

#[test]
fn logstash_parse_error_names_input() {
    match "smtp".parse::<LogstashProtocol>() {
        Err(LogstashError::ConfigError(m)) => assert!(m.contains("smtp")),
        _ => panic!("expected a configuration error"),
    }
}

fn get<'a>(v: &'a JsonValue, key: &str) -> Option<&'a JsonValue> {
    match v {
        JsonValue::Object(es) => es.iter().find(|(k, _)| k == key).map(|(_, x)| x),
        _ => None,
    }
}

fn text(v: Option<&JsonValue>) -> Option<&str> {
    v.and_then(|x| x.as_str())
}

#[test]
fn test_event_serialization() {
    let event = LogstashEvent {
        timestamp: "2024-01-01T00:00:00Z".to_string(),
        action: "test_action".to_string(),
        outcome: Some("success".to_string()),
        duration: Some(1000000),
        message: "Test message".to_string(),
        level: "info".to_string(),
        host: Some("test-host".to_string()),
        playbook: Some("test.yml".to_string()),
        play: Some("Test Play".to_string()),
        task: Some("Test Task".to_string()),
        status: Some("ok".to_string()),
        changed: Some(false),
        result: None,
        handler: None,
        extra: HostTable::new(),
    };
    let json = event_line(&event);
    assert!(json.contains("@timestamp"));
    assert!(json.contains("test_action"));
    assert!(json.contains("Test message"));
    assert!(json.contains("test-host"));
    let v = event_json(&event);
    assert_eq!(text(get(get(&v, "event").unwrap(), "module")), Some("rustible"));
    assert_eq!(text(get(get(&v, "log").unwrap(), "level")), Some("info"));
    assert!(get(get(&v, "rustible").unwrap(), "result").is_none());
}

fn vars(pairs: &[(&str, &str)]) -> Vec<(String, String)> {
    pairs.iter().map(|(k, v)| (k.to_string(), v.to_string())).collect()
}

#[test]
fn logstash_config_from_env() {
    let c = LogstashConfig::from_env(&vars(&[
        ("RUSTIBLE_LOGSTASH_HOST", "logs.example.com"),
        ("RUSTIBLE_LOGSTASH_PORT", "9000"),
        ("RUSTIBLE_LOGSTASH_PROTOCOL", "HTTPS"),
        ("RUSTIBLE_LOGSTASH_TLS", "TRUE"),
        ("RUSTIBLE_LOGSTASH_BATCH_SIZE", "oops"),
        ("RUSTIBLE_LOGSTASH_INCLUDE_DATA", "no"),
        ("RUSTIBLE_LOGSTASH_ENVIRONMENT", "prod"),
    ]));
    assert_eq!(c.host, "logs.example.com");
    assert_eq!(c.port, 9000);
    assert_eq!(c.protocol, LogstashProtocol::Http);
    assert!(c.use_tls);
    assert_eq!(c.batch_size, 100);
    assert!(!c.include_result_data);
    assert_eq!(c.environment, Some("prod".to_string()));
    let d = LogstashConfig::from_env(&vars(&[("RUSTIBLE_LOGSTASH_PORT", "70000")]));
    assert_eq!(d.port, 5044);
    assert_eq!(d.host, "localhost");
    assert_eq!(d.protocol, LogstashProtocol::Tcp);
}

#[test]
fn logstash_task_event_fields() {
    let mut cb = LogstashCallback::new(LogstashConfig::builder().environment("dev").build());
    cb.on_playbook_start("site.yml", "T0");
    let e = cb.on_play_start("web", 3, "T1");
    assert_eq!(e.message, "Play started: web (3 hosts)");
    assert!(matches!(e.extra.get_ref("host_count"), Some(JsonValue::Number(JsonNumber::PosInt(3)))));
    let r = ExecutionResult {
        host: "h1".to_string(),
        task_name: "Install".to_string(),
        result: ModuleResult {
            success: true,
            changed: true,
            message: "done".to_string(),
            skipped: false,
            data: None,
            warnings: Vec::new(),
        },
        duration: Elapsed::from_millis(5),
        notify: Vec::new(),
    };
    let e = cb.on_task_complete(&r, "T2");
    assert_eq!(e.message, "Task changed: Install on h1");
    assert_eq!(e.level, "info");
    assert_eq!(e.status, Some("changed".to_string()));
    assert_eq!(e.duration, Some(5_000_000));
    assert_eq!(e.playbook, Some("site.yml".to_string()));
    assert_eq!(e.play, Some("web".to_string()));
    assert!(matches!(e.extra.get_ref("task_message"), Some(JsonValue::String(m)) if m == "done"));
    assert!(matches!(e.extra.get_ref("environment"), Some(JsonValue::String(m)) if m == "dev"));
    assert!(cb.on_task_start("Install", "h1", "T3").is_none());
    let e = cb.on_playbook_end("site.yml", false, Some(7), "T4");
    assert_eq!(e.message, "Playbook failed: site.yml");
    assert_eq!(e.outcome, Some("failure".to_string()));
    let e = cb.on_handler_triggered("restart", "T5");
    assert_eq!(e.playbook, None);
}

#[test]
fn logstash_http_batching() {
    let mut cb = LogstashCallback::new(LogstashConfig::builder().protocol(LogstashProtocol::Http).batch_size(2).flush_interval_ms(1000).build());
    assert!(cb.push_event("a".to_string(), 0));
    assert!(cb.push_event("b".to_string(), 10));
    assert_eq!(cb.take_buffer(), Some("a\nb".to_string()));
    assert_eq!(cb.take_buffer(), None);
    assert!(!cb.push_event("c".to_string(), 500));
    assert!(cb.push_event("d".to_string(), 600));
    let mut tcp = LogstashCallback::new(LogstashConfig::default());
    assert!(!tcp.push_event("x".to_string(), 0));
    assert_eq!(tcp.take_buffer(), None);
}
