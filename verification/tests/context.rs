use rustible_callback::plugins::context::{
    ContextCallback, ContextCallbackBuilder, ContextCallbackConfig, ContextVerbosity, HostStats,
};
use rustible_callback::style::Span;
use rustible_callback::table::HostTable;
use rustible_callback::text::at_boundary;
use rustible_callback::types::{Elapsed, ExecutionResult, JsonNumber, JsonValue, ModuleResult};

fn create_execution_result(
    host: &str,
    task_name: &str,
    success: bool,
    changed: bool,
    skipped: bool,
    message: &str,
) -> ExecutionResult {
    ExecutionResult {
        host: host.to_string(),
        task_name: task_name.to_string(),
        result: ModuleResult {
            success,
            changed,
            message: message.to_string(),
            skipped,
            data: None,
            warnings: Vec::new(),
        },
        duration: Elapsed::from_millis(100),
        notify: Vec::new(),
    }
}

fn text(line: &[Span]) -> String {
    line.iter().map(|s| s.text.as_str()).collect()
}

fn num(n: u64) -> JsonValue {
    JsonValue::Number(JsonNumber::PosInt(n))
}

fn s(v: &str) -> JsonValue {
    JsonValue::String(v.to_string())
}

#[test]
fn test_sensitive_detection() {
    let callback = ContextCallback::new();
    assert!(callback.is_sensitive("password"));
    assert!(callback.is_sensitive("db_password"));
    assert!(callback.is_sensitive("api_key"));
    assert!(callback.is_sensitive("secret_token"));
    assert!(callback.is_sensitive("AWS_SECRET_KEY"));
    assert!(callback.is_sensitive("mysql_PASSWORD"));
    assert!(!callback.is_sensitive("username"));
    assert!(!callback.is_sensitive("hostname"));
    assert!(!callback.is_sensitive("port"));
    assert!(!callback.is_sensitive("enabled"));
}

#[test]
fn test_sensitive_masking_disabled() {
    let callback = ContextCallback::with_config(ContextCallbackConfig { mask_sensitive: false, ..Default::default() });
    assert!(!callback.is_sensitive("password"));
    assert!(!callback.is_sensitive("api_key"));
}

#[test]
fn test_custom_sensitive_patterns() {
    let callback = ContextCallback::with_config(ContextCallbackConfig {
        additional_sensitive_patterns: vec!["my_custom_secret".to_string()],
        ..Default::default()
    });
    assert!(callback.is_sensitive("my_custom_secret"));
    assert!(callback.is_sensitive("MY_CUSTOM_SECRET_VALUE"));
}

#[test]
fn test_value_formatting() {
    let callback = ContextCallback::new();
    assert_eq!(callback.format_value(&JsonValue::Null, 0), "null");
    assert_eq!(callback.format_value(&JsonValue::Bool(true), 0), "true");
    assert_eq!(callback.format_value(&num(42), 0), "42");
    assert_eq!(callback.format_value(&s("hello"), 0), "\"hello\"");
    assert_eq!(callback.format_value(&JsonValue::Array(vec![]), 0), "[]");
    assert_eq!(callback.format_value(&JsonValue::Array(vec![num(1), num(2), num(3)]), 0), "[1, 2, 3]");
    assert_eq!(callback.format_value(&JsonValue::Object(vec![]), 0), "{}");
}

#[test]
fn test_value_masking() {
    let callback = ContextCallback::new();
    let secret = s("super_secret_value");
    assert_eq!(callback.mask_value("password", &secret), "********");
    assert_eq!(callback.mask_value("api_key", &secret), "********");
    let normal = s("normal_value");
    assert_eq!(callback.mask_value("hostname", &normal), "\"normal_value\"");
}

#[test]
fn test_string_truncation() {
    let callback = ContextCallback::with_config(ContextCallbackConfig { max_string_length: 10, ..Default::default() });
    assert_eq!(callback.format_value(&s("short"), 0), "\"short\"");
    let formatted = callback.format_value(&s("this is a very long string that should be truncated"), 0);
    assert!(formatted.contains("..."));
    assert!(formatted.contains("chars"));
}

#[test]
fn test_depth_limiting() {
    let callback = ContextCallback::with_config(ContextCallbackConfig { max_depth: 2, ..Default::default() });
    let deep = JsonValue::Object(vec![(
        "level1".to_string(),
        JsonValue::Object(vec![("level2".to_string(), JsonValue::Object(vec![("level3".to_string(), s("value"))]))]),
    )]);
    let formatted = callback.format_value(&deep, 0);
    assert!(formatted.contains("..."));
    assert!(!formatted.contains("\"value\""));
}

#[test]
fn test_context_callback_stats() {
    let mut callback = ContextCallback::new();
    callback.on_playbook_start("test-playbook");
    callback.on_play_start("test-play", &vec!["host1".to_string(), "host2".to_string()]);
    callback.on_task_complete(&create_execution_result("host1", "task1", true, false, false, "ok"));
    callback.on_task_complete(&create_execution_result("host1", "task2", true, true, false, "changed"));
    callback.on_task_complete(&create_execution_result("host2", "task1", false, false, false, "error occurred"));
    callback.on_task_complete(&create_execution_result("host2", "task2", true, false, true, "skipped"));

    let host1_stats = callback.host_stats("host1").unwrap();
    assert_eq!(host1_stats.ok, 1);
    assert_eq!(host1_stats.changed, 1);
    assert_eq!(host1_stats.failed, 0);
    assert_eq!(host1_stats.skipped, 0);
    let host2_stats = callback.host_stats("host2").unwrap();
    assert_eq!(host2_stats.ok, 0);
    assert_eq!(host2_stats.changed, 0);
    assert_eq!(host2_stats.failed, 1);
    assert_eq!(host2_stats.skipped, 1);
}

#[test]
fn test_facts_gathering() {
    let mut callback = ContextCallback::new();
    callback.on_playbook_start("test-playbook");
    callback.on_play_start("test-play", &vec!["host1".to_string()]);
    let mut facts = HostTable::new();
    facts.set("os_family", s("Debian"));
    facts.set("distribution", s("Ubuntu"));
    callback.on_facts_gathered("host1", &facts);
    assert!(callback.has_fact("host1", "os_family"));
    assert!(callback.has_fact("host1", "distribution"));
}

#[test]
fn context_test_builder_pattern() {
    let callback = ContextCallbackBuilder::new()
        .verbosity(ContextVerbosity::Verbose)
        .show_facts(true)
        .show_registered(true)
        .mask_sensitive(true)
        .sensitive_pattern("custom_secret")
        .max_depth(5)
        .max_string_length(100)
        .show_empty(false)
        .build();

    assert_eq!(callback.config().verbosity, ContextVerbosity::Verbose);
    assert!(callback.config().show_facts);
    assert!(callback.config().show_registered);
    assert!(callback.config().mask_sensitive);
    assert_eq!(callback.config().max_depth, 5);
    assert_eq!(callback.config().max_string_length, 100);
    assert!(!callback.config().show_empty);
    assert!(callback.is_sensitive("custom_secret"));
}

#[test]
fn test_preset_constructors() {
    let minimal = ContextCallback::minimal();
    assert_eq!(minimal.config().verbosity, ContextVerbosity::Minimal);
    assert!(!minimal.config().show_facts);
    assert!(!minimal.config().show_registered);

    let verbose = ContextCallback::verbose();
    assert_eq!(verbose.config().verbosity, ContextVerbosity::Verbose);
    assert!(verbose.config().show_facts);
    assert!(verbose.config().show_registered);

    let debug = ContextCallback::debug();
    assert_eq!(debug.config().verbosity, ContextVerbosity::Debug);
    assert_eq!(debug.config().max_depth, 8);
    assert_eq!(debug.config().max_string_length, 500);
}

#[test]
fn test_format_task_header() {
    let header = text(&ContextCallback::format_task_header("Install nginx"));
    assert!(header.contains("TASK"));
    assert!(header.contains("Install nginx"));
}

#[test]
fn context_test_format_recap_line() {
    let stats = HostStats { ok: 5, changed: 2, failed: 1, skipped: 0 };
    let output_plain = text(&ContextCallback::format_recap_line("webserver1", &stats));
    assert!(output_plain.contains("webserver1"));
    assert!(output_plain.contains("ok=5"));
    assert!(output_plain.contains("changed=2"));
    assert!(output_plain.contains("failed=1"));
}

#[test]
fn context_masks_sensitive_object_entries() {
    let callback = ContextCallback::new();
    let v = JsonValue::Object(vec![("password".to_string(), s("x")), ("user".to_string(), s("bob"))]);
    let out = callback.format_value(&v, 0);
    assert!(out.contains("********"));
    assert!(out.contains("bob"));
    assert!(!out.contains("\"x\""));
}

#[test]
fn context_can_show_value_cut_inside_character() {
    let callback = ContextCallback::with_config(ContextCallbackConfig { max_string_length: 2, ..Default::default() });
    // "aé..." has its third byte inside 'é'.
    assert!(!callback.can_show_value(&s("aéxyz"), 0));
    assert!(callback.can_show_value(&s("abé"), 0));
    assert!(callback.can_show_value(&s("é"), 0));
    assert_eq!(callback.format_value(&s("abé"), 0), "\"ab...\" (4 chars)");
}

#[test]
fn context_can_start_task_checks_shown_facts() {
    let mut callback = ContextCallback::with_config(ContextCallbackConfig {
        max_string_length: 2,
        verbosity: ContextVerbosity::Normal,
        ..Default::default()
    });
    callback.on_playbook_start("p");
    assert!(callback.can_start_task("host1"));
    let mut good = HostTable::new();
    good.set("ansible_hostname", s("abcd"));
    callback.on_facts_gathered("host1", &good);
    assert!(callback.can_start_task("host1"));
    let lines = callback.on_task_start("t", "host1");
    assert!(lines.iter().any(|l| text(l).contains("\"ab...\" (4 chars)")));

    let mut bad = HostTable::new();
    bad.set("ansible_hostname", s("aéxyz"));
    callback.on_facts_gathered("host2", &bad);
    assert!(!callback.can_start_task("host2"));

    // Network facts are not shown at Normal, so they are not cut.
    let mut net = HostTable::new();
    net.set("ansible_default_ipv4", s("aéxyz"));
    callback.on_facts_gathered("host3", &net);
    assert!(callback.can_start_task("host3"));
    let lines = callback.on_task_start("t", "host3");
    assert!(!lines.iter().any(|l| text(l).contains("default_ipv4")));

    let mut quiet = ContextCallback::with_config(ContextCallbackConfig {
        max_string_length: 2,
        verbosity: ContextVerbosity::Minimal,
        ..Default::default()
    });
    quiet.on_facts_gathered("host2", &bad);
    assert!(quiet.can_start_task("host2"));
}

#[test]
fn text_at_boundary_between_characters() {
    assert!(at_boundary("", 0));
    assert!(at_boundary("aé", 0));
    assert!(at_boundary("aé", 1));
    assert!(!at_boundary("aé", 2));
    assert!(at_boundary("aé", 3));
    assert!(!at_boundary("aé", 4));
}
