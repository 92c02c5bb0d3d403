use rustible_callback::plugins::debug::{format_duration, mask_value, DebugCallback, DebugConfig, MASKED_VALUE};
use rustible_callback::style::Span;
use rustible_callback::table::HostTable;
use rustible_callback::types::{Elapsed, ExecutionResult, JsonValue, ModuleResult};

fn create_execution_result(
    host: &str,
    task_name: &str,
    success: bool,
    changed: bool,
    skipped: bool,
    message: &str,
) -> ExecutionResult {
    ExecutionResult {
        host: host.to_string(),
        task_name: task_name.to_string(),
        result: ModuleResult {
            success,
            changed,
            message: message.to_string(),
            skipped,
            data: None,
            warnings: Vec::new(),
        },
        duration: Elapsed::from_millis(100),
        notify: Vec::new(),
    }
}

fn s(v: &str) -> JsonValue {
    JsonValue::String(v.to_string())
}

fn get<'a>(v: &'a JsonValue, key: &str) -> &'a JsonValue {
    match v {
        JsonValue::Object(es) => &es.iter().find(|(k, _)| k == key).unwrap().1,
        _ => panic!("not an object"),
    }
}

#[test]
fn test_mask_value() {
    let data = JsonValue::Object(vec![
        ("username".to_string(), s("admin")),
        ("password".to_string(), s("secret123")),
        ("api_key".to_string(), s("abc123")),
        (
            "config".to_string(),
            JsonValue::Object(vec![("host".to_string(), s("localhost")), ("db_password".to_string(), s("dbpass"))]),
        ),
    ]);

    let masked = mask_value(&data);

    assert_eq!(get(&masked, "username").as_str(), Some("admin"));
    assert_eq!(get(&masked, "password").as_str(), Some(MASKED_VALUE));
    assert_eq!(get(&masked, "api_key").as_str(), Some(MASKED_VALUE));
    assert_eq!(get(get(&masked, "config"), "host").as_str(), Some("localhost"));
    assert_eq!(get(get(&masked, "config"), "db_password").as_str(), Some(MASKED_VALUE));
}

#[test]
fn debug_test_format_duration() {
    assert_eq!(format_duration(&Elapsed::from_millis(500)), "500ms");
    assert_eq!(format_duration(&Elapsed::from_secs(5)), "5.000s");
    assert_eq!(format_duration(&Elapsed::from_secs(65)), "1m 05s");
    assert_eq!(format_duration(&Elapsed::from_secs(3665)), "1h 01m 05s");
}

#[test]
fn test_debug_config_builder() {
    let config = DebugConfig::new()
        .with_verbosity(3)
        .with_mask_sensitive(false)
        .with_timestamps(true)
        .with_task_args(true)
        .with_all_facts(true);

    assert_eq!(config.verbosity, 3);
    assert!(!config.mask_sensitive);
    assert!(config.show_timestamps);
    assert!(config.show_task_args);
    assert!(config.show_all_facts);
}

#[test]
fn test_verbosity_capped() {
    let config = DebugConfig::new().with_verbosity(10);
    assert_eq!(config.verbosity, 5);
}

#[test]
fn test_debug_callback_tracks_stats() {
    let mut callback = DebugCallback::with_verbosity(0);
    callback.on_playbook_start("test-playbook", "2024-01-01 00:00:00");
    callback.on_play_start("test-play", &vec!["host1".to_string(), "host2".to_string()]);
    let results = vec![
        create_execution_result("host1", "task1", true, false, false, "ok"),
        create_execution_result("host1", "task2", true, true, false, "changed"),
        create_execution_result("host2", "task1", false, false, false, "error occurred"),
        create_execution_result("host2", "task2", true, false, true, "skipped"),
    ];
    for r in &results {
        callback.on_task_complete(r, None);
    }

    let host1_stats = callback.host_stats("host1").unwrap();
    assert_eq!(host1_stats.ok, 1);
    assert_eq!(host1_stats.changed, 1);
    assert_eq!(host1_stats.failed, 0);
    assert_eq!(host1_stats.skipped, 0);

    let host2_stats = callback.host_stats("host2").unwrap();
    assert_eq!(host2_stats.ok, 0);
    assert_eq!(host2_stats.changed, 0);
    assert_eq!(host2_stats.failed, 1);
    assert_eq!(host2_stats.skipped, 1);

    assert!(callback.has_failures());
}

#[test]
fn test_debug_callback_no_failures() {
    let mut callback = DebugCallback::with_verbosity(0);
    callback.on_playbook_start("test-playbook", "2024-01-01 00:00:00");
    callback.on_play_start("test-play", &vec!["host1".to_string()]);
    let ok_result = create_execution_result("host1", "task1", true, false, false, "ok");
    callback.on_task_complete(&ok_result, None);
    assert!(!callback.has_failures());
}

#[test]
fn test_verbosity_levels() {
    let mut callback = DebugCallback::new();
    assert_eq!(callback.verbosity(), 5);
    callback.set_verbosity(3);
    assert_eq!(callback.verbosity(), 3);
    callback.set_verbosity(10);
    assert_eq!(callback.verbosity(), 5);
}

#[test]
fn debug_mask_keeps_non_sensitive_arrays() {
    let data = JsonValue::Array(vec![JsonValue::Object(vec![("token".to_string(), s("x"))]), s("plain")]);
    match mask_value(&data) {
        JsonValue::Array(items) => {
            assert_eq!(get(&items[0], "token").as_str(), Some(MASKED_VALUE));
            assert_eq!(items[1].as_str(), Some("plain"));
        },
        _ => panic!("expected an array"),
    }
}

fn text_of(line: &[Span]) -> String {
    line.iter().map(|sp| sp.text.as_str()).collect()
}

#[test]
fn test_set_variables() {
    let mut callback = DebugCallback::new();
    let mut vars = HostTable::new();
    vars.set("test_var", s("test_value"));
    callback.set_variables(vars);
    assert!(callback.variables().contains("test_var"));
}

#[test]
fn debug_test_default_trait() {
    let callback = DebugCallback::default();
    let config = callback.config();
    let expected = DebugConfig::default();
    assert_eq!(config.verbosity, expected.verbosity);
    assert_eq!(config.mask_sensitive, expected.mask_sensitive);
    assert_eq!(config.show_timestamps, expected.show_timestamps);
    assert_eq!(config.show_task_args, expected.show_task_args);
    assert_eq!(config.show_all_facts, expected.show_all_facts);
    assert_eq!(config.custom_sensitive_patterns, expected.custom_sensitive_patterns);
}

#[test]
fn debug_displayed_value_masks_only_when_asked() {
    let data = JsonValue::Object(vec![("user".to_string(), s("admin")), ("password".to_string(), s("secret"))]);
    let masking = DebugCallback::new();
    let shown = masking.displayed_value(&data);
    assert_eq!(get(&shown, "user").as_str(), Some("admin"));
    assert_eq!(get(&shown, "password").as_str(), Some(MASKED_VALUE));
    let plain = DebugCallback::with_config(DebugConfig::new().with_mask_sensitive(false));
    let shown = plain.displayed_value(&data);
    assert_eq!(get(&shown, "password").as_str(), Some("secret"));
}

#[test]
fn debug_play_start_shows_variables_at_verbosity_four() {
    let mut callback = DebugCallback::with_verbosity(4);
    let mut vars = HostTable::new();
    vars.set(
        "app",
        JsonValue::Object(vec![
            ("port".to_string(), JsonValue::Number(rustible_callback::types::JsonNumber::PosInt(80))),
            ("db_password".to_string(), s("hunter2")),
        ]),
    );
    callback.set_variables(vars);
    let out = callback.on_play_start("web", &vec!["h1".to_string()]);
    let texts: Vec<String> = out.iter().map(|l| text_of(l)).collect();
    assert!(texts.contains(&"  Variables:".to_string()));
    let line = texts.iter().find(|t| t.starts_with("    app: {\n")).expect("the variable line");
    assert!(line.contains("\n        \"db_password\": \"********\""));
    assert!(line.contains("\n        \"port\": 80"));
    assert!(line.ends_with("\n      }"));
    let mut quiet = DebugCallback::with_verbosity(3);
    let out = quiet.on_play_start("web", &vec!["h1".to_string()]);
    assert!(!out.iter().any(|l| text_of(l) == "  Variables:"));
}

#[test]
fn debug_facts_gathered_lines() {
    let mut facts = HostTable::new();
    facts.set("os_family", s("Debian"));
    facts.set("kernel", s("6.1"));
    facts.set("user", s("root"));
    let callback = DebugCallback::with_verbosity(4);
    let out = callback.on_facts_gathered("web1", &facts);
    let texts: Vec<String> = out.iter().map(|l| text_of(l)).collect();
    assert_eq!(texts[1], format!("GATHERING FACTS [web1] {}", "*".repeat(55)));
    assert_eq!(texts[3], "  Facts gathered: 3 items");
    assert_eq!(texts[4], "  Key Facts:");
    assert_eq!(texts[5], "    os_family: \"Debian\"");
    assert_eq!(texts[6], "    user: \"root\"");
    assert_eq!(texts[7], "");
    assert_eq!(texts.len(), 8);
    let quiet = DebugCallback::with_verbosity(2);
    assert!(quiet.on_facts_gathered("web1", &facts).is_empty());
}

#[test]
fn debug_task_start_shows_masked_arguments() {
    let mut callback = DebugCallback::with_verbosity(3);
    let mut args = HostTable::new();
    args.set("token", s("abc"));
    callback.set_task_args(args);
    let out = callback.on_task_start("t", "h");
    let texts: Vec<String> = out.iter().map(|l| text_of(l)).collect();
    assert!(texts.contains(&"  Arguments:".to_string()));
    assert!(texts.contains(&"      \"token\": \"********\"".to_string()));
}
