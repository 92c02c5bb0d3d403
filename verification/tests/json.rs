use rustible_callback::plugins::json::{facts_payload, HostStats, JsonCallbackBuilder, JsonStats, OutputTarget, TaskResultJson};
use rustible_callback::table::HostTable;
use rustible_callback::types::{JsonValue, ModuleResult};

fn module(success: bool, changed: bool, skipped: bool, message: &str) -> ModuleResult {
    ModuleResult { success, changed, message: message.to_string(), skipped, data: None, warnings: Vec::new() }
}

#[test]
fn test_json_callback_tracks_stats() {
    let mut stats = JsonStats::new();
    stats.record_task_result("host1", &module(true, false, false, "ok"));
    stats.record_task_result("host1", &module(true, true, false, "changed"));
    stats.record_task_result("host2", &module(false, false, false, "error"));
    stats.record_task_result("host2", &module(true, false, true, "skipped"));

    let host1 = stats.host_stats("host1").unwrap();
    assert_eq!(host1.ok, 1);
    assert_eq!(host1.changed, 1);
    assert_eq!(host1.failed, 0);
    let host2 = stats.host_stats("host2").unwrap();
    assert_eq!(host2.failed, 1);
    assert_eq!(host2.skipped, 1);
    assert!(stats.has_failures());
}

#[test]
fn test_json_callback_no_failures() {
    let mut stats = JsonStats::new();
    stats.record_task_result("host1", &module(true, false, false, "ok"));
    assert!(!stats.has_failures());
}

#[test]
fn test_task_result_json_from_module_result() {
    let module_result = ModuleResult {
        success: true,
        changed: true,
        message: "Package installed".to_string(),
        skipped: false,
        data: Some(JsonValue::Object(vec![("version".to_string(), JsonValue::String("1.0".to_string()))])),
        warnings: vec!["Deprecated feature".to_string()],
    };

    let task_result = TaskResultJson::from_result(&module_result);

    assert!(task_result.success);
    assert!(task_result.changed);
    assert_eq!(task_result.msg, Some("Package installed".to_string()));
    assert!(!task_result.skipped);
    assert!(task_result.data.is_some());
    assert_eq!(task_result.warnings.len(), 1);
}

#[test]
fn test_host_stats_has_failures() {
    let mut stats = HostStats::default();
    assert!(!stats.has_failures());

    stats.failed = 1;
    assert!(stats.has_failures());

    stats.failed = 0;
    stats.unreachable = 1;
    assert!(stats.has_failures());
}

#[test]
fn test_builder_default() {
    let settings = JsonCallbackBuilder::new().build();
    assert!(!settings.pretty);
    assert_eq!(settings.verbosity, 0);
}

#[test]
fn test_builder_pretty() {
    let settings = JsonCallbackBuilder::new().pretty(true).build();
    assert!(settings.pretty);
}

#[test]
fn test_builder_verbosity() {
    let settings = JsonCallbackBuilder::new().verbosity(2).build();
    assert_eq!(settings.verbosity, 2);
}

#[test]
fn json_builder_output_file() {
    let settings = JsonCallbackBuilder::new().output_file("out.jsonl").build();
    assert!(matches!(settings.output, OutputTarget::File(ref p) if p == "out.jsonl"));
}

#[test]
fn json_empty_message_has_no_msg() {
    let r = TaskResultJson::from_result(&module(true, false, false, ""));
    assert_eq!(r.msg, None);
}

#[test]
fn json_facts_only_from_verbosity_two() {
    let mut facts = HostTable::new();
    facts.set("os", JsonValue::String("linux".to_string()));
    let quiet = JsonCallbackBuilder::new().verbosity(1).build();
    assert!(facts_payload(&quiet, &facts).is_none());
    let loud = JsonCallbackBuilder::new().verbosity(2).build();
    match facts_payload(&loud, &facts) {
        Some(JsonValue::Object(es)) => {
            assert_eq!(es.len(), 1);
            assert_eq!(es[0].0, "os");
            assert!(matches!(&es[0].1, JsonValue::String(t) if t == "linux"));
        },
        other => panic!("unexpected payload {:?}", other),
    }
}
