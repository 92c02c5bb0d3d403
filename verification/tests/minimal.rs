use rustible_callback::plugins::minimal::{HostStats, MinimalCallback};
use rustible_callback::style::Span;
use rustible_callback::types::{Elapsed, ExecutionResult, ModuleResult};

fn create_execution_result(
    host: &str,
    task_name: &str,
    success: bool,
    changed: bool,
    skipped: bool,
    message: &str,
) -> ExecutionResult {
    ExecutionResult {
        host: host.to_string(),
        task_name: task_name.to_string(),
        result: ModuleResult {
            success,
            changed,
            message: message.to_string(),
            skipped,
            data: None,
            warnings: Vec::new(),
        },
        duration: Elapsed::from_millis(100),
        notify: Vec::new(),
    }
}

fn text(line: &[Span]) -> String {
    line.iter().map(|s| s.text.as_str()).collect()
}

#[test]
fn test_minimal_callback_tracks_stats() {
    let mut callback = MinimalCallback::new();
    callback.on_playbook_start("test-playbook");
    callback.on_play_start("test-play", &vec!["host1".to_string(), "host2".to_string()]);
    callback.on_task_complete(&create_execution_result("host1", "task1", true, false, false, "ok"));
    callback.on_task_complete(&create_execution_result("host1", "task2", true, true, false, "changed"));
    callback.on_task_complete(&create_execution_result("host2", "task1", false, false, false, "error occurred"));
    callback.on_task_complete(&create_execution_result("host2", "task2", true, false, true, "skipped"));

    let host1_stats = callback.host_stats("host1").unwrap();
    assert_eq!(host1_stats.ok, 1);
    assert_eq!(host1_stats.changed, 1);
    assert_eq!(host1_stats.failed, 0);
    assert_eq!(host1_stats.skipped, 0);

    let host2_stats = callback.host_stats("host2").unwrap();
    assert_eq!(host2_stats.ok, 0);
    assert_eq!(host2_stats.changed, 0);
    assert_eq!(host2_stats.failed, 1);
    assert_eq!(host2_stats.skipped, 1);

    assert!(callback.has_failures());
}

#[test]
fn test_minimal_callback_no_failures() {
    let mut callback = MinimalCallback::new();
    callback.on_playbook_start("test-playbook");
    callback.on_play_start("test-play", &vec!["host1".to_string()]);
    callback.on_task_complete(&create_execution_result("host1", "task1", true, false, false, "ok"));
    assert!(!callback.has_failures());
}

#[test]
fn minimal_test_unreachable_callback() {
    let mut callback = MinimalCallback::new();
    callback.on_playbook_start("test-playbook");
    callback.on_play_start("test-play", &vec!["host1".to_string()]);
    callback.on_host_unreachable("host1", "gather_facts", "Connection refused");
    assert_eq!(callback.host_stats("host1").unwrap().unreachable, 1);
    assert!(callback.has_failures());
}

#[test]
fn test_format_failure() {
    let output = text(&MinimalCallback::format_failure("host1", "Install nginx", "Package not found"));
    assert!(output.contains("host1"));
    assert!(output.contains("Install nginx"));
    assert!(output.contains("Package not found"));
}

#[test]
fn minimal_test_format_recap_line() {
    let stats = HostStats { ok: 5, changed: 2, failed: 1, skipped: 0, unreachable: 0 };
    let output_plain = text(&MinimalCallback::format_recap_line("webserver1", &stats));
    assert!(output_plain.contains("webserver1"));
    assert!(output_plain.contains("ok=5"));
    assert!(output_plain.contains("changed=2"));
    assert!(output_plain.contains("failed=1"));
}

#[test]
fn minimal_recap_exact_text() {
    let stats = HostStats { ok: 1, changed: 0, failed: 0, skipped: 3, unreachable: 0 };
    assert_eq!(
        text(&MinimalCallback::format_recap_line("h", &stats)),
        "RECAP: h ok=1 changed=0 failed=0 skipped=3 unreachable=0"
    );
}
