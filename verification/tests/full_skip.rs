use rustible_callback::plugins::full_skip::{
    parse_skip_reason, FullSkipCallback, FullSkipConfig, SkippedTask,
};
use rustible_callback::style::Span;
use rustible_callback::types::{Elapsed, ExecutionResult, ModuleResult};

fn create_execution_result(host: &str, task_name: &str, skipped: bool, message: &str) -> ExecutionResult {
    ExecutionResult {
        host: host.to_string(),
        task_name: task_name.to_string(),
        result: ModuleResult {
            success: true,
            changed: false,
            message: message.to_string(),
            skipped,
            data: None,
            warnings: Vec::new(),
        },
        duration: Elapsed::from_millis(10),
        notify: Vec::new(),
    }
}

fn text(line: &[Span]) -> String {
    line.iter().map(|s| s.text.as_str()).collect()
}

#[test]
fn test_full_skip_callback_creation() {
    let callback = FullSkipCallback::new();
    assert!(callback.config().show_inline);
    assert!(callback.config().show_summary);
    assert_eq!(callback.skip_count(), 0);
}

#[test]
fn test_skip_tracking() {
    let mut callback = FullSkipCallback::new();
    callback.on_playbook_start("test-playbook");
    callback.on_play_start("test-play", &vec!["host1".to_string()]);
    let result = create_execution_result(
        "host1",
        "Install nginx",
        true,
        "Skipped: condition 'ansible_os_family == \"Debian\"' was false",
    );
    callback.on_task_complete(&result, Elapsed::zero());

    assert_eq!(callback.skip_count(), 1);
    assert_eq!(callback.total_count(), 1);

    let skipped = callback.get_skipped_tasks();
    assert_eq!(skipped[0].task_name, "Install nginx");
    assert_eq!(skipped[0].host, "host1");
    assert!(skipped[0].when_condition.is_some());
}

#[test]
fn test_skip_patterns() {
    let mut callback = FullSkipCallback::new();
    callback.on_playbook_start("test-playbook");
    callback.on_play_start("test-play", &vec!["host1".to_string(), "host2".to_string(), "host3".to_string()]);
    for host in ["host1", "host2", "host3"] {
        let result =
            create_execution_result(host, "Install nginx", true, "Skipped: condition 'nginx_enabled' was false");
        callback.on_task_complete(&result, Elapsed::zero());
    }
    let patterns = callback.get_skip_patterns();
    assert_eq!(patterns.len(), 1);
    assert_eq!(patterns[0].count, 3);
    assert!(patterns[0].condition.contains("nginx_enabled"));
}

#[test]
fn test_non_skipped_tasks_not_tracked() {
    let mut callback = FullSkipCallback::new();
    callback.on_playbook_start("test-playbook");
    callback.on_play_start("test-play", &vec!["host1".to_string()]);
    let result = create_execution_result("host1", "Install nginx", false, "Package installed successfully");
    callback.on_task_complete(&result, Elapsed::zero());
    assert_eq!(callback.skip_count(), 0);
    assert_eq!(callback.total_count(), 1);
}

#[test]
fn test_skip_percentage() {
    let mut callback = FullSkipCallback::new();
    callback.on_playbook_start("test-playbook");
    callback.on_play_start("test-play", &vec!["host1".to_string()]);
    for _ in 0..2 {
        callback.on_task_complete(&create_execution_result("host1", "Normal task", false, "OK"), Elapsed::zero());
    }
    for _ in 0..2 {
        callback.on_task_complete(&create_execution_result(
            "host1",
            "Skipped task",
            true,
            "Skipped: condition 'false' was false",
        ), Elapsed::zero());
    }
    assert_eq!(callback.total_count(), 4);
    assert_eq!(callback.skip_count(), 2);
    let pct = callback.skip_count() as f64 / callback.total_count() as f64 * 100.0;
    assert!((pct - 50.0).abs() < 0.01);
}

#[test]
fn test_affected_hosts() {
    let mut callback = FullSkipCallback::new();
    callback.on_playbook_start("test-playbook");
    callback.on_play_start("test-play", &vec!["host1".to_string(), "host2".to_string(), "host3".to_string()]);
    callback.on_task_complete(&create_execution_result("host1", "Task", true, "Skipped: condition 'X' was false"), Elapsed::zero());
    callback.on_task_complete(&create_execution_result("host2", "Task", true, "Skipped: condition 'X' was false"), Elapsed::zero());
    callback.on_task_complete(&create_execution_result("host3", "Task", false, "OK"), Elapsed::zero());

    let affected = callback.get_affected_hosts();
    assert_eq!(affected.len(), 2);
    assert!(affected.contains(&"host1".to_string()));
    assert!(affected.contains(&"host2".to_string()));
}

#[test]
fn test_parse_skip_reason() {
    let (cond, reason) = parse_skip_reason("Skipped: condition 'ansible_os_family == \"Debian\"' was false");
    assert!(cond.is_some());
    assert!(cond.unwrap().contains("ansible_os_family"));
    assert!(reason.contains("evaluated to false"));

    let (cond2, reason2) = parse_skip_reason("Skipped: some other reason");
    assert!(cond2.is_none());
    assert_eq!(reason2, "some other reason");
}

#[test]
fn test_reset() {
    let mut callback = FullSkipCallback::new();
    callback.on_playbook_start("test-playbook");
    callback.on_play_start("test-play", &vec!["host1".to_string()]);
    callback.on_task_complete(&create_execution_result("host1", "Task", true, "Skipped: condition 'X' was false"), Elapsed::zero());
    assert_eq!(callback.skip_count(), 1);
    callback.reset();
    assert_eq!(callback.skip_count(), 0);
    assert_eq!(callback.total_count(), 0);
}

#[test]
fn test_skipped_task_builder() {
    let task = SkippedTask::new(
        "Install nginx".to_string(),
        "host1".to_string(),
        "Condition was false".to_string(),
        0,
        Elapsed::from_millis(5),
    )
    .with_condition("ansible_os_family == 'Debian'".to_string())
    .with_variable("ansible_os_family".to_string(), "RedHat".to_string());

    assert_eq!(task.task_name, "Install nginx");
    assert_eq!(task.timestamp, Some(Elapsed::from_millis(5)));
    assert!(task.when_condition.is_some());
    assert_eq!(task.variable_context.len(), 1);
}

#[test]
fn test_extract_condition() {
    let task = SkippedTask::new(
        "Task".to_string(),
        "host".to_string(),
        "Skipped: condition 'my_var == true' was false".to_string(),
        0,
        Elapsed::zero(),
    );

    let condition = task.extract_condition();
    assert!(condition.contains("my_var"));

    let task_with_condition = task.with_condition("explicit_condition".to_string());
    assert_eq!(task_with_condition.extract_condition(), "explicit_condition");
}

#[test]
fn test_config_defaults() {
    let config = FullSkipConfig::default();
    assert!(config.show_variable_values);
    assert!(config.show_inline);
    assert!(config.show_summary);
    assert!(config.group_by_condition);
    assert_eq!(config.max_hosts_per_condition, 5);
    assert!(config.show_condition_expression);
    assert_eq!(config.verbosity, 1);
}

#[test]
fn test_host_skip_stats() {
    let mut callback = FullSkipCallback::new();
    callback.on_playbook_start("test-playbook");
    callback.on_play_start("test-play", &vec!["host1".to_string()]);
    callback.on_task_complete(&create_execution_result("host1", "Task1", true, "Skipped: condition 'X' was false"), Elapsed::zero());
    callback.on_task_complete(&create_execution_result("host1", "Task2", false, "OK"), Elapsed::zero());
    callback.on_task_complete(&create_execution_result("host1", "Task3", false, "OK"), Elapsed::zero());

    let host_stats = callback.host_stats("host1").unwrap();
    assert_eq!(host_stats.total_tasks, 3);
    assert_eq!(host_stats.skipped_tasks, 1);
    assert_eq!(host_stats.skip_conditions.get("X"), Some(1));
}

#[test]
fn full_skip_patterns_sorted_by_count() {
    let mut callback = FullSkipCallback::new();
    callback.on_playbook_start("p");
    callback.on_task_complete(&create_execution_result("h1", "A", true, "Skipped: condition 'a' was false"), Elapsed::zero());
    callback.on_task_complete(&create_execution_result("h1", "B", true, "Skipped: condition 'b' was false"), Elapsed::zero());
    callback.on_task_complete(&create_execution_result("h2", "B", true, "Skipped: condition 'b' was false"), Elapsed::zero());
    callback.on_task_complete(&create_execution_result("h3", "C", true, "no reason given"), Elapsed::zero());
    let patterns = callback.get_skip_patterns();
    assert_eq!(patterns.len(), 3);
    assert_eq!(patterns[0].condition, "b");
    assert_eq!(patterns[0].count, 2);
    assert_eq!(patterns[0].tasks, vec![("B".to_string(), "h1".to_string()), ("B".to_string(), "h2".to_string())]);
    assert_eq!(patterns[1].condition, "a");
    assert_eq!(patterns[2].condition, "no reason given");
}

#[test]
fn full_skip_inline_and_summary_lines() {
    let mut callback = FullSkipCallback::new();
    callback.on_playbook_start("p");
    let lines = callback.on_task_complete(&create_execution_result("web1", "Install", true, "Skipped: condition 'x' was false"), Elapsed::zero());
    assert_eq!(text(&lines[0]), "SKIPPED: web1 | Install");
    assert_eq!(text(&lines[1]), "  Condition: x");
    assert_eq!(text(&lines[2]), "  Reason: Condition 'x' evaluated to false");
    let summary = callback.on_playbook_end("p", true, "100.0");
    let all: Vec<String> = summary.iter().map(|l| text(l)).collect();
    assert!(all.contains(&"Total skipped: 1 tasks across 1 hosts (100.0% of 1 total tasks)".to_string()));
    assert!(all.contains(&"  x (1 occurrence)".to_string()));
    assert!(all.contains(&"    - Install (web1)".to_string()));
}

#[test]
fn full_skip_summary_counts_extra_hosts() {
    let config = FullSkipConfig { max_hosts_per_condition: 2, show_inline: false, ..FullSkipConfig::default() };
    let mut callback = FullSkipCallback::with_config(config);
    callback.on_playbook_start("p");
    for h in ["a", "b", "c", "d"] {
        let lines = callback.on_task_complete(&create_execution_result(h, "T", true, "Skipped: condition 'z' was false"), Elapsed::zero());
        assert!(lines.is_empty());
    }
    let summary = callback.summary_lines("100.0");
    let all: Vec<String> = summary.iter().map(|l| text(l)).collect();
    assert!(all.contains(&"    - T (a, b +2 more)".to_string()));
    assert!(all.contains(&"  z (4 occurrences)".to_string()));
}

#[test]
fn full_skip_per_host_rows() {
    let mut callback = FullSkipCallback::new();
    callback.on_playbook_start("p");
    callback.on_play_start("play", &vec!["a".to_string(), "b".to_string(), "c".to_string()]);
    callback.on_task_complete(&create_execution_result("b", "T", true, "Skipped: condition 'z' was false"), Elapsed::zero());
    callback.on_task_complete(&create_execution_result("b", "U", true, "Skipped: condition 'z' was false"), Elapsed::zero());
    callback.on_task_complete(&create_execution_result("c", "T", true, "Skipped: condition 'z' was false"), Elapsed::zero());
    callback.on_task_complete(&create_execution_result("a", "T", false, "ok"), Elapsed::zero());
    let rows = callback.per_host_rows();
    assert_eq!(rows, vec![("b".to_string(), 2, 2), ("c".to_string(), 1, 1)]);
}
