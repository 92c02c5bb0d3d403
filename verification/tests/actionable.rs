use rustible_callback::plugins::actionable::{ActionableCallback, ActionableConfig, HostStats};
use rustible_callback::types::{Elapsed, ExecutionResult, ModuleResult};

fn create_execution_result(
    host: &str,
    task_name: &str,
    success: bool,
    changed: bool,
    skipped: bool,
    message: &str,
) -> ExecutionResult {
    ExecutionResult {
        host: host.to_string(),
        task_name: task_name.to_string(),
        result: ModuleResult {
            success,
            changed,
            message: message.to_string(),
            skipped,
            data: None,
            warnings: Vec::new(),
        },
        duration: Elapsed::from_millis(100),
        notify: Vec::new(),
    }
}

#[test]
fn test_actionable_callback_tracks_stats() {
    let mut callback = ActionableCallback::new();
    callback.on_playbook_start("test-playbook");
    callback.on_play_start("test-play", &vec!["host1".to_string(), "host2".to_string()]);

    let ok_result = create_execution_result("host1", "task1", true, false, false, "ok");
    callback.on_task_complete(&ok_result, "0.10");
    let changed_result = create_execution_result("host1", "task2", true, true, false, "changed");
    callback.on_task_complete(&changed_result, "0.10");
    let failed_result = create_execution_result("host2", "task1", false, false, false, "error occurred");
    callback.on_task_complete(&failed_result, "0.10");
    let skipped_result = create_execution_result("host2", "task2", true, false, true, "skipped");
    callback.on_task_complete(&skipped_result, "0.10");

    let host1_stats = callback.host_stats("host1").unwrap();
    assert_eq!(host1_stats.ok, 1);
    assert_eq!(host1_stats.changed, 1);
    assert_eq!(host1_stats.failed, 0);
    assert_eq!(host1_stats.skipped, 0);

    let host2_stats = callback.host_stats("host2").unwrap();
    assert_eq!(host2_stats.ok, 0);
    assert_eq!(host2_stats.changed, 0);
    assert_eq!(host2_stats.failed, 1);
    assert_eq!(host2_stats.skipped, 1);

    assert!(callback.has_actions());
}

#[test]
fn test_actionable_callback_no_actions_when_all_ok() {
    let mut callback = ActionableCallback::new();
    callback.on_playbook_start("test-playbook");
    callback.on_play_start("test-play", &vec!["host1".to_string()]);
    let ok_result = create_execution_result("host1", "task1", true, false, false, "ok");
    callback.on_task_complete(&ok_result, "0.10");
    assert!(!callback.has_actions());
}

#[test]
fn test_actionable_callback_has_actions_on_change() {
    let mut callback = ActionableCallback::new();
    callback.on_playbook_start("test-playbook");
    callback.on_play_start("test-play", &vec!["host1".to_string()]);
    let changed_result = create_execution_result("host1", "task1", true, true, false, "file modified");
    callback.on_task_complete(&changed_result, "0.10");
    assert!(callback.has_actions());
}

#[test]
fn actionable_test_unreachable_callback() {
    let mut callback = ActionableCallback::new();
    callback.on_playbook_start("test-playbook");
    callback.on_play_start("test-play", &vec!["host1".to_string()]);
    callback.on_host_unreachable("host1", "gather_facts", "Connection refused");
    let host1_stats = callback.host_stats("host1").unwrap();
    assert_eq!(host1_stats.unreachable, 1);
    assert!(callback.has_actions());
}

#[test]
fn test_hosts_with_changes() {
    let mut callback = ActionableCallback::new();
    callback.on_playbook_start("test-playbook");
    callback.on_play_start(
        "test-play",
        &vec!["host1".to_string(), "host2".to_string(), "host3".to_string()],
    );
    let changed1 = create_execution_result("host1", "task1", true, true, false, "changed");
    callback.on_task_complete(&changed1, "0.10");
    let ok = create_execution_result("host2", "task1", true, false, false, "ok");
    callback.on_task_complete(&ok, "0.10");
    let changed2 = create_execution_result("host3", "task1", true, true, false, "changed");
    callback.on_task_complete(&changed2, "0.10");
    assert_eq!(callback.hosts_with_changes(), 2);
    assert_eq!(callback.hosts_with_failures(), 0);
}

#[test]
fn test_exit_code() {
    let mut callback = ActionableCallback::new();
    callback.on_playbook_start("test-playbook");
    callback.on_play_start("test-play", &vec!["host1".to_string()]);
    let ok = create_execution_result("host1", "task1", true, false, false, "ok");
    callback.on_task_complete(&ok, "0.10");
    assert_eq!(callback.exit_code(), 0);
    let failed = create_execution_result("host1", "task2", false, false, false, "failed");
    callback.on_task_complete(&failed, "0.10");
    assert_eq!(callback.exit_code(), 1);
}

#[test]
fn test_suggest_action_permission_denied() {
    let suggestion = ActionableCallback::suggest_action("Permission denied: /etc/nginx/nginx.conf");
    assert!(suggestion.is_some());
    assert!(suggestion.unwrap().contains("permission"));
}

#[test]
fn test_suggest_action_file_not_found() {
    let suggestion = ActionableCallback::suggest_action("No such file or directory: /tmp/missing");
    assert!(suggestion.is_some());
    assert!(suggestion.unwrap().contains("file path"));
}

#[test]
fn test_suggest_action_connection_refused() {
    let suggestion = ActionableCallback::suggest_action("Connection refused");
    assert!(suggestion.is_some());
    assert!(suggestion.unwrap().contains("network"));
}

#[test]
fn test_suggest_action_package_error() {
    let suggestion = ActionableCallback::suggest_action("Package nginx-core not found");
    assert!(suggestion.is_some());
    assert!(suggestion.unwrap().contains("package"));
}

#[test]
fn test_suggest_action_command_not_found() {
    let suggestion = ActionableCallback::suggest_action("command not found: docker");
    assert!(suggestion.is_some());
    assert!(suggestion.unwrap().contains("Install"));
}

#[test]
fn test_suggest_action_unknown_error() {
    let suggestion = ActionableCallback::suggest_action("Some random error message");
    assert!(suggestion.is_none());
}

#[test]
fn test_host_stats_has_actions() {
    let mut stats = HostStats::default();
    assert!(!stats.has_actions());

    stats.changed = 1;
    assert!(stats.has_actions());

    stats = HostStats::default();
    stats.failed = 1;
    assert!(stats.has_actions());

    stats = HostStats::default();
    stats.unreachable = 1;
    assert!(stats.has_actions());

    stats = HostStats::default();
    stats.ok = 5;
    stats.skipped = 2;
    assert!(!stats.has_actions());
}

#[test]
fn actionable_test_default_config() {
    let config = ActionableConfig::default();
    assert!(config.show_play_headers);
    assert!(config.show_action_suggestions);
    assert!(config.show_change_summary);
    assert!(!config.show_duration);
    assert!(config.use_colors);
}

#[test]
fn test_minimal_config() {
    let config = ActionableConfig::minimal();
    assert!(!config.show_play_headers);
    assert!(!config.show_action_suggestions);
    assert!(!config.show_change_summary);
    assert!(!config.show_recap);
}

#[test]
fn test_ci_config() {
    let config = ActionableConfig::ci();
    assert!(!config.use_colors);
    assert!(config.show_action_suggestions);
}

#[test]
fn test_verbose_config() {
    let config = ActionableConfig::verbose();
    assert!(config.show_duration);
    assert!(config.show_play_headers);
    assert!(config.show_action_suggestions);
}

#[test]
fn actionable_exit_code_counts_unreachable() {
    let mut callback = ActionableCallback::new();
    callback.on_playbook_start("p");
    callback.on_host_unreachable("h", "t", "down");
    assert_eq!(callback.hosts_with_failures(), 1);
    assert_eq!(callback.exit_code(), 2);
    let failed = create_execution_result("h", "t2", false, false, false, "boom");
    callback.on_task_complete(&failed, "0.10");
    assert_eq!(callback.exit_code(), 3);
}
