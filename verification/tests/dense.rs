use rustible_callback::plugins::dense::{
    compress_host_ranges, extract_host_prefix_and_number, format_host_list, format_hosts, number_width,
    DenseCallback, DenseConfig, ResultCategory,
};
use rustible_callback::types::{Elapsed, ExecutionResult, ModuleResult};

fn create_execution_result(
    host: &str,
    task_name: &str,
    success: bool,
    changed: bool,
    skipped: bool,
    message: &str,
) -> ExecutionResult {
    ExecutionResult {
        host: host.to_string(),
        task_name: task_name.to_string(),
        result: ModuleResult {
            success,
            changed,
            message: message.to_string(),
            skipped,
            data: None,
            warnings: Vec::new(),
        },
        duration: Elapsed::from_millis(100),
        notify: Vec::new(),
    }
}

#[test]
fn test_dense_callback_name() {
    let callback = DenseCallback::new();
    assert!(callback.config().use_colors);
}

#[test]
fn test_extract_host_prefix_and_number() {
    assert_eq!(extract_host_prefix_and_number("web01"), Some(("web".to_string(), 1)));
    assert_eq!(extract_host_prefix_and_number("server123"), Some(("server".to_string(), 123)));
    assert_eq!(extract_host_prefix_and_number("db-node-05"), Some(("db-node-".to_string(), 5)));
    assert_eq!(extract_host_prefix_and_number("localhost"), None);
    assert_eq!(extract_host_prefix_and_number("01"), None);
}

#[test]
fn test_compress_host_ranges() {
    let hosts = vec![
        "web01".to_string(),
        "web02".to_string(),
        "web03".to_string(),
        "web04".to_string(),
        "web05".to_string(),
    ];
    let compressed = compress_host_ranges(&hosts);
    assert_eq!(compressed.len(), 1);
    assert!(compressed[0].contains("[01:05]"));

    let hosts = vec![
        "web01".to_string(),
        "web02".to_string(),
        "web03".to_string(),
        "db01".to_string(),
        "db02".to_string(),
    ];
    let compressed = compress_host_ranges(&hosts);
    assert!(compressed.iter().any(|h| h.contains("web[01:03]")));

    let hosts = vec!["web01".to_string(), "web03".to_string(), "web05".to_string()];
    let compressed = compress_host_ranges(&hosts);
    assert_eq!(compressed.len(), 3);
}

#[test]
fn test_format_hosts_count_threshold() {
    let config = DenseConfig::new().with_host_count_threshold(5);

    let hosts = vec!["alpha".to_string(), "beta".to_string(), "gamma".to_string()];
    let formatted = format_hosts(&config, &hosts);
    assert!(formatted.contains("alpha"), "Expected 'alpha' in output but got: {}", formatted);
    assert!(!formatted.contains("hosts)"));

    let hosts: Vec<String> = (1..=10).map(|i| format!("node-{}", i * 3)).collect();
    let formatted = format_hosts(&config, &hosts);
    assert!(formatted.contains("10 hosts"), "Expected '(10 hosts)' but got: {}", formatted);
}

#[test]
fn test_result_category_from_execution_result() {
    let ok_result = create_execution_result("test", "task", true, false, false, "ok");
    assert_eq!(ResultCategory::from_execution_result(&ok_result), ResultCategory::Succeeded);

    let changed_result = create_execution_result("test", "task", true, true, false, "changed");
    assert_eq!(ResultCategory::from_execution_result(&changed_result), ResultCategory::Changed);

    let failed_result = create_execution_result("test", "task", false, false, false, "error");
    assert_eq!(ResultCategory::from_execution_result(&failed_result), ResultCategory::Failed);

    let skipped_result = create_execution_result("test", "task", true, false, true, "skipped");
    assert_eq!(ResultCategory::from_execution_result(&skipped_result), ResultCategory::Skipped);
}

#[test]
fn test_category_display_order() {
    assert!(ResultCategory::Failed.display_order() < ResultCategory::Succeeded.display_order());
    assert!(ResultCategory::Unreachable.display_order() < ResultCategory::Changed.display_order());
}

#[test]
fn test_number_width() {
    assert_eq!(number_width("web01"), 2);
    assert_eq!(number_width("server123"), 3);
    assert_eq!(number_width("localhost"), 0);
}

#[test]
fn test_format_host_list() {
    let hosts = vec!["h1".to_string(), "h2".to_string(), "h3".to_string()];
    let formatted = format_host_list(&hosts, 6);
    assert_eq!(formatted, "h1, h2, h3");

    let formatted = format_host_list(&hosts, 2);
    assert!(formatted.contains("\n"));
}

#[test]
fn dense_test_config_builder() {
    let config = DenseConfig::new()
        .with_max_hosts_per_line(10)
        .with_host_count_threshold(20)
        .with_colors(false)
        .with_verbosity(2);

    assert_eq!(config.max_hosts_per_line, 10);
    assert_eq!(config.host_count_threshold, 20);
    assert!(!config.use_colors);
    assert_eq!(config.verbosity, 2);
}

#[test]
fn dense_test_default_trait() {
    let callback = DenseCallback::default();
    assert!(callback.config().use_colors);
}

#[test]
fn test_task_accumulation() {
    let mut callback = DenseCallback::with_config(DenseConfig::new().with_colors(false));
    callback.on_playbook_start("test");
    callback.on_play_start("test-play", &vec!["host1".to_string(), "host2".to_string()]);
    callback.on_task_start("Install nginx", "host1");
    callback.on_task_complete(&create_execution_result("host1", "Install nginx", true, false, false, "ok"));
    callback.on_task_complete(&create_execution_result("host2", "Install nginx", true, true, false, "changed"));
    assert!(callback.has_pending(ResultCategory::Succeeded));
    assert!(callback.has_pending(ResultCategory::Changed));
    assert!(!callback.has_pending(ResultCategory::Failed));
}

#[test]
fn dense_test_host_stats_tracking() {
    let mut callback = DenseCallback::with_config(DenseConfig::new().with_colors(false));
    callback.on_playbook_start("test");
    callback.on_play_start("test-play", &vec!["host1".to_string()]);
    callback.on_task_start("task1", "host1");
    callback.on_task_complete(&create_execution_result("host1", "task1", true, false, false, "ok"));
    callback.on_task_start("task2", "host1");
    callback.on_task_complete(&create_execution_result("host1", "task2", true, true, false, "changed"));
    callback.on_task_start("task3", "host1");
    callback.on_task_complete(&create_execution_result("host1", "task3", false, false, false, "failed"));
    let host_stats = callback.host_stats("host1").unwrap();
    assert_eq!(host_stats.ok, 1);
    assert_eq!(host_stats.changed, 1);
    assert_eq!(host_stats.failed, 1);
}

#[test]
fn dense_compress_mixed_widths_and_prefixes() {
    let hosts = vec!["db01".to_string(), "db02".to_string(), "db03".to_string(), "cache".to_string()];
    let compressed = compress_host_ranges(&hosts);
    assert_eq!(compressed, vec!["cache".to_string(), "db[01:03]".to_string()]);
}
