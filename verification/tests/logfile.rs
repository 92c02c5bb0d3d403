use rustible_callback::plugins::logfile::{
    files_to_remove, human_line, should_log_result, HostLogStats, LogEvent, LogFileCallback, LogFileConfig,
};
use rustible_callback::types::{Elapsed, ExecutionResult, JsonValue, ModuleResult};

fn result(success: bool, changed: bool, skipped: bool) -> ExecutionResult {
    ExecutionResult {
        host: "h".to_string(),
        task_name: "t".to_string(),
        result: ModuleResult {
            success,
            changed,
            message: "m".to_string(),
            skipped,
            data: None,
            warnings: Vec::new(),
        },
        duration: Elapsed::from_millis(100),
        notify: Vec::new(),
    }
}

#[test]
fn logfile_test_config_builder() {
    let config = LogFileConfig::builder()
        .log_directory("/var/log/test")
        .json_format(true)
        .max_log_files(10)
        .log_prefix("custom")
        .include_task_args(true)
        .log_level("failures")
        .build();

    assert_eq!(config.log_directory, "/var/log/test");
    assert!(config.json_format);
    assert_eq!(config.max_log_files, 10);
    assert_eq!(config.log_prefix, "custom");
    assert!(config.include_task_args);
    assert_eq!(config.log_level, "failures");
}

#[test]
fn test_config_default() {
    let config = LogFileConfig::default();

    assert_eq!(config.log_directory, "./logs");
    assert!(!config.json_format);
    assert_eq!(config.max_log_files, 50);
    assert_eq!(config.log_prefix, "rustible");
    assert_eq!(config.log_level, "all");
}

#[test]
fn test_host_log_stats_default() {
    let stats = HostLogStats::default();
    assert_eq!(stats.ok, 0);
    assert_eq!(stats.changed, 0);
    assert_eq!(stats.failed, 0);
    assert_eq!(stats.skipped, 0);
    assert_eq!(stats.unreachable, 0);
}

#[test]
fn test_log_level_filter() {
    let failures = LogFileConfig::builder().log_level("failures").build();
    assert!(should_log_result(&failures, &result(false, false, false)));
    assert!(!should_log_result(&failures, &result(true, true, false)));
    assert!(!should_log_result(&failures, &result(true, false, false)));

    let changes = LogFileConfig::builder().log_level("changes").build();
    assert!(should_log_result(&changes, &result(false, false, false)));
    assert!(should_log_result(&changes, &result(true, true, false)));
    assert!(!should_log_result(&changes, &result(true, false, false)));

    let all = LogFileConfig::default();
    assert!(should_log_result(&all, &result(true, false, true)));
}

#[test]
fn logfile_with_directory_keeps_defaults() {
    let config = LogFileConfig::with_directory("/tmp/x");
    assert_eq!(config.log_directory, "/tmp/x");
    assert_eq!(config.max_log_files, 50);
}

fn exec(host: &str, task: &str, success: bool, changed: bool, skipped: bool, message: &str) -> ExecutionResult {
    ExecutionResult {
        host: host.to_string(),
        task_name: task.to_string(),
        result: ModuleResult {
            success,
            changed,
            message: message.to_string(),
            skipped,
            data: None,
            warnings: Vec::new(),
        },
        duration: Elapsed::from_millis(100),
        notify: Vec::new(),
    }
}

#[test]
fn test_log_entry_format_human() {
    let e = LogEvent::PlaybookStart { playbook: "test.yml".to_string() };
    let formatted = human_line("2024-01-01T00:00:00.000Z", &e, "");
    assert!(formatted.contains("PLAYBOOK START"));
    assert!(formatted.contains("test.yml"));
    assert_eq!(formatted, "[2024-01-01T00:00:00.000Z] PLAYBOOK START: test.yml");
}

#[test]
fn test_log_entry_task_result_format() {
    let e = LogEvent::TaskResult {
        host: "webserver1".to_string(),
        task_name: "Install nginx".to_string(),
        status: "CHANGED".to_string(),
        changed: true,
        duration: Some(Elapsed::from_millis(1234)),
        message: Some("Package installed".to_string()),
        stdout: None,
        stderr: None,
        diff: None,
    };
    let formatted = human_line("T", &e, "1.234");
    assert!(formatted.contains("webserver1"));
    assert!(formatted.contains("Install nginx"));
    assert!(formatted.contains("CHANGED"));
    assert!(formatted.contains("1.234s"));
    assert_eq!(formatted, "[T] TASK RESULT: webserver1 | Install nginx | CHANGED (changed) (1.234s)\n[T]   msg: Package installed");
}

#[test]
fn logfile_playbook_end_lists_hosts_in_order() {
    let mut cb = LogFileCallback::new(LogFileConfig::default());
    cb.on_play_start("p", &vec!["web2".to_string(), "web1".to_string()]);
    cb.on_task_complete(&exec("web1", "t", true, true, false, "done"));
    cb.on_task_complete(&exec("web2", "t", false, false, false, "boom"));
    let e = cb.on_playbook_end("site.yml", false, Elapsed::from_millis(2500));
    let text = human_line("T", &e, "2.500");
    assert_eq!(
        text,
        "[T] PLAYBOOK END: site.yml | FAILED | Duration: 2.500s\n[T]   web1: ok=0 changed=1 failed=0 skipped=0 unreachable=0\n[T]   web2: ok=0 changed=0 failed=1 skipped=0 unreachable=0"
    );
    assert!(cb.has_failures());
}

#[test]
fn logfile_task_complete_counts_and_filters() {
    let config = LogFileConfig::builder().log_level("failures").include_output(true).build();
    let mut cb = LogFileCallback::new(config);
    assert!(cb.on_task_complete(&exec("h", "t", true, false, false, "ok")).is_none());
    let mut failed = exec("h", "t", false, false, false, "");
    failed.result.data = Some(JsonValue::Object(vec![
        ("stdout".to_string(), JsonValue::String("  out \n".to_string())),
        ("stderr".to_string(), JsonValue::Bool(true)),
    ]));
    match cb.on_task_complete(&failed) {
        Some(LogEvent::TaskResult { status, message, stdout, stderr, duration, .. }) => {
            assert_eq!(status, "FAILED");
            assert_eq!(message, None);
            assert_eq!(stdout, Some("  out \n".to_string()));
            assert_eq!(stderr, None);
            assert_eq!(duration, Some(Elapsed::from_millis(100)));
        },
        _ => panic!("expected a task result"),
    }
    let stats = cb.get_stats().get("h").unwrap();
    assert_eq!((stats.ok, stats.failed), (1, 1));
    let e = cb.log_host_unreachable("h", "t", "timeout");
    assert_eq!(human_line("T", &e, ""), "[T] HOST UNREACHABLE: h | t | timeout");
    assert_eq!(cb.get_stats().get("h").unwrap().unreachable, 1);
}

#[test]
fn logfile_rotation_picks_old_and_surplus_files() {
    let day = 86_400u64;
    let now = Elapsed::from_secs(100 * day);
    let files = vec![
        ("rustible_a.log".to_string(), Elapsed::from_secs(10 * day)),
        ("rustible_b.log".to_string(), Elapsed::from_secs(99 * day)),
        ("rustible_b.json".to_string(), Elapsed::from_secs(99 * day)),
        ("rustible_c.log".to_string(), Elapsed::from_secs(99 * day)),
        ("other.log".to_string(), Elapsed::from_secs(1 * day)),
        ("rustible_d.txt".to_string(), Elapsed::from_secs(1 * day)),
    ];
    let config = LogFileConfig::builder().max_log_files(1).max_log_age_days(30).build();
    assert_eq!(files_to_remove(&files, &now, &config), vec!["rustible_a.log", "rustible_b.log", "rustible_b.json"]);
    let none = LogFileConfig::builder().max_log_files(0).max_log_age_days(0).build();
    assert!(files_to_remove(&files, &now, &none).is_empty());
}

#[test]
fn test_generate_log_filename() {
    let config = LogFileConfig::builder().log_prefix("test").build();
    let callback = LogFileCallback::new(config);
    let filename = callback.generate_log_filename("deploy.yml", "20240101_120000");
    assert!(filename.starts_with("test_deploy_yml_"));
    assert!(!filename.contains('/'));
    assert!(!filename.contains('\\'));
    assert_eq!(filename, "test_deploy_yml_20240101_120000");
    let odd = callback.generate_log_filename("site/web\\db play-1.yml", "t");
    assert_eq!(odd, "test_site_web_db_play-1_yml_t");
}
