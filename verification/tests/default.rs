use rustible_callback::plugins::default::{
    format_duration, DefaultCallback, DefaultCallbackBuilder, HostStats, Verbosity,
};
use rustible_callback::types::{Elapsed, ExecutionResult, ModuleResult};

fn result(host: &str, task: &str, success: bool, changed: bool, skipped: bool, message: &str) -> ExecutionResult {
    ExecutionResult {
        host: host.to_string(),
        task_name: task.to_string(),
        result: ModuleResult {
            success,
            changed,
            message: message.to_string(),
            skipped,
            data: None,
            warnings: Vec::new(),
        },
        duration: Elapsed::from_millis(100),
        notify: Vec::new(),
    }
}

#[test]
fn test_default_callback_creation() {
    let callback = DefaultCallback::new(false);
    assert_eq!(callback.verbosity(), Verbosity::Normal);
}

#[test]
fn test_default_callback_with_verbosity() {
    let callback = DefaultCallback::new(false).with_verbosity(2);
    assert_eq!(callback.verbosity(), Verbosity::MoreVerbose);
}

#[test]
fn test_default_callback_no_color() {
    let callback = DefaultCallback::new(false).with_no_color(true, false);
    assert!(!callback.use_color());
}

#[test]
fn default_test_builder_pattern() {
    let callback = DefaultCallbackBuilder::new()
        .verbosity(2)
        .no_color(true)
        .show_diff(true)
        .show_duration(false)
        .build(false);

    assert_eq!(callback.verbosity(), Verbosity::MoreVerbose);
    assert!(!callback.use_color());
    assert!(callback.config().show_diff);
    assert!(!callback.config().show_duration);
}

#[test]
fn test_verbosity_from_u8() {
    assert_eq!(Verbosity::from(0), Verbosity::Normal);
    assert_eq!(Verbosity::from(1), Verbosity::Verbose);
    assert_eq!(Verbosity::from(2), Verbosity::MoreVerbose);
    assert_eq!(Verbosity::from(3), Verbosity::Debug);
    assert_eq!(Verbosity::from(4), Verbosity::ConnectionDebug);
    assert_eq!(Verbosity::from(5), Verbosity::WinRMDebug);
    assert_eq!(Verbosity::from(10), Verbosity::WinRMDebug);
}

#[test]
fn default_test_format_duration() {
    assert_eq!(format_duration(&Elapsed::from_millis(500)), "500ms");
    assert_eq!(format_duration(&Elapsed::from_secs(5)), "5.00s");
    assert_eq!(format_duration(&Elapsed::from_secs(65)), "1m 5s");
    assert_eq!(format_duration(&Elapsed::from_secs(3665)), "1h 1m 5s");
}

#[test]
fn test_host_stats() {
    let mut stats = HostStats::new();

    assert_eq!(stats.total(), 0);
    assert!(!stats.has_failures());
    assert!(!stats.has_changes());

    stats.ok = 5;
    stats.changed = 2;
    stats.failed = 1;

    assert_eq!(stats.total(), 8);
    assert!(stats.has_failures());
    assert!(stats.has_changes());
}

#[test]
fn test_task_key() {
    let key = DefaultCallback::task_key("Install nginx", "webserver1");
    assert_eq!(key, "Install nginx:webserver1");
}

#[test]
fn test_callback_lifecycle() {
    let mut callback = DefaultCallback::builder().no_color(true).show_ok(false).show_skipped(false).build(false);

    callback.on_playbook_start("test_playbook");
    assert_eq!(callback.playbook_name().map(|s| s.as_str()), Some("test_playbook"));

    callback.on_play_start("test_play", &vec!["host1".to_string(), "host2".to_string()]);
    assert_eq!(callback.current_play().map(|s| s.as_str()), Some("test_play"));
    assert!(callback.host_stats("host1").is_some());
    assert!(callback.host_stats("host2").is_some());

    callback.on_task_start("Install nginx", "host1");
    assert_eq!(callback.current_task().map(|s| s.as_str()), Some("Install nginx"));

    let r = result("host1", "Install nginx", true, true, false, "Installed");
    callback.on_task_complete(&r);
    assert_eq!(callback.host_stats("host1").map(|s| s.changed), Some(1));

    callback.on_play_end("test_play", true);
    assert!(callback.current_play().is_none());

    let lines = callback.on_playbook_end("test_playbook", true, &Elapsed::from_secs(1));
    assert!(!lines.is_empty());
}

#[test]
fn default_test_host_stats_tracking() {
    let mut callback = DefaultCallback::builder().no_color(true).show_ok(false).show_skipped(false).build(false);
    callback.on_playbook_start("test");
    callback.on_play_start("test_play", &vec!["host1".to_string()]);
    callback.on_task_complete(&result("host1", "task1", true, false, false, "OK"));
    callback.on_task_complete(&result("host1", "task2", true, true, false, "Changed"));
    callback.on_task_complete(&result("host1", "task3", false, false, false, "Failed"));
    callback.on_task_complete(&result("host1", "task4", true, false, true, "Skipped"));
    let stats = callback.host_stats("host1").unwrap();
    assert_eq!(stats.ok, 1);
    assert_eq!(stats.changed, 1);
    assert_eq!(stats.failed, 1);
    assert_eq!(stats.skipped, 1);
}

#[test]
fn default_no_color_env_wins() {
    let callback = DefaultCallbackBuilder::new().no_color(false).build(true);
    assert!(!callback.use_color());
}
