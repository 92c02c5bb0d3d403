use rustible_callback::plugins::counter::{
    format_duration, format_duration_human, CounterCallback, CounterCallbackBuilder, GlobalStats, HostStats,
    ProgressState, TaskTiming,
};
use rustible_callback::types::{Elapsed, ExecutionResult, ModuleResult};

fn create_execution_result(
    host: &str,
    task_name: &str,
    success: bool,
    changed: bool,
    skipped: bool,
    message: &str,
) -> ExecutionResult {
    ExecutionResult {
        host: host.to_string(),
        task_name: task_name.to_string(),
        result: ModuleResult {
            success,
            changed,
            message: message.to_string(),
            skipped,
            data: None,
            warnings: Vec::new(),
        },
        duration: Elapsed::from_millis(100),
        notify: Vec::new(),
    }
}

fn progress(current_task: usize, total_tasks: usize, total_hosts: usize, done: usize) -> ProgressState {
    let mut p = ProgressState::new();
    p.current_task = current_task;
    p.total_tasks = total_tasks;
    p.current_host = 0;
    p.total_hosts = total_hosts;
    p.hosts_completed_for_task = done;
    p.current_task_name = "task".to_string();
    p.current_play_name = "play".to_string();
    p
}

#[test]
fn test_counter_callback_tracks_stats() {
    let mut callback = CounterCallback::new(false);
    callback.on_playbook_start("test-playbook");
    callback.on_play_start("test-play", &vec!["host1".to_string(), "host2".to_string()]);
    callback.on_task_start("task1", "host1");
    let ok_result = create_execution_result("host1", "task1", true, false, false, "ok");
    callback.on_task_complete(&ok_result, Elapsed::from_millis(100));
    callback.on_task_start("task1", "host2");
    let changed_result = create_execution_result("host2", "task1", true, true, false, "changed");
    callback.on_task_complete(&changed_result, Elapsed::from_millis(100));

    let global = callback.global_stats();
    assert_eq!(global.ok, 1);
    assert_eq!(global.changed, 1);
    assert_eq!(global.failed, 0);
    assert_eq!(global.total(), 2);

    let host1_stats = callback.host_stats("host1").unwrap();
    assert_eq!(host1_stats.ok, 1);
    assert_eq!(host1_stats.changed, 0);
    let host2_stats = callback.host_stats("host2").unwrap();
    assert_eq!(host2_stats.changed, 1);
}

#[test]
fn test_counter_callback_tracks_failures() {
    let mut callback = CounterCallback::new(false);
    callback.on_playbook_start("test-playbook");
    callback.on_play_start("test-play", &vec!["host1".to_string()]);
    callback.on_task_start("task1", "host1");
    let failed_result = create_execution_result("host1", "task1", false, false, false, "error occurred");
    callback.on_task_complete(&failed_result, Elapsed::from_millis(100));
    assert!(callback.has_failures());
    assert_eq!(callback.global_stats().failed, 1);
}

#[test]
fn test_progress_percentage() {
    // The share is computed from the executions done and planned.
    let mut p = progress(2, 4, 2, 1);
    let (total, done) = p.executions();
    assert!((done as f64 / total as f64 * 100.0 - 62.5).abs() < 0.1);
    p.hosts_completed_for_task = 2;
    let (total, done) = p.executions();
    assert!((done as f64 / total as f64 * 100.0 - 75.0).abs() < 0.1);
}

#[test]
fn test_eta_calculation() {
    let mut timing = TaskTiming::new();
    timing.record_duration(Elapsed::from_secs(10));
    timing.record_duration(Elapsed::from_secs(20));
    timing.record_duration(Elapsed::from_secs(15));

    let avg = timing.average_duration().unwrap();
    assert_eq!(avg, Elapsed::from_secs(15));

    let p = progress(1, 3, 2, 2);
    let eta = p.eta(Some(avg)).unwrap();
    assert_eq!(eta, Elapsed::from_secs(30));
}

#[test]
fn counter_test_format_duration() {
    assert_eq!(format_duration(&Elapsed::from_secs(65)), "01:05");
    assert_eq!(format_duration(&Elapsed::from_secs(3665)), "01:01:05");
    assert_eq!(format_duration(&Elapsed::from_secs(0)), "00:00");
}

#[test]
fn test_format_duration_human() {
    assert_eq!(format_duration_human(&Elapsed::from_secs(65)), "1m 5s");
    assert_eq!(format_duration_human(&Elapsed::from_secs(3665)), "1h 1m 5s");
    assert_eq!(format_duration_human(&Elapsed::from_secs(30)), "30s");
}

#[test]
fn test_host_stats_total() {
    let stats = HostStats { ok: 5, changed: 3, failed: 1, skipped: 2, unreachable: 0 };
    assert_eq!(stats.total(), 11);
}

#[test]
fn test_global_stats_total() {
    let stats = GlobalStats { ok: 10, changed: 5, failed: 2, skipped: 3, unreachable: 1 };
    assert_eq!(stats.total(), 21);
}

#[test]
fn counter_test_builder_pattern() {
    let callback = CounterCallbackBuilder::new()
        .verbose(false)
        .show_eta(false)
        .use_color(false)
        .total_tasks(10)
        .build(false);

    assert!(!callback.config().verbose);
    assert!(!callback.config().show_eta);
    assert!(!callback.config().use_color);
}

#[test]
fn counter_eta_needs_durations() {
    let timing = TaskTiming::new();
    assert!(timing.average_duration().is_none());
    let p = progress(0, 2, 2, 0);
    assert!(p.eta(None).is_none());
}

#[test]
fn counter_no_color_flag_wins() {
    let callback = CounterCallbackBuilder::new().use_color(true).build(true);
    assert!(!callback.config().use_color);
}
