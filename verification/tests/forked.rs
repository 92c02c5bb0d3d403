use rustible_callback::plugins::forked::{ForkedCallback, ForkedCallbackBuilder, ForkedConfig, HostState};
use rustible_callback::types::{Elapsed, ExecutionResult, ModuleResult};

fn create_execution_result(
    host: &str,
    task_name: &str,
    success: bool,
    changed: bool,
    skipped: bool,
    message: &str,
) -> ExecutionResult {
    ExecutionResult {
        host: host.to_string(),
        task_name: task_name.to_string(),
        result: ModuleResult {
            success,
            changed,
            message: message.to_string(),
            skipped,
            data: None,
            warnings: Vec::new(),
        },
        duration: Elapsed::from_millis(100),
        notify: Vec::new(),
    }
}

#[test]
fn test_forked_callback_creation() {
    let callback = ForkedCallback::new(5);
    assert_eq!(callback.forks(), 5);
}

#[test]
fn test_forked_callback_minimum_forks() {
    let callback = ForkedCallback::new(0);
    assert_eq!(callback.forks(), 1);
}

#[test]
fn test_forked_callback_builder() {
    let callback = ForkedCallbackBuilder::new().forks(10).terminal_ui(false).build();
    assert_eq!(callback.forks(), 10);
    assert!(!callback.uses_terminal_ui());
}

#[test]
fn test_forked_callback_tracks_stats() {
    let mut callback = ForkedCallbackBuilder::new().forks(5).terminal_ui(false).build();
    callback.on_playbook_start("test-playbook");
    callback.on_play_start("test-play", &vec!["host1".to_string(), "host2".to_string()]);
    callback.on_task_start("Install nginx", "host1");
    callback.on_task_start("Install nginx", "host2");
    callback.on_task_complete(&create_execution_result("host1", "Install nginx", true, false, false, "ok"));
    callback.on_task_complete(&create_execution_result("host2", "Install nginx", true, true, false, "changed"));

    let host1_stats = callback.host_stats("host1").unwrap();
    assert_eq!(host1_stats.ok, 1);
    assert_eq!(host1_stats.changed, 0);
    let host2_stats = callback.host_stats("host2").unwrap();
    assert_eq!(host2_stats.ok, 0);
    assert_eq!(host2_stats.changed, 1);
    assert!(!callback.has_failures());
}

#[test]
fn test_forked_callback_tracks_failures() {
    let mut callback = ForkedCallbackBuilder::new().forks(5).terminal_ui(false).build();
    callback.on_playbook_start("test-playbook");
    callback.on_play_start("test-play", &vec!["host1".to_string()]);
    callback.on_task_start("Install nginx", "host1");
    callback.on_task_complete(&create_execution_result(
        "host1",
        "Install nginx",
        false,
        false,
        false,
        "Package not found",
    ));
    assert_eq!(callback.host_stats("host1").unwrap().failed, 1);
    assert!(callback.has_failures());
}

#[test]
fn test_forked_callback_unreachable() {
    let mut callback = ForkedCallbackBuilder::new().forks(5).terminal_ui(false).build();
    callback.on_playbook_start("test-playbook");
    callback.on_play_start("test-play", &vec!["host1".to_string()]);
    callback.on_host_unreachable("host1", "gather_facts", "Connection refused");
    assert_eq!(callback.host_stats("host1").unwrap().unreachable, 1);
    assert!(matches!(callback.host_state("host1"), Some(HostState::Unreachable)));
    assert!(callback.has_failures());
}

#[test]
fn test_fork_slot_allocation() {
    let mut callback = ForkedCallbackBuilder::new().forks(2).terminal_ui(false).build();
    callback.on_playbook_start("test");

    assert_eq!(callback.allocate_fork_slot("host1"), Some(0));
    assert_eq!(callback.allocate_fork_slot("host2"), Some(1));
    assert_eq!(callback.allocate_fork_slot("host3"), None);
    callback.release_fork_slot("host1");
    assert_eq!(callback.allocate_fork_slot("host3"), Some(0));
}

#[test]
fn forked_test_default_trait() {
    let callback = ForkedCallback::default();
    assert_eq!(callback.forks(), 5);
}

#[test]
fn test_host_state_equality() {
    assert_eq!(HostState::Pending, HostState::Pending);
    assert_eq!(HostState::Running { fork_slot: 0 }, HostState::Running { fork_slot: 0 });
    assert_ne!(HostState::Running { fork_slot: 0 }, HostState::Running { fork_slot: 1 });
    assert_ne!(HostState::Pending, HostState::Completed);
}

#[test]
fn test_forked_config_default() {
    let config = ForkedConfig::default();
    assert_eq!(config.forks, 5);
    assert!(config.show_host_progress);
    assert!(config.show_summary);
}

#[test]
fn forked_default_follows_the_terminal() {
    let is_tty = std::io::IsTerminal::is_terminal(&std::io::stdout());
    let config = ForkedConfig::default();
    assert_eq!(config.use_terminal_ui, is_tty);
    assert_eq!(config.slot_template, "  {spinner:.green} [{prefix}] {msg:<15} [{bar:25.cyan/blue}] {percent:>3}%");
    let b = ForkedCallbackBuilder::new().forks(10).terminal_ui(false);
    assert_eq!(b.config.forks, 10);
    assert!(!b.config.use_terminal_ui);
    assert_eq!(b.config.slot_template, config.slot_template);
}

#[test]
fn forked_running_state_names_the_slot() {
    let mut callback = ForkedCallbackBuilder::new().forks(3).terminal_ui(false).build();
    callback.on_playbook_start("p");
    callback.on_play_start("play", &vec!["a".to_string(), "b".to_string()]);
    callback.on_task_start("t", "a");
    callback.on_task_start("t", "b");
    assert_eq!(callback.host_state("b"), Some(HostState::Running { fork_slot: 1 }));
    callback.on_task_complete(&create_execution_result("b", "t", true, false, true, "skipped"));
    assert_eq!(callback.host_state("b"), Some(HostState::Skipped));
}
