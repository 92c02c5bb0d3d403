use rustible_callback::manager::{
    tally, CallbackManager, Dispatch, DispatchResult, DispatchTarget, PluginError, PluginPriority,
};

#[test]
fn test_plugin_registration() {
    let mut manager: CallbackManager<u32> = CallbackManager::new();
    assert!(manager.register("test", 1, PluginPriority::normal()));
    assert_eq!(manager.plugin_count(), 1);
    assert!(manager.has_plugin("test"));
}

#[test]
fn test_plugin_deregistration() {
    let mut manager: CallbackManager<u32> = CallbackManager::new();
    manager.register("test", 1, PluginPriority::normal());
    assert!(manager.has_plugin("test"));
    let removed = manager.deregister("test");
    assert!(removed.is_some());
    assert!(!manager.has_plugin("test"));
    assert_eq!(manager.plugin_count(), 0);
}

#[test]
fn test_priority_ordering() {
    let mut manager: CallbackManager<u32> = CallbackManager::new();
    manager.register("low", 1, PluginPriority::cleanup());
    manager.register("high", 2, PluginPriority::stdout());
    manager.register("normal", 3, PluginPriority::normal());
    let ordered = manager.ordered_plugins();
    assert_eq!(ordered[0].name, "high");
    assert_eq!(ordered[1].name, "normal");
    assert_eq!(ordered[2].name, "low");
}

#[test]
fn manager_test_plugin_enable_disable() {
    let mut manager: CallbackManager<u32> = CallbackManager::new();
    manager.register("test", 1, PluginPriority::normal());
    assert!(manager.is_plugin_enabled("test"));
    manager.disable_plugin("test");
    assert!(!manager.is_plugin_enabled("test"));
    let targets = manager.dispatch_targets();
    let result = tally(&targets, "on_playbook_start", &vec![None]);
    assert_eq!(result.skipped_count, 1);
    assert_eq!(result.success_count, 0);
    manager.enable_plugin("test");
    assert!(manager.is_plugin_enabled("test"));
    let targets = manager.dispatch_targets();
    let result = tally(&targets, "on_playbook_start", &vec![None]);
    assert_eq!(result.success_count, 1);
}

#[test]
fn test_pause_resume() {
    let mut manager: CallbackManager<u32> = CallbackManager::new();
    manager.register("test", 1, PluginPriority::normal());
    manager.pause();
    assert!(manager.is_paused());
    assert!(manager.dispatch_targets().is_empty());
    manager.resume();
    assert!(!manager.is_paused());
    assert_eq!(manager.dispatch_targets().len(), 1);
}

#[test]
fn test_replacing_existing_plugin() {
    let mut manager: CallbackManager<u32> = CallbackManager::new();
    assert!(manager.register("test", 1, PluginPriority::stdout()));
    assert!(!manager.register("test", 2, PluginPriority::normal()));
    assert_eq!(manager.plugin_count(), 1);
    assert_eq!(manager.get_priority("test"), Some(PluginPriority::normal()));
}

#[test]
fn test_dispatch_result_helpers() {
    let mut result = DispatchResult::default();
    assert!(result.is_success());
    assert!(!result.has_errors());
    assert_eq!(result.total_dispatched(), 0);

    result.success_count = 2;
    result.skipped_count = 1;
    assert!(result.is_success());
    assert_eq!(result.total_dispatched(), 2);

    result.errors.push(PluginError {
        plugin_name: "test".to_string(),
        event: "test".to_string(),
        message: "error".to_string(),
    });
    assert!(!result.is_success());
    assert!(result.has_errors());
    assert_eq!(result.error_count(), 1);
    assert_eq!(result.total_dispatched(), 3);
}

#[test]
fn manager_tally_records_failures() {
    let mut manager: CallbackManager<u32> = CallbackManager::new();
    manager.register("a", 1, PluginPriority::stdout());
    manager.register("b", 2, PluginPriority::normal());
    let targets = manager.dispatch_targets();
    let result = tally(&targets, "on_task_complete", &vec![None, Some("boom".to_string())]);
    assert_eq!(result.success_count, 1);
    assert_eq!(result.error_count(), 1);
    assert_eq!(result.errors[0].plugin_name, "b");
    assert_eq!(result.errors[0].event, "on_task_complete");
    assert_eq!(result.errors[0].message, "boom");
}

#[test]
fn manager_priorities_order_by_value() {
    assert!(PluginPriority::logging() < PluginPriority::custom(350));
    assert!(PluginPriority::custom(350) < PluginPriority::normal());
    assert!(!(PluginPriority::custom(5) < PluginPriority::custom(5)));
    assert!(PluginPriority::custom(-1) <= PluginPriority::custom(0));
}

#[test]
fn dispatch_hands_out_enabled_plugins_once_in_order() {
    let targets = vec![
        DispatchTarget { name: "a".to_string(), priority: PluginPriority::stdout(), enabled: true },
        DispatchTarget { name: "b".to_string(), priority: PluginPriority::normal(), enabled: false },
        DispatchTarget { name: "c".to_string(), priority: PluginPriority::metrics(), enabled: true },
        DispatchTarget { name: "d".to_string(), priority: PluginPriority::cleanup(), enabled: false },
    ];
    let mut d = Dispatch::new(targets);
    assert_eq!(d.next_call(), Some(0));
    d.report(None);
    assert_eq!(d.next_call(), Some(2));
    d.report(Some("boom".to_string()));
    assert_eq!(d.next_call(), None);
    let r = d.finish("on_playbook_start");
    assert_eq!(r.success_count, 1);
    assert_eq!(r.skipped_count, 2);
    assert_eq!(r.errors.len(), 1);
    assert_eq!(r.errors[0].plugin_name, "c");
    assert_eq!(r.errors[0].event, "on_playbook_start");
    assert_eq!(r.errors[0].message, "boom");
    assert_eq!(r.total_dispatched(), 2);
}

#[test]
fn dispatch_with_nothing_enabled_skips_all() {
    let targets = vec![DispatchTarget { name: "a".to_string(), priority: PluginPriority::normal(), enabled: false }];
    let mut d = Dispatch::new(targets);
    assert_eq!(d.next_call(), None);
    let r = d.finish("on_play_end");
    assert_eq!(r.success_count, 0);
    assert_eq!(r.skipped_count, 1);
    assert!(r.errors.is_empty());
}
