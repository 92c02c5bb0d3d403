use rustible_callback::config::{
    config_from_cli, CallbackConfig, JsonPluginConfig, MinimalPluginConfig, PluginConfig, ProfileTasksPluginConfig,
    TimerPluginConfig,
};
use rustible_callback::types::{JsonNumber, JsonValue};

#[test]
fn config_test_default_config() {
    let config = CallbackConfig::default();
    assert_eq!(config.plugin, "default");
    assert_eq!(config.verbosity, 1);
    assert!(!config.show_diff);
    assert!(config.use_colors);
    assert!(config.show_recap);
}

#[test]
fn test_config_for_plugin() {
    let config = CallbackConfig::for_plugin("json");
    assert_eq!(config.plugin, "json");
    assert_eq!(config.default_plugin, "json");
    assert_eq!(config.enabled_plugins, vec!["json"]);
}

#[test]
fn test_config_merge() {
    let mut config = CallbackConfig::default();
    let mut other = CallbackConfig::default();
    other.plugin = "json".to_string();
    other.verbosity = 3;
    other.show_diff = true;

    config.merge(other);

    assert_eq!(config.plugin, "json");
    assert_eq!(config.verbosity, 3);
    assert!(config.show_diff);
}

#[test]
fn config_plugin_options() {
    let mut config = PluginConfig::enabled();
    config.set_option("threshold", JsonValue::Number(JsonNumber::PosInt(10)));
    config.set_option("enabled_feature", JsonValue::Bool(true));
    config.set_option("name", JsonValue::String("test".to_string()));

    assert!(config.enabled);
    assert_eq!(config.get_i64("threshold"), Some(10));
    assert_eq!(config.get_bool("enabled_feature"), Some(true));
    assert_eq!(config.get_string("name"), Some("test".to_string()));
    assert_eq!(config.get_bool("name"), None);
}

#[test]
fn config_test_plugin_enable_disable() {
    let mut config = CallbackConfig::default();

    config.enable_plugin("timer");
    assert!(config.is_plugin_enabled("timer"));
    assert!(config.enabled_plugins.contains(&"timer".to_string()));

    config.disable_plugin("timer");
    assert!(!config.is_plugin_enabled("timer"));
    assert!(!config.enabled_plugins.contains(&"timer".to_string()));
}

#[test]
fn test_config_from_cli() {
    let config = config_from_cli(Some("json"), 2, true, true, false);

    assert_eq!(config.plugin, "json");
    assert_eq!(config.verbosity, 2);
    assert!(config.show_diff);
    assert!(config.check_mode);
    assert!(config.use_colors);
}

#[test]
fn test_config_from_cli_no_color() {
    let config = config_from_cli(None, 1, false, false, true);

    assert_eq!(config.plugin, "default");
    assert!(!config.use_colors);
}

#[test]
fn test_get_or_create_plugin_config() {
    let mut config = CallbackConfig::default();
    assert!(config.get_plugin_config("new_plugin").is_none());

    let plugin_config = config.get_or_create_plugin_config("new_plugin");
    plugin_config.enabled = true;
    plugin_config.set_option("test_option", JsonValue::Number(JsonNumber::PosInt(42)));

    let retrieved = config.get_plugin_config("new_plugin").unwrap();
    assert!(retrieved.enabled);
    assert_eq!(retrieved.get_i64("test_option"), Some(42));
}

#[test]
fn test_set_verbosity_bounds() {
    let mut config = CallbackConfig::default();

    config.set_verbosity(10);
    assert_eq!(config.verbosity, 4);

    config.set_verbosity(2);
    assert_eq!(config.verbosity, 2);

    config.set_verbosity(0);
    assert_eq!(config.verbosity, 0);
}

#[test]
fn config_merge_with_default_keeps_values() {
    let mut config = CallbackConfig::for_plugin("json");
    config.verbosity = 3;
    config.merge(CallbackConfig::default());
    assert_eq!(config.plugin, "json");
    assert_eq!(config.verbosity, 3);
}

#[test]
fn config_plugin_merge_overrides_set_fields() {
    let mut a = PluginConfig::enabled();
    a.priority = Some(1);
    a.set_option("x", JsonValue::Bool(false));
    let mut b = PluginConfig::disabled();
    b.output = Some("out".to_string());
    b.set_option("x", JsonValue::Bool(true));
    a.merge(&b);
    assert_eq!(a.priority, Some(1));
    assert_eq!(a.output, Some("out".to_string()));
    assert_eq!(a.get_bool("x"), Some(true));
}

/// The option `key` as a float, read from the number JSON holds.
fn get_f64(config: &PluginConfig, key: &str) -> Option<f64> {
    match config.options.get_ref(key) {
        Some(JsonValue::Number(JsonNumber::Float(t))) => t.parse().ok(),
        Some(JsonValue::Number(JsonNumber::PosInt(u))) => Some(*u as f64),
        Some(JsonValue::Number(JsonNumber::NegInt(i))) => Some(*i as f64),
        _ => None,
    }
}

fn float(text: &str) -> JsonNumber {
    JsonNumber::Float(text.to_string())
}

#[test]
fn test_plugin_config() {
    let mut config = PluginConfig::enabled();
    config.set_option("threshold", JsonValue::Number(float("10.5")));
    config.set_option("enabled_feature", JsonValue::Bool(true));
    config.set_option("name", JsonValue::String("test".to_string()));

    assert!(config.enabled);
    assert_eq!(get_f64(&config, "threshold"), Some(10.5));
    assert_eq!(config.get_bool("enabled_feature"), Some(true));
    assert_eq!(config.get_string("name"), Some("test".to_string()));
}

#[test]
fn test_timer_plugin_config_builder() {
    let config = TimerPluginConfig::new()
        .show_per_task(true)
        .show_summary(true)
        .top_slowest(20)
        .threshold_secs(float("1.5"))
        .build();

    assert!(config.enabled);
    assert_eq!(config.get_bool("show_per_task"), Some(true));
    assert_eq!(config.get_bool("show_summary"), Some(true));
    assert_eq!(config.get_i64("top_slowest"), Some(20));
    assert_eq!(get_f64(&config, "threshold_secs"), Some(1.5));
}

#[test]
fn test_json_plugin_config_builder() {
    let config = JsonPluginConfig::new()
        .output("/var/log/test.jsonl")
        .show_full_result(true)
        .indent(2)
        .build();

    assert!(config.enabled);
    assert_eq!(config.output, Some("/var/log/test.jsonl".to_string()));
    assert_eq!(config.get_bool("show_full_result"), Some(true));
    assert_eq!(config.get_i64("indent"), Some(2));
}

#[test]
fn test_profile_tasks_plugin_config_builder() {
    let config = ProfileTasksPluginConfig::new()
        .slow_threshold_secs(float("5.0"))
        .bottleneck_threshold_secs(float("15.0"))
        .top_tasks_count(25)
        .show_per_host(true)
        .build();

    assert!(config.enabled);
    assert_eq!(get_f64(&config, "slow_threshold_secs"), Some(5.0));
    assert_eq!(get_f64(&config, "bottleneck_threshold_secs"), Some(15.0));
    assert_eq!(config.get_i64("top_tasks_count"), Some(25));
    assert_eq!(config.get_bool("show_per_host"), Some(true));
}

#[test]
fn config_builders_start_enabled_and_default_disabled() {
    assert!(MinimalPluginConfig::new().build().enabled);
    assert!(!MinimalPluginConfig::default().build().enabled);
    assert!(!TimerPluginConfig::default().build().enabled);
    let config = ProfileTasksPluginConfig::new().include_skipped(false).build();
    assert_eq!(config.get_bool("include_skipped"), Some(false));
    let config = JsonPluginConfig::new().show_task_args(true).build();
    assert_eq!(config.get_bool("show_task_args"), Some(true));
    let config = TimerPluginConfig::new().show_play_timing(false).build();
    assert_eq!(config.get_bool("show_play_timing"), Some(false));
    assert_eq!(config.get_bool("show_per_task"), None);
}
