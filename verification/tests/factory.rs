use rustible_callback::config::{CallbackConfig, PluginConfig};
use rustible_callback::factory::{
    Chosen, CreatedPlugin, PluginFactory, PluginFactoryError, PluginFactoryErrorKind, PluginRegistry, PluginType,
};
use rustible_callback::types::JsonValue;

#[test]
fn test_create_minimal_plugin() {
    let plugin = PluginFactory::create("minimal", &CallbackConfig::default());
    assert!(plugin.is_ok());
}

#[test]
fn test_create_null_plugin() {
    let plugin = PluginFactory::create("null", &CallbackConfig::default());
    assert!(plugin.is_ok());
}

#[test]
fn test_create_summary_plugin() {
    let plugin = PluginFactory::create("summary", &CallbackConfig::default());
    assert!(plugin.is_ok());
}

#[test]
fn test_create_progress_plugin() {
    let plugin = PluginFactory::create("progress", &CallbackConfig::default());
    assert!(plugin.is_ok());
}

#[test]
fn test_create_selective_plugin() {
    let plugin = PluginFactory::create("selective", &CallbackConfig::default());
    assert!(plugin.is_ok());
}

#[test]
fn test_create_diff_plugin() {
    let plugin = PluginFactory::create("diff", &CallbackConfig::default());
    assert!(plugin.is_ok());
}

#[test]
fn test_create_with_config() {
    let mut config = CallbackConfig::default();
    let mut plugin_config = PluginConfig::enabled();
    plugin_config.set_option("show_per_host", JsonValue::Bool(true));
    plugin_config.set_option("show_timing", JsonValue::Bool(false));
    config.plugins.set("summary", plugin_config);

    let plugin = PluginFactory::create("summary", &config);
    assert!(plugin.is_ok());
}

#[test]
fn test_create_unknown_plugin() {
    let result = PluginFactory::create("unknown_plugin", &CallbackConfig::default());
    assert!(result.is_err());

    let err = match result {
        Err(e) => e,
        Ok(_) => panic!("Expected error"),
    };
    assert_eq!(err.kind, PluginFactoryErrorKind::UnknownPlugin);
    assert!(err.message.contains("unknown_plugin"));
}

#[test]
fn test_case_insensitive_names() {
    assert!(PluginFactory::create("MINIMAL", &CallbackConfig::default()).is_ok());
    assert!(PluginFactory::create("Minimal", &CallbackConfig::default()).is_ok());
    assert!(PluginFactory::create("NULL", &CallbackConfig::default()).is_ok());
}

#[test]
fn test_alternative_names() {
    assert!(PluginFactory::create("silent", &CallbackConfig::default()).is_ok());
    assert!(PluginFactory::create("quiet", &CallbackConfig::default()).is_ok());
}

#[test]
fn test_available_plugin_names() {
    let names = PluginFactory::available_plugin_names();
    assert!(names.contains(&"minimal"));
    assert!(names.contains(&"null"));
    assert!(names.contains(&"summary"));
    assert!(names.contains(&"progress"));
    assert!(names.contains(&"selective"));
    assert!(names.contains(&"diff"));
}

#[test]
fn test_available_plugins_info() {
    let plugins = PluginFactory::available_plugins();
    assert!(!plugins.is_empty());

    let minimal = plugins.iter().find(|p| p.name == "minimal");
    assert!(minimal.is_some());
    assert_eq!(minimal.unwrap().plugin_type, PluginType::Stdout);

    let summary = plugins.iter().find(|p| p.name == "summary");
    assert!(summary.is_some());
    assert!(!summary.unwrap().options.is_empty());
}

#[test]
fn test_plugin_exists() {
    assert!(PluginFactory::plugin_exists("minimal"));
    assert!(PluginFactory::plugin_exists("null"));
    assert!(PluginFactory::plugin_exists("summary"));
    assert!(!PluginFactory::plugin_exists("nonexistent"));
}

#[test]
fn test_get_plugin_info() {
    let info = PluginFactory::get_plugin_info("summary");
    assert!(info.is_some());

    let info = info.unwrap();
    assert_eq!(info.name, "summary");
    assert!(!info.options.is_empty());
}

#[test]
fn test_plugin_factory_error_display() {
    let err = PluginFactoryError::unknown_plugin("test");
    assert!(err.to_string().contains("Unknown plugin"));
    assert!(err.to_string().contains("test"));

    let err = PluginFactoryError::invalid_config("bad config");
    assert!(err.to_string().contains("Invalid configuration"));

    let err = PluginFactoryError::init_failed("init error");
    assert!(err.to_string().contains("initialization failed"));
}

#[test]
fn test_create_default() {
    let plugin = PluginFactory::create_default("minimal");
    assert!(plugin.is_ok());
}

#[test]
fn test_create_many() {
    let plugins = PluginFactory::create_many(&vec!["minimal", "null", "nonexistent"], &CallbackConfig::default());
    assert_eq!(plugins.len(), 2);
}

#[test]
fn test_create_from_config() {
    let mut config = CallbackConfig::default();
    config.enabled_plugins = vec!["minimal".to_string(), "null".to_string()];
    config.plugins.set("minimal", PluginConfig::enabled());
    config.plugins.set("null", PluginConfig::enabled());

    let plugins = PluginFactory::create_from_config(&config);
    assert_eq!(plugins.len(), 2);
}

#[test]
fn factory_create_from_config_skips_disabled() {
    let mut config = CallbackConfig::default();
    config.enabled_plugins = vec!["minimal".to_string(), "null".to_string(), "nonexistent".to_string()];
    config.plugins.set("null", PluginConfig::disabled());
    let plugins = PluginFactory::create_from_config(&config);
    assert_eq!(plugins.len(), 1);
    assert!(matches!(plugins[0], CreatedPlugin::Minimal));
}

#[test]
fn factory_unknown_message_lists_plugins() {
    let err = PluginFactoryError::unknown_plugin("x");
    assert_eq!(
        err.to_string(),
        "Unknown plugin: 'x'. Available plugins: minimal, null, summary, progress, selective, diff"
    );
}

#[test]
fn factory_aliases_map_to_plugins() {
    assert!(matches!(PluginFactory::create("quiet", &CallbackConfig::default()), Ok(CreatedPlugin::Null)));
    assert!(matches!(PluginFactory::create("Diff", &CallbackConfig::default()), Ok(CreatedPlugin::Diff(_))));
}

type Maker = fn(&CallbackConfig) -> &'static str;

fn custom_maker(_config: &CallbackConfig) -> &'static str {
    "custom"
}

#[test]
fn test_plugin_registry_new() {
    let registry = PluginRegistry::<Maker>::new();
    assert!(registry.registered_names().is_empty());
}

#[test]
fn test_plugin_registry_with_builtins() {
    let registry = PluginRegistry::<Maker>::with_builtins();
    assert!(registry.is_registered("minimal"));
    assert!(registry.is_registered("null"));
}

#[test]
fn test_plugin_registry_register() {
    let mut registry = PluginRegistry::<Maker>::new();
    registry.register("custom", custom_maker);
    assert!(registry.is_registered("custom"));
    assert!(registry.is_registered("CUSTOM"));
    let plugin = registry.create("custom", &CallbackConfig::default());
    assert!(plugin.is_ok());
    match plugin {
        Ok(Chosen::Custom(f)) => assert_eq!(f(&CallbackConfig::default()), "custom"),
        _ => panic!("expected the custom factory"),
    }
}

#[test]
fn test_plugin_registry_unregister() {
    let mut registry = PluginRegistry::<Maker>::new();
    registry.register("custom", custom_maker);
    assert!(registry.unregister("custom"));
    assert!(!registry.is_registered("custom"));
    assert!(!registry.unregister("custom"));
}

#[test]
fn test_plugin_registry_fallback_to_builtin() {
    let registry = PluginRegistry::<Maker>::new();
    let plugin = registry.create("minimal", &CallbackConfig::default());
    assert!(plugin.is_ok());
    assert!(matches!(plugin, Ok(Chosen::Builtin(CreatedPlugin::Minimal))));
    assert!(registry.create("nonexistent", &CallbackConfig::default()).is_err());
}

#[test]
fn test_plugin_registry_all_available_names() {
    let mut registry = PluginRegistry::<Maker>::new();
    registry.register("custom", custom_maker);
    let names = registry.all_available_names();
    assert!(names.contains(&"custom".to_string()));
    assert!(names.contains(&"minimal".to_string()));
    assert!(names.contains(&"null".to_string()));
    assert_eq!(names, vec!["custom", "diff", "minimal", "null", "progress", "selective", "summary"]);
}

#[test]
fn test_plugin_registry_debug() {
    let registry = PluginRegistry::<Maker>::with_builtins();
    let debug_str = format!("{:?}", registry);
    assert!(debug_str.contains("PluginRegistry"));
}

#[test]
fn factory_registry_builtin_entry_creates_by_its_name() {
    let registry = PluginRegistry::<Maker>::with_builtins();
    assert!(matches!(registry.create("QUIET", &CallbackConfig::default()), Ok(Chosen::Builtin(CreatedPlugin::Null))));
    assert_eq!(registry.registered_names(), vec!["minimal", "null", "summary", "progress", "selective", "diff"]);
}
