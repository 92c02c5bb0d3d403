use rustible_callback::config::CallbackConfig;
use rustible_callback::environment::{
    comma_list, load_from_env, load_plugin_env_vars, parse_u8, plugin_var_of, split_char, standard_config_paths,
    trim_text, CallbackConfigLoader,
};
use rustible_callback::types::{JsonNumber, JsonValue};

fn var(k: &str, v: &str) -> (String, String) {
    (k.to_string(), v.to_string())
}

fn as_text(v: &str) -> JsonValue {
    JsonValue::String(v.to_string())
}

#[test]
fn test_env_loading() {
    let vars = vec![
        var("TEST_CALLBACK", "json"),
        var("TEST_CALLBACK_VERBOSITY", "3"),
        var("TEST_CALLBACK_SHOW_DIFF", "true"),
        var("TEST_CALLBACK_TIMER_ENABLED", "true"),
        var("TEST_CALLBACK_TIMER_THRESHOLD_SECS", "2"),
    ];
    let parsed = vec![
        as_text("json"),
        JsonValue::Number(JsonNumber::PosInt(3)),
        JsonValue::Bool(true),
        JsonValue::Bool(true),
        JsonValue::Number(JsonNumber::PosInt(2)),
    ];
    let config = load_from_env("TEST_CALLBACK", &vars, &parsed);

    assert_eq!(config.plugin, "json");
    assert_eq!(config.verbosity, 3);
    assert!(config.show_diff);

    let timer_config = config.plugins.get_ref("timer").unwrap();
    assert!(timer_config.enabled);
    assert_eq!(timer_config.get_i64("threshold_secs"), Some(2));
}

#[test]
fn environment_flags_and_lists() {
    let vars = vec![
        var("P_ENABLED", " minimal , json,"),
        var("P_VERBOSITY", "+9"),
        var("P_CHECK_MODE", "1"),
        var("P_OUTPUT", "out.log"),
        var("NO_COLOR", ""),
        var("P_SHOW_TIMING", "TRUE"),
    ];
    let parsed: Vec<JsonValue> = vars.iter().map(|(_, v)| as_text(v)).collect();
    let config = load_from_env("P", &vars, &parsed);
    assert_eq!(config.plugin, "default");
    assert_eq!(config.enabled_plugins, vec!["minimal".to_string(), "json".to_string(), "".to_string()]);
    assert_eq!(config.verbosity, 4);
    assert!(config.check_mode);
    assert!(!config.show_diff);
    assert_eq!(config.output, "out.log");
    assert!(!config.use_colors);
    assert!(config.show_task_timing);
    assert_eq!(config.plugins.len(), 0);
}

#[test]
fn environment_plugin_options() {
    let vars = vec![
        var("X_JSON_PRIORITY", "7"),
        var("X_JSON_OUTPUT", "a.json"),
        var("X_JSON_ENABLED", "true"),
        var("X_TIMER_MODE", "fast"),
        var("X_VERBOSITY", "2"),
        var("X_NOUNDERSCORE", "v"),
        var("OTHER_JSON_ENABLED", "true"),
    ];
    let parsed = vec![
        JsonValue::Number(JsonNumber::PosInt(7)),
        as_text("a.json"),
        as_text("true"),
        as_text("fast"),
        JsonValue::Number(JsonNumber::PosInt(2)),
        as_text("v"),
        JsonValue::Bool(true),
    ];
    let plugins = load_plugin_env_vars("X", &vars, &parsed);
    assert_eq!(plugins.len(), 2);
    let json = plugins.get_ref("json").unwrap();
    assert_eq!(json.priority, Some(7));
    assert_eq!(json.output, Some("a.json".to_string()));
    assert!(json.enabled);
    let timer = plugins.get_ref("timer").unwrap();
    assert!(!timer.enabled);
    assert_eq!(timer.get_string("mode"), Some("fast".to_string()));
}

#[test]
fn environment_small_parsers() {
    assert_eq!(parse_u8("0"), Some(0));
    assert_eq!(parse_u8("255"), Some(255));
    assert_eq!(parse_u8("+12"), Some(12));
    assert_eq!(parse_u8("256"), None);
    assert_eq!(parse_u8(""), None);
    assert_eq!(parse_u8("+"), None);
    assert_eq!(parse_u8("-1"), None);
    assert_eq!(parse_u8("1x"), None);
    assert_eq!(split_char("a,,b", ','), vec!["a".to_string(), "".to_string(), "b".to_string()]);
    assert_eq!(split_char("", ','), vec!["".to_string()]);
    assert_eq!(trim_text("\t a b \n"), "a b");
    assert_eq!(trim_text("   "), "");
    assert_eq!(comma_list("x, y"), vec!["x".to_string(), "y".to_string()]);
    assert_eq!(plugin_var_of("R", "R_MY_OPT_NAME"), Some(("my".to_string(), "opt_name".to_string())));
    assert_eq!(plugin_var_of("R", "R_OUTPUT"), None);
}

#[test]
fn environment_standard_paths() {
    let paths = standard_config_paths(Some("/home/u"), Some("/xdg/"));
    assert_eq!(
        paths,
        vec![
            "/etc/rustible/callbacks.toml".to_string(),
            "/etc/rustible/callbacks.yml".to_string(),
            "/home/u/.rustible/callbacks.toml".to_string(),
            "/home/u/.rustible/callbacks.yml".to_string(),
            "/home/u/.config/rustible/callbacks.toml".to_string(),
            "/xdg/rustible/callbacks.toml".to_string(),
            "rustible-callbacks.toml".to_string(),
            ".rustible/callbacks.toml".to_string(),
        ]
    );
    assert_eq!(standard_config_paths(None, None).len(), 4);
}

#[test]
fn environment_loader_order() {
    let loader = CallbackConfigLoader::new().without_standard_locations().with_verbosity(2).with_plugin("dense");
    let mut file = CallbackConfig::default();
    file.plugin = "json".to_string();
    file.verbosity = 3;
    file.show_diff = true;
    let mut env = CallbackConfig::default();
    env.plugin = "minimal".to_string();
    let config = loader.load_from(vec![file], Some(env));
    assert_eq!(config.plugin, "dense");
    assert_eq!(config.verbosity, 2);
    assert!(config.show_diff);
}
