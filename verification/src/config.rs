//! Callback configuration: which plugins run, how verbose they are, and the
//! per-plugin options.
//!
//! Configurations come from several sources (defaults, files, environment,
//! command line) and are merged in that order, later sources taking
//! precedence. Values that equal the defaults do not override.
use vstd::prelude::*;
use crate::table::{drop_name, views, HostTable};
use crate::text::{str_eq};
use crate::types::{copy_json, int_number, jview, JsonNumber, JsonValue, JsonView};

verus! {

// ---------------------------------------------------------------------------
// Plain views
// ---------------------------------------------------------------------------

/// The content of an option table.
pub open spec fn json_map(m: Map<Seq<char>, JsonValue>) -> Map<Seq<char>, JsonView> {
    m.map_values(|v: JsonValue| jview(v))
}

/// The characters of an optional string.
pub open spec fn opt_view(o: Option<String>) -> Option<Seq<char>> {
    match o {
        Some(s) => Some(s@),
        None => None,
    }
}

/// What a plugin configuration holds, as plain values.
pub ghost struct PluginSettings {
    pub enabled: bool,
    pub priority: Option<i32>,
    pub output: Option<Seq<char>>,
    pub options: Map<Seq<char>, JsonView>,
}

/// The settings of a plugin configuration.
pub open spec fn settings_of(p: PluginConfig) -> PluginSettings {
    PluginSettings {
        enabled: p.enabled,
        priority: p.priority,
        output: opt_view(p.output),
        options: json_map(p.options@),
    }
}

/// `b` merged into `a`: `b` enables, its priority and output replace `a`'s
/// when set, and its options replace `a`'s of the same name.
pub open spec fn merge_settings(a: PluginSettings, b: PluginSettings) -> PluginSettings {
    PluginSettings {
        enabled: a.enabled || b.enabled,
        priority: if b.priority is Some { b.priority } else { a.priority },
        output: if b.output is Some { b.output } else { a.output },
        options: a.options.union_prefer_right(b.options),
    }
}

/// The settings of every plugin in a table.
pub open spec fn plugin_map(t: HostTable<PluginConfig>) -> Map<Seq<char>, PluginSettings> {
    t@.map_values(|p: PluginConfig| settings_of(p))
}

/// Per-plugin settings `b` merged into `a`, plugin by plugin.
pub open spec fn merge_plugin_maps(
    a: Map<Seq<char>, PluginSettings>,
    b: Map<Seq<char>, PluginSettings>,
) -> Map<Seq<char>, PluginSettings> {
    Map::new(
        |k: Seq<char>| a.contains_key(k) || b.contains_key(k),
        |k: Seq<char>|
            if a.contains_key(k) && b.contains_key(k) {
                merge_settings(a[k], b[k])
            } else if b.contains_key(k) {
                b[k]
            } else {
                a[k]
            },
    )
}

/// The names among the first `i` of `ns`.
pub open spec fn prefix_set(ns: Seq<Seq<char>>, i: int) -> Set<Seq<char>> {
    Set::new(|k: Seq<char>| exists|j: int| 0 <= j < i && ns[j] == k)
}

/// One more name joins the prefix set.
proof fn lemma_prefix_set_step(ns: Seq<Seq<char>>, i: int)
    requires
        0 <= i < ns.len(),
    ensures
        prefix_set(ns, i + 1) == prefix_set(ns, i).insert(ns[i]),
{
    assert forall|k: Seq<char>| prefix_set(ns, i + 1).contains(k) <==> prefix_set(ns, i).insert(ns[i]).contains(k) by {
        if prefix_set(ns, i + 1).contains(k) {
            let j = choose|j: int| 0 <= j < i + 1 && ns[j] == k;
            if j < i {
                assert(prefix_set(ns, i).contains(k));
            }
        }
        if prefix_set(ns, i).contains(k) {
            let j = choose|j: int| 0 <= j < i && ns[j] == k;
            assert(0 <= j < i + 1 && ns[j] == k);
        }
        if k == ns[i] {
            assert(0 <= i < i + 1 && ns[i] == k);
        }
    }
    assert(prefix_set(ns, i + 1) =~= prefix_set(ns, i).insert(ns[i]));
}

// ---------------------------------------------------------------------------
// Per-plugin configuration
// ---------------------------------------------------------------------------

/// Configuration for a specific callback plugin.
#[derive(Debug)]
pub struct PluginConfig {
    /// Whether this plugin is enabled.
    pub enabled: bool,
    /// Plugin priority (lower values run first).
    pub priority: Option<i32>,
    /// Output destination override for this plugin.
    pub output: Option<String>,
    /// Plugin-specific options.
    pub options: HostTable<JsonValue>,
}

/// The settings of a plugin configuration made with `default`.
pub open spec fn default_settings(enabled: bool) -> PluginSettings {
    PluginSettings {
        enabled,
        priority: None,
        output: None,
        options: Map::empty(),
    }
}

impl Default for PluginConfig {
    fn default() -> (p: Self)
        ensures
            p.options.wf(),
            settings_of(p) == default_settings(false),
    {
        PluginConfig::with_enabled(false)
    }
}

impl PluginConfig {
    /// The option table is well formed.
    pub open spec fn wf(&self) -> bool {
        self.options.wf()
    }

    fn with_enabled(enabled: bool) -> (p: Self)
        ensures
            p.wf(),
            settings_of(p) == default_settings(enabled),
    {
        let p = PluginConfig { enabled, priority: None, output: None, options: HostTable::new() };
        proof {
            assert(json_map(p.options@) =~= Map::empty());
        }
        p
    }

    /// A new enabled plugin configuration.
    pub fn enabled() -> (p: Self)
        ensures
            p.wf(),
            settings_of(p) == default_settings(true),
    {
        Self::with_enabled(true)
    }

    /// A new disabled plugin configuration.
    pub fn disabled() -> (p: Self)
        ensures
            p.wf(),
            settings_of(p) == default_settings(false),
    {
        Self::with_enabled(false)
    }

    /// The option `key` as a string, if it is one.
    pub fn get_string(&self, key: &str) -> (r: Option<String>)
        requires
            self.wf(),
        ensures
            opt_view(r) == match self.options@.get(key@) {
                Some(v) => v.spec_as_str(),
                None => None,
            },
    {
        match self.options.get_ref(key) {
            Some(v) => match v.as_str() {
                Some(s) => Some(s.to_owned()),
                None => None,
            },
            None => None,
        }
    }

    /// The option `key` as a boolean, if it is one.
    pub fn get_bool(&self, key: &str) -> (r: Option<bool>)
        requires
            self.wf(),
        ensures
            r == match self.options@.get(key@) {
                Some(v) => v.spec_as_bool(),
                None => None,
            },
    {
        match self.options.get_ref(key) {
            Some(v) => v.as_bool(),
            None => None,
        }
    }

    /// The option `key` as an integer, if it is one that fits in `i64`.
    pub fn get_i64(&self, key: &str) -> (r: Option<i64>)
        requires
            self.wf(),
        ensures
            r == match self.options@.get(key@) {
                Some(v) => v.spec_as_i64(),
                None => None,
            },
    {
        match self.options.get_ref(key) {
            Some(v) => v.as_i64(),
            None => None,
        }
    }

    /// Sets the option `key`.
    pub fn set_option(&mut self, key: &str, value: JsonValue)
        requires
            old(self).wf(),
        ensures
            final(self).wf(),
            final(self).enabled == old(self).enabled,
            final(self).priority == old(self).priority,
            final(self).output == old(self).output,
            final(self).options@ == old(self).options@.insert(key@, value),
    {
        self.options.set(key, value);
    }

    /// Merges `other` into this configuration: `other` enables, its
    /// priority and output replace these when set, and its options replace
    /// options of the same name.
    pub fn merge(&mut self, other: &PluginConfig)
        requires
            old(self).wf(),
            other.wf(),
        ensures
            final(self).wf(),
            settings_of(*final(self)) == merge_settings(settings_of(*old(self)), settings_of(*other)),
    {
        let ghost start = json_map(self.options@);
        let n = other.options.len();
        proof {
            other.options.lemma_view();
        }
        let mut i: usize = 0;
        while i < n
            invariant
                self.options.wf(),
                other.options.wf(),
                self.enabled == old(self).enabled,
                self.priority == old(self).priority,
                self.output == old(self).output,
                n == other.options.names().len(),
                i <= n,
                json_map(self.options@) == start.union_prefer_right(
                    json_map(other.options@).restrict(prefix_set(other.options.names(), i as int)),
                ),
            decreases n - i,
        {
            let (k, v) = other.options.entry_ref(i);
            let c = copy_json(v);
            let ghost before = json_map(self.options@);
            self.options.set(k.as_str(), c);
            proof {
                let ns = other.options.names();
                lemma_prefix_set_step(ns, i as int);
                assert(json_map(self.options@) =~= before.insert(k@, jview(c)));
                assert(json_map(self.options@) =~= start.union_prefer_right(
                    json_map(other.options@).restrict(prefix_set(ns, i + 1)),
                ));
            }
            i = i + 1;
        }
        if other.enabled {
            self.enabled = true;
        }
        if other.priority.is_some() {
            self.priority = other.priority;
        }
        match &other.output {
            Some(o) => {
                self.output = Some(o.as_str().to_owned());
            },
            None => {},
        }
        proof {
            let ns = other.options.names();
            assert forall|k: Seq<char>| prefix_set(ns, n as int).contains(k) <==> other.options@.contains_key(k) by {
                if prefix_set(ns, n as int).contains(k) {
                    let j = choose|j: int| 0 <= j < n && ns[j] == k;
                    assert(ns.contains(k));
                }
                if other.options@.contains_key(k) {
                    assert(ns.contains(k));
                    let j = choose|j: int| 0 <= j < ns.len() && ns[j] == k;
                }
            }
            assert(json_map(other.options@).restrict(prefix_set(ns, n as int)) =~= json_map(other.options@));
            let m = merge_settings(settings_of(*old(self)), settings_of(*other));
            assert(self.enabled == m.enabled);
            assert(self.priority == m.priority);
            assert(opt_view(self.output) == m.output);
            assert(json_map(self.options@) == m.options);
        }
    }
}

// ---------------------------------------------------------------------------
// The callback configuration
// ---------------------------------------------------------------------------

/// Configuration for the callback system.
#[derive(Debug)]
pub struct CallbackConfig {
    /// Name of the callback plugin (e.g. "default", "json", "minimal").
    pub plugin: String,
    /// Default callback plugin to use when none is specified.
    pub default_plugin: String,
    /// Enabled callback plugins (several can run at once).
    pub enabled_plugins: Vec<String>,
    /// Verbosity level (0 = quiet, 1 = normal, 2 = verbose, 3 = debug, 4 = trace).
    pub verbosity: u8,
    /// Whether to show diff output for changed files.
    pub show_diff: bool,
    /// Whether we're in check mode (dry run).
    pub check_mode: bool,
    /// Output destination: "stdout", "stderr", or a file path.
    pub output: String,
    /// Whether to use colored output.
    pub use_colors: bool,
    /// Whether to display task timing information.
    pub show_task_timing: bool,
    /// Whether to show skipped tasks.
    pub show_skipped: bool,
    /// Whether to show ok tasks (not changed).
    pub show_ok: bool,
    /// Whether to display the play recap at the end.
    pub show_recap: bool,
    /// Per-plugin configuration.
    pub plugins: HostTable<PluginConfig>,
    /// Additional arbitrary options (for custom plugins).
    pub options: HostTable<JsonValue>,
}

/// What a callback configuration holds, as plain values.
pub ghost struct ConfigSettings {
    pub plugin: Seq<char>,
    pub default_plugin: Seq<char>,
    pub enabled_plugins: Seq<Seq<char>>,
    pub verbosity: u8,
    pub show_diff: bool,
    pub check_mode: bool,
    pub output: Seq<char>,
    pub use_colors: bool,
    pub show_task_timing: bool,
    pub show_skipped: bool,
    pub show_ok: bool,
    pub show_recap: bool,
    pub plugins: Map<Seq<char>, PluginSettings>,
    pub options: Map<Seq<char>, JsonView>,
}

/// The settings of a callback configuration.
pub open spec fn config_settings(c: CallbackConfig) -> ConfigSettings {
    ConfigSettings {
        plugin: c.plugin@,
        default_plugin: c.default_plugin@,
        enabled_plugins: views(c.enabled_plugins@),
        verbosity: c.verbosity,
        show_diff: c.show_diff,
        check_mode: c.check_mode,
        output: c.output@,
        use_colors: c.use_colors,
        show_task_timing: c.show_task_timing,
        show_skipped: c.show_skipped,
        show_ok: c.show_ok,
        show_recap: c.show_recap,
        plugins: plugin_map(c.plugins),
        options: json_map(c.options@),
    }
}

/// The settings of the default configuration.
pub open spec fn default_config_settings() -> ConfigSettings {
    ConfigSettings {
        plugin: "default"@,
        default_plugin: "default"@,
        enabled_plugins: seq!["default"@],
        verbosity: 1,
        show_diff: false,
        check_mode: false,
        output: "stdout"@,
        use_colors: true,
        show_task_timing: false,
        show_skipped: true,
        show_ok: true,
        show_recap: true,
        plugins: Map::empty(),
        options: Map::empty(),
    }
}

/// `b` merged into `a`: each setting of `b` that differs from its default
/// replaces `a`'s (flags only ever move away from their defaults), plugin
/// settings are merged plugin by plugin, and `b`'s options win.
pub open spec fn merge_config(a: ConfigSettings, b: ConfigSettings) -> ConfigSettings {
    ConfigSettings {
        plugin: if b.plugin != "default"@ { b.plugin } else { a.plugin },
        default_plugin: if b.default_plugin != "default"@ { b.default_plugin } else { a.default_plugin },
        enabled_plugins: if b.enabled_plugins.len() != 0 && b.enabled_plugins != seq!["default"@] {
            b.enabled_plugins
        } else {
            a.enabled_plugins
        },
        verbosity: if b.verbosity != 1 { b.verbosity } else { a.verbosity },
        show_diff: a.show_diff || b.show_diff,
        check_mode: a.check_mode || b.check_mode,
        output: if b.output != "stdout"@ { b.output } else { a.output },
        use_colors: a.use_colors && b.use_colors,
        show_task_timing: a.show_task_timing || b.show_task_timing,
        show_skipped: a.show_skipped && b.show_skipped,
        show_ok: a.show_ok && b.show_ok,
        show_recap: a.show_recap && b.show_recap,
        plugins: merge_plugin_maps(a.plugins, b.plugins),
        options: a.options.union_prefer_right(b.options),
    }
}

/// Whether `name` is enabled: listed, and not switched off in its own
/// settings.
pub open spec fn plugin_enabled(c: ConfigSettings, name: Seq<char>) -> bool {
    c.enabled_plugins.contains(name) && (c.plugins.contains_key(name) ==> c.plugins[name].enabled)
}

impl Default for CallbackConfig {
    fn default() -> (c: Self)
        ensures
            c.wf(),
            config_settings(c) == default_config_settings(),
    {
        let mut enabled_plugins = Vec::new();
        enabled_plugins.push("default".to_owned());
        let c = CallbackConfig {
            plugin: "default".to_owned(),
            default_plugin: "default".to_owned(),
            enabled_plugins,
            verbosity: 1,
            show_diff: false,
            check_mode: false,
            output: "stdout".to_owned(),
            use_colors: true,
            show_task_timing: false,
            show_skipped: true,
            show_ok: true,
            show_recap: true,
            plugins: HostTable::new(),
            options: HostTable::new(),
        };
        proof {
            assert(views(c.enabled_plugins@) =~= seq!["default"@]);
            assert(plugin_map(c.plugins) =~= Map::empty());
            assert(json_map(c.options@) =~= Map::empty());
        }
        c
    }
}

impl CallbackConfig {
    /// The tables are well formed, and so is every plugin's option table.
    pub open spec fn wf(&self) -> bool {
        &&& self.plugins.wf()
        &&& self.options.wf()
        &&& forall|k: Seq<char>| #[trigger] self.plugins@.contains_key(k) ==> self.plugins@[k].wf()
    }

    /// A configuration with default values.
    pub fn new() -> (c: Self)
        ensures
            c.wf(),
            config_settings(c) == default_config_settings(),
    {
        Self::default()
    }

    /// A configuration that uses `plugin` and nothing else.
    pub fn for_plugin(plugin: &str) -> (c: Self)
        ensures
            c.wf(),
            config_settings(c) == (ConfigSettings {
                plugin: plugin@,
                default_plugin: plugin@,
                enabled_plugins: seq![plugin@],
                ..default_config_settings()
            }),
    {
        let mut c = Self::default();
        c.plugin = plugin.to_owned();
        c.default_plugin = plugin.to_owned();
        let mut enabled = Vec::new();
        enabled.push(plugin.to_owned());
        c.enabled_plugins = enabled;
        proof {
            assert(views(c.enabled_plugins@) =~= seq![plugin@]);
        }
        c
    }

    /// The configuration of plugin `plugin_name`, if there is one.
    pub fn get_plugin_config(&self, plugin_name: &str) -> (r: Option<&PluginConfig>)
        requires
            self.wf(),
        ensures
            r.is_some() == self.plugins@.contains_key(plugin_name@),
            r.is_some() ==> *r.unwrap() == self.plugins@[plugin_name@] && r.unwrap().wf(),
    {
        self.plugins.get_ref(plugin_name)
    }

    /// The configuration of plugin `plugin_name`, created (disabled, with no
    /// options) if there was none; what is written through the reference
    /// becomes that plugin's configuration.
    pub fn get_or_create_plugin_config(&mut self, plugin_name: &str) -> (r: &mut PluginConfig)
        requires
            old(self).wf(),
        ensures
            settings_of(*r) == if old(self).plugins@.contains_key(plugin_name@) {
                settings_of(old(self).plugins@[plugin_name@])
            } else {
                default_settings(false)
            },
            r.wf(),
            final(self).plugins.wf(),
            final(self).plugins@ == old(self).plugins@.insert(plugin_name@, *final(r)),
            final(r).wf() ==> final(self).wf(),
            config_settings(*final(self)) == (ConfigSettings {
                plugins: plugin_map(final(self).plugins),
                ..config_settings(*old(self))
            }),
    {
        if !self.plugins.contains(plugin_name) {
            self.plugins.set(plugin_name, PluginConfig::default());
        }
        self.plugins.get_mut(plugin_name)
    }

    /// Whether `plugin_name` is enabled: listed in `enabled_plugins`, and not
    /// switched off in its own configuration.
    pub fn is_plugin_enabled(&self, plugin_name: &str) -> (b: bool)
        requires
            self.wf(),
        ensures
            b == plugin_enabled(config_settings(*self), plugin_name@),
    {
        if contains_name(&self.enabled_plugins, plugin_name) {
            match self.plugins.get_ref(plugin_name) {
                Some(p) => p.enabled,
                None => true,
            }
        } else {
            false
        }
    }

    /// Sets the verbosity, capped at 4.
    pub fn set_verbosity(&mut self, level: u8)
        ensures
            final(self).verbosity == if level < 4 { level } else { 4 },
            config_settings(*final(self)) == (ConfigSettings {
                verbosity: final(self).verbosity,
                ..config_settings(*old(self))
            }),
    {
        self.verbosity = if level < 4 { level } else { 4 };
    }

    /// Enables a plugin: lists it (once) and switches it on in its own
    /// configuration, creating that if needed.
    pub fn enable_plugin(&mut self, plugin_name: &str)
        requires
            old(self).wf(),
        ensures
            final(self).wf(),
            config_settings(*final(self)).enabled_plugins == if config_settings(
                *old(self),
            ).enabled_plugins.contains(plugin_name@) {
                config_settings(*old(self)).enabled_plugins
            } else {
                config_settings(*old(self)).enabled_plugins.push(plugin_name@)
            },
            plugin_map(final(self).plugins) == plugin_map(old(self).plugins).insert(
                plugin_name@,
                if old(self).plugins@.contains_key(plugin_name@) {
                    PluginSettings { enabled: true, ..settings_of(old(self).plugins@[plugin_name@]) }
                } else {
                    default_settings(true)
                },
            ),
            plugin_enabled(config_settings(*final(self)), plugin_name@),
    {
        if !contains_name(&self.enabled_plugins, plugin_name) {
            self.enabled_plugins.push(plugin_name.to_owned());
            proof {
                assert(views(self.enabled_plugins@) =~= views(old(self).enabled_plugins@).push(plugin_name@));
            }
        }
        let ghost mid = self.plugins@;
        let p = self.get_or_create_plugin_config(plugin_name);
        p.enabled = true;
        proof {
            assert(plugin_map(self.plugins) =~= plugin_map(old(self).plugins).insert(
                plugin_name@,
                if old(self).plugins@.contains_key(plugin_name@) {
                    PluginSettings { enabled: true, ..settings_of(old(self).plugins@[plugin_name@]) }
                } else {
                    default_settings(true)
                },
            ));
            assert(views(self.enabled_plugins@).contains(plugin_name@)) by {
                if views(old(self).enabled_plugins@).contains(plugin_name@) {
                } else {
                    assert(views(self.enabled_plugins@)[views(self.enabled_plugins@).len() - 1] == plugin_name@);
                }
            }
        }
    }

    /// Disables a plugin: removes it from `enabled_plugins` and switches it
    /// off in its own configuration, if it has one.
    pub fn disable_plugin(&mut self, plugin_name: &str)
        requires
            old(self).wf(),
        ensures
            final(self).wf(),
            config_settings(*final(self)).enabled_plugins == drop_name(
                config_settings(*old(self)).enabled_plugins,
                plugin_name@,
            ),
            plugin_map(final(self).plugins) == if old(self).plugins@.contains_key(plugin_name@) {
                plugin_map(old(self).plugins).insert(
                    plugin_name@,
                    PluginSettings { enabled: false, ..settings_of(old(self).plugins@[plugin_name@]) },
                )
            } else {
                plugin_map(old(self).plugins)
            },
            !plugin_enabled(config_settings(*final(self)), plugin_name@),
    {
        let kept = without_name(&self.enabled_plugins, plugin_name);
        self.enabled_plugins = kept;
        if self.plugins.contains(plugin_name) {
            let p = self.plugins.get_mut(plugin_name);
            p.enabled = false;
            proof {
                assert(plugin_map(self.plugins) =~= plugin_map(old(self).plugins).insert(
                    plugin_name@,
                    PluginSettings { enabled: false, ..settings_of(old(self).plugins@[plugin_name@]) },
                ));
            }
        }
        proof {
            lemma_drop_name_absent(views(old(self).enabled_plugins@), plugin_name@);
        }
    }

    /// Merges `other` into this configuration; `other` takes precedence where
    /// it differs from the defaults.
    pub fn merge(&mut self, other: CallbackConfig)
        requires
            old(self).wf(),
            other.wf(),
        ensures
            final(self).wf(),
            config_settings(*final(self)) == merge_config(config_settings(*old(self)), config_settings(other)),
    {
        let ghost a = config_settings(*self);
        let ghost b = config_settings(other);
        let CallbackConfig {
            plugin,
            default_plugin,
            enabled_plugins,
            verbosity,
            show_diff,
            check_mode,
            output,
            use_colors,
            show_task_timing,
            show_skipped,
            show_ok,
            show_recap,
            plugins,
            options,
        } = other;
        self.merge_names(plugin, default_plugin, enabled_plugins, output);
        self.merge_flags(
            verbosity,
            show_diff,
            check_mode,
            use_colors,
            show_task_timing,
            show_skipped,
            show_ok,
            show_recap,
        );
        merge_plugin_tables(&mut self.plugins, plugins);
        self.options.absorb(options);
        proof {
            assert(json_map(self.options@) =~= a.options.union_prefer_right(b.options));
        }
    }

    /// The name-valued part of `merge`.
    fn merge_names(
        &mut self,
        plugin: String,
        default_plugin: String,
        enabled_plugins: Vec<String>,
        output: String,
    )
        ensures
            final(self).plugin@ == if plugin@ != "default"@ { plugin@ } else { old(self).plugin@ },
            final(self).default_plugin@ == if default_plugin@ != "default"@ {
                default_plugin@
            } else {
                old(self).default_plugin@
            },
            views(final(self).enabled_plugins@) == if views(enabled_plugins@).len() != 0 && views(
                enabled_plugins@,
            ) != seq!["default"@] {
                views(enabled_plugins@)
            } else {
                views(old(self).enabled_plugins@)
            },
            final(self).output@ == if output@ != "stdout"@ { output@ } else { old(self).output@ },
            final(self).verbosity == old(self).verbosity,
            final(self).show_diff == old(self).show_diff,
            final(self).check_mode == old(self).check_mode,
            final(self).use_colors == old(self).use_colors,
            final(self).show_task_timing == old(self).show_task_timing,
            final(self).show_skipped == old(self).show_skipped,
            final(self).show_ok == old(self).show_ok,
            final(self).show_recap == old(self).show_recap,
            final(self).plugins == old(self).plugins,
            final(self).options == old(self).options,
    {
        if !str_eq(plugin.as_str(), "default") {
            self.plugin = plugin;
        }
        if !str_eq(default_plugin.as_str(), "default") {
            self.default_plugin = default_plugin;
        }
        if !is_default_list(&enabled_plugins) {
            self.enabled_plugins = enabled_plugins;
        }
        if !str_eq(output.as_str(), "stdout") {
            self.output = output;
        }
    }

    /// The flag part of `merge`.
    fn merge_flags(
        &mut self,
        verbosity: u8,
        show_diff: bool,
        check_mode: bool,
        use_colors: bool,
        show_task_timing: bool,
        show_skipped: bool,
        show_ok: bool,
        show_recap: bool,
    )
        ensures
            final(self).verbosity == if verbosity != 1 { verbosity } else { old(self).verbosity },
            final(self).show_diff == (old(self).show_diff || show_diff),
            final(self).check_mode == (old(self).check_mode || check_mode),
            final(self).use_colors == (old(self).use_colors && use_colors),
            final(self).show_task_timing == (old(self).show_task_timing || show_task_timing),
            final(self).show_skipped == (old(self).show_skipped && show_skipped),
            final(self).show_ok == (old(self).show_ok && show_ok),
            final(self).show_recap == (old(self).show_recap && show_recap),
            final(self).plugin == old(self).plugin,
            final(self).default_plugin == old(self).default_plugin,
            final(self).enabled_plugins == old(self).enabled_plugins,
            final(self).output == old(self).output,
            final(self).plugins == old(self).plugins,
            final(self).options == old(self).options,
    {
        if verbosity != 1 {
            self.verbosity = verbosity;
        }
        if show_diff {
            self.show_diff = true;
        }
        if check_mode {
            self.check_mode = true;
        }
        if !use_colors {
            self.use_colors = false;
        }
        if show_task_timing {
            self.show_task_timing = true;
        }
        if !show_skipped {
            self.show_skipped = false;
        }
        if !show_ok {
            self.show_ok = false;
        }
        if !show_recap {
            self.show_recap = false;
        }
    }
}

/// Merges every plugin configuration of `other` into `t`.
fn merge_plugin_tables(t: &mut HostTable<PluginConfig>, other: HostTable<PluginConfig>)
    requires
        old(t).wf(),
        other.wf(),
        forall|k: Seq<char>| #[trigger] old(t)@.contains_key(k) ==> old(t)@[k].wf(),
        forall|k: Seq<char>| #[trigger] other@.contains_key(k) ==> other@[k].wf(),
    ensures
        final(t).wf(),
        forall|k: Seq<char>| #[trigger] final(t)@.contains_key(k) ==> final(t)@[k].wf(),
        plugin_map(*final(t)) == merge_plugin_maps(plugin_map(*old(t)), plugin_map(other)),
{
    let mut rest = other;
    while rest.len() > 0
        invariant
            t.wf(),
            rest.wf(),
            forall|k: Seq<char>| #[trigger] t@.contains_key(k) ==> t@[k].wf(),
            forall|k: Seq<char>| #[trigger] rest@.contains_key(k) ==> rest@[k].wf(),
            merge_plugin_maps(plugin_map(*t), plugin_map(rest)) == merge_plugin_maps(
                plugin_map(*old(t)),
                plugin_map(other),
            ),
        decreases rest.names().len(),
    {
        let ghost t_before = plugin_map(*t);
        let ghost rest_before = plugin_map(rest);
        let ghost rest_raw = rest@;
        match rest.pop_last() {
            Some((name, config)) => {
                proof {
                    assert(rest_raw.contains_key(name@));
                    assert(rest_raw[name@] == config);
                }
                if t.contains(name.as_str()) {
                    let existing = t.get_mut(name.as_str());
                    existing.merge(&config);
                } else {
                    t.set(name.as_str(), config);
                }
                proof {
                    assert forall|k: Seq<char>| #[trigger] rest@.contains_key(k) implies rest@[k].wf() by {
                        assert(rest_raw.contains_key(k));
                    }
                    assert(merge_plugin_maps(plugin_map(*t), plugin_map(rest)) =~= merge_plugin_maps(
                        t_before,
                        rest_before,
                    ));
                }
            },
            None => {},
        }
    }
    proof {
        rest.lemma_view();
        assert(plugin_map(rest) =~= Map::empty());
        assert(merge_plugin_maps(plugin_map(*t), plugin_map(rest)) =~= plugin_map(*t));
    }
}

/// Whether `v` holds `name`.
fn contains_name(v: &Vec<String>, name: &str) -> (b: bool)
    ensures
        b == views(v@).contains(name@),
{
    let mut i: usize = 0;
    while i < v.len()
        invariant
            i <= v.len(),
            forall|j: int| 0 <= j < i ==> v@[j]@ != name@,
        decreases v.len() - i,
    {
        if str_eq(v[i].as_str(), name) {
            proof {
                assert(views(v@)[i as int] == name@);
            }
            return true;
        }
        i = i + 1;
    }
    false
}

/// `v` without the occurrences of `name`.
fn without_name(v: &Vec<String>, name: &str) -> (r: Vec<String>)
    ensures
        views(r@) == drop_name(views(v@), name@),
{
    let mut r: Vec<String> = Vec::new();
    let mut i: usize = 0;
    while i < v.len()
        invariant
            i <= v.len(),
            views(r@) == drop_name(views(v@.subrange(0, i as int)), name@),
        decreases v.len() - i,
    {
        let ghost prev = views(v@.subrange(0, i as int));
        if !str_eq(v[i].as_str(), name) {
            r.push(v[i].clone());
        }
        proof {
            let cur = views(v@.subrange(0, i + 1));
            assert(cur.drop_last() =~= prev);
            assert(cur.last() == v@[i as int]@);
            assert(views(r@) =~= drop_name(cur, name@));
        }
        i = i + 1;
    }
    proof {
        assert(v@.subrange(0, i as int) =~= v@);
    }
    r
}

/// Whether `v` is empty or is exactly `["default"]`.
fn is_default_list(v: &Vec<String>) -> (b: bool)
    ensures
        b == (views(v@).len() == 0 || views(v@) == seq!["default"@]),
{
    if v.len() == 0 {
        return true;
    }
    proof {
        assert(views(v@)[0] == v@[0]@);
    }
    if v.len() == 1 && str_eq(v[0].as_str(), "default") {
        proof {
            assert(views(v@) =~= seq!["default"@]);
        }
        return true;
    }
    false
}

/// A name dropped from a list no longer occurs in it.
pub proof fn lemma_drop_name_absent(ks: Seq<Seq<char>>, k: Seq<char>)
    ensures
        !drop_name(ks, k).contains(k),
    decreases ks.len(),
{
    if ks.len() > 0 {
        lemma_drop_name_absent(ks.drop_last(), k);
        if ks.last() != k {
            let r = drop_name(ks.drop_last(), k);
            assert forall|j: int| 0 <= j < r.push(ks.last()).len() implies r.push(ks.last())[j] != k by {
                if j < r.len() {
                    assert(!r.contains(k));
                    if r[j] == k {
                        assert(r.contains(k));
                    }
                }
            }
        }
    }
}

/// A configuration from command-line arguments: the callback (if given)
/// becomes the plugin, the default plugin and the only enabled plugin.
pub fn config_from_cli(
    callback: Option<&str>,
    verbosity: u8,
    show_diff: bool,
    check_mode: bool,
    no_color: bool,
) -> (c: CallbackConfig)
    ensures
        c.wf(),
        config_settings(c) == (ConfigSettings {
            plugin: match callback {
                Some(cb) => cb@,
                None => "default"@,
            },
            default_plugin: match callback {
                Some(cb) => cb@,
                None => "default"@,
            },
            enabled_plugins: match callback {
                Some(cb) => seq![cb@],
                None => seq!["default"@],
            },
            verbosity,
            show_diff,
            check_mode,
            use_colors: !no_color,
            ..default_config_settings()
        }),
{
    let mut c = match callback {
        Some(cb) => CallbackConfig::for_plugin(cb),
        None => CallbackConfig::default(),
    };
    c.verbosity = verbosity;
    c.show_diff = show_diff;
    c.check_mode = check_mode;
    c.use_colors = !no_color;
    c
}

// ---------------------------------------------------------------------------
// Laws
// ---------------------------------------------------------------------------

/// Merging a default configuration changes nothing.
pub proof fn lemma_merge_default_is_identity(a: ConfigSettings)
    ensures
        merge_config(a, default_config_settings()) == a,
{
    assert(merge_plugin_maps(a.plugins, Map::empty()) =~= a.plugins);
    assert(a.options.union_prefer_right(Map::empty()) =~= a.options);
}

/// Merging the same configuration twice is the same as merging it once.
pub proof fn lemma_merge_idempotent(a: ConfigSettings, b: ConfigSettings)
    ensures
        merge_config(merge_config(a, b), b) == merge_config(a, b),
{
    let m = merge_plugin_maps(a.plugins, b.plugins);
    assert forall|k: Seq<char>| #[trigger] merge_plugin_maps(m, b.plugins).contains_key(k) implies merge_plugin_maps(m, b.plugins)[k] == m[k] by {
        if m.contains_key(k) && b.plugins.contains_key(k) {
            let x = m[k];
            let y = b.plugins[k];
            assert(x.options.union_prefer_right(y.options) =~= x.options);
            if a.plugins.contains_key(k) {
                assert(a.plugins[k].options.union_prefer_right(y.options).union_prefer_right(y.options)
                    =~= a.plugins[k].options.union_prefer_right(y.options));
            }
        }
    }
    assert(merge_plugin_maps(m, b.plugins) =~= m);
    assert(a.options.union_prefer_right(b.options).union_prefer_right(b.options) =~= a.options.union_prefer_right(b.options));
}


// ---------------------------------------------------------------------------
// Builders for the configuration of particular plugins
// ---------------------------------------------------------------------------

/// `s` with the option `key` set to `v`.
pub open spec fn with_option(s: PluginSettings, key: Seq<char>, v: JsonView) -> PluginSettings {
    PluginSettings { options: s.options.insert(key, v), ..s }
}

/// Setting an option sets its content.
proof fn lemma_json_map_insert(m: Map<Seq<char>, JsonValue>, k: Seq<char>, v: JsonValue)
    ensures
        json_map(m.insert(k, v)) == json_map(m).insert(k, jview(v)),
{
    assert(json_map(m.insert(k, v)) =~= json_map(m).insert(k, jview(v)));
}

/// Builds the configuration of the timer plugin.
#[derive(Debug)]
pub struct TimerPluginConfig {
    inner: PluginConfig,
}

impl Default for TimerPluginConfig {
    fn default() -> (c: Self)
        ensures
            c.wf(),
            c.settings() == default_settings(false),
    {
        TimerPluginConfig { inner: PluginConfig::disabled() }
    }
}

impl TimerPluginConfig {
    /// The configuration is well formed.
    pub closed spec fn wf(&self) -> bool {
        self.inner.wf()
    }

    /// What the configuration holds.
    pub closed spec fn settings(&self) -> PluginSettings {
        settings_of(self.inner)
    }

    /// An enabled timer configuration with no options.
    pub fn new() -> (c: Self)
        ensures
            c.wf(),
            c.settings() == default_settings(true),
    {
        TimerPluginConfig { inner: PluginConfig::enabled() }
    }

    /// Whether timing is shown after each task.
    pub fn show_per_task(self, enabled: bool) -> (c: Self)
        requires
            self.wf(),
        ensures
            c.wf(),
            c.settings() == with_option(self.settings(), "show_per_task"@, JsonView::Bool(enabled)),
    {
        let mut c = self;
        let ghost before = c.inner.options@;
        let v = JsonValue::Bool(enabled);
        proof {
            lemma_json_map_insert(before, "show_per_task"@, v);
        }
        c.inner.set_option("show_per_task", v);
        c
    }

    /// Whether a timing summary is shown at the end.
    pub fn show_summary(self, enabled: bool) -> (c: Self)
        requires
            self.wf(),
        ensures
            c.wf(),
            c.settings() == with_option(self.settings(), "show_summary"@, JsonView::Bool(enabled)),
    {
        let mut c = self;
        let ghost before = c.inner.options@;
        let v = JsonValue::Bool(enabled);
        proof {
            lemma_json_map_insert(before, "show_summary"@, v);
        }
        c.inner.set_option("show_summary", v);
        c
    }

    /// How many of the slowest tasks are shown.
    pub fn top_slowest(self, count: usize) -> (c: Self)
        requires
            self.wf(),
        ensures
            c.wf(),
            c.settings() == with_option(self.settings(), "top_slowest"@, JsonView::Number(int_number(count as i64))),
    {
        let mut c = self;
        let ghost before = c.inner.options@;
        let v = JsonValue::from_i64(#[verifier::truncate] (count as i64));
        proof {
            lemma_json_map_insert(before, "top_slowest"@, v);
        }
        c.inner.set_option("top_slowest", v);
        c
    }

    /// The least time, in seconds, for which a task's timing is shown (the
    /// number as JSON holds it).
    pub fn threshold_secs(self, seconds: JsonNumber) -> (c: Self)
        requires
            self.wf(),
        ensures
            c.wf(),
            c.settings() == with_option(self.settings(), "threshold_secs"@, JsonView::Number(seconds)),
    {
        let mut c = self;
        let ghost before = c.inner.options@;
        let v = JsonValue::Number(seconds);
        proof {
            lemma_json_map_insert(before, "threshold_secs"@, v);
        }
        c.inner.set_option("threshold_secs", v);
        c
    }

    /// Whether timing is shown per play.
    pub fn show_play_timing(self, enabled: bool) -> (c: Self)
        requires
            self.wf(),
        ensures
            c.wf(),
            c.settings() == with_option(self.settings(), "show_play_timing"@, JsonView::Bool(enabled)),
    {
        let mut c = self;
        let ghost before = c.inner.options@;
        let v = JsonValue::Bool(enabled);
        proof {
            lemma_json_map_insert(before, "show_play_timing"@, v);
        }
        c.inner.set_option("show_play_timing", v);
        c
    }

    /// The plugin configuration built.
    pub fn build(self) -> (p: PluginConfig)
        requires
            self.wf(),
        ensures
            p.wf(),
            settings_of(p) == self.settings(),
    {
        self.inner
    }
}

/// Builds the configuration of the JSON plugin.
#[derive(Debug)]
pub struct JsonPluginConfig {
    inner: PluginConfig,
}

impl Default for JsonPluginConfig {
    fn default() -> (c: Self)
        ensures
            c.wf(),
            c.settings() == default_settings(false),
    {
        JsonPluginConfig { inner: PluginConfig::disabled() }
    }
}

impl JsonPluginConfig {
    /// The configuration is well formed.
    pub closed spec fn wf(&self) -> bool {
        self.inner.wf()
    }

    /// What the configuration holds.
    pub closed spec fn settings(&self) -> PluginSettings {
        settings_of(self.inner)
    }

    /// An enabled JSON configuration with no options.
    pub fn new() -> (c: Self)
        ensures
            c.wf(),
            c.settings() == default_settings(true),
    {
        JsonPluginConfig { inner: PluginConfig::enabled() }
    }

    /// Where the output goes.
    pub fn output(self, path: &str) -> (c: Self)
        requires
            self.wf(),
        ensures
            c.wf(),
            c.settings() == (PluginSettings { output: Some(path@), ..self.settings() }),
    {
        let mut c = self;
        c.inner.output = Some(path.to_owned());
        c
    }

    /// Whether full result data is shown.
    pub fn show_full_result(self, enabled: bool) -> (c: Self)
        requires
            self.wf(),
        ensures
            c.wf(),
            c.settings() == with_option(self.settings(), "show_full_result"@, JsonView::Bool(enabled)),
    {
        let mut c = self;
        let ghost before = c.inner.options@;
        let v = JsonValue::Bool(enabled);
        proof {
            lemma_json_map_insert(before, "show_full_result"@, v);
        }
        c.inner.set_option("show_full_result", v);
        c
    }

    /// Whether task arguments are shown.
    pub fn show_task_args(self, enabled: bool) -> (c: Self)
        requires
            self.wf(),
        ensures
            c.wf(),
            c.settings() == with_option(self.settings(), "show_task_args"@, JsonView::Bool(enabled)),
    {
        let mut c = self;
        let ghost before = c.inner.options@;
        let v = JsonValue::Bool(enabled);
        proof {
            lemma_json_map_insert(before, "show_task_args"@, v);
        }
        c.inner.set_option("show_task_args", v);
        c
    }

    /// The indentation (0 for compact output).
    pub fn indent(self, spaces: usize) -> (c: Self)
        requires
            self.wf(),
        ensures
            c.wf(),
            c.settings() == with_option(self.settings(), "indent"@, JsonView::Number(int_number(spaces as i64))),
    {
        let mut c = self;
        let ghost before = c.inner.options@;
        let v = JsonValue::from_i64(#[verifier::truncate] (spaces as i64));
        proof {
            lemma_json_map_insert(before, "indent"@, v);
        }
        c.inner.set_option("indent", v);
        c
    }

    /// The plugin configuration built.
    pub fn build(self) -> (p: PluginConfig)
        requires
            self.wf(),
        ensures
            p.wf(),
            settings_of(p) == self.settings(),
    {
        self.inner
    }
}

/// Builds the configuration of the task profiling plugin.
#[derive(Debug)]
pub struct ProfileTasksPluginConfig {
    inner: PluginConfig,
}

impl Default for ProfileTasksPluginConfig {
    fn default() -> (c: Self)
        ensures
            c.wf(),
            c.settings() == default_settings(false),
    {
        ProfileTasksPluginConfig { inner: PluginConfig::disabled() }
    }
}

impl ProfileTasksPluginConfig {
    /// The configuration is well formed.
    pub closed spec fn wf(&self) -> bool {
        self.inner.wf()
    }

    /// What the configuration holds.
    pub closed spec fn settings(&self) -> PluginSettings {
        settings_of(self.inner)
    }

    /// An enabled profiling configuration with no options.
    pub fn new() -> (c: Self)
        ensures
            c.wf(),
            c.settings() == default_settings(true),
    {
        ProfileTasksPluginConfig { inner: PluginConfig::enabled() }
    }

    /// The time, in seconds, from which a task counts as slow (the number
    /// as JSON holds it).
    pub fn slow_threshold_secs(self, seconds: JsonNumber) -> (c: Self)
        requires
            self.wf(),
        ensures
            c.wf(),
            c.settings() == with_option(self.settings(), "slow_threshold_secs"@, JsonView::Number(seconds)),
    {
        let mut c = self;
        let ghost before = c.inner.options@;
        let v = JsonValue::Number(seconds);
        proof {
            lemma_json_map_insert(before, "slow_threshold_secs"@, v);
        }
        c.inner.set_option("slow_threshold_secs", v);
        c
    }

    /// The time, in seconds, from which a task counts as a bottleneck (the
    /// number as JSON holds it).
    pub fn bottleneck_threshold_secs(self, seconds: JsonNumber) -> (c: Self)
        requires
            self.wf(),
        ensures
            c.wf(),
            c.settings() == with_option(self.settings(), "bottleneck_threshold_secs"@, JsonView::Number(seconds)),
    {
        let mut c = self;
        let ghost before = c.inner.options@;
        let v = JsonValue::Number(seconds);
        proof {
            lemma_json_map_insert(before, "bottleneck_threshold_secs"@, v);
        }
        c.inner.set_option("bottleneck_threshold_secs", v);
        c
    }

    /// How many tasks the summary shows.
    pub fn top_tasks_count(self, count: usize) -> (c: Self)
        requires
            self.wf(),
        ensures
            c.wf(),
            c.settings() == with_option(self.settings(), "top_tasks_count"@, JsonView::Number(int_number(count as i64))),
    {
        let mut c = self;
        let ghost before = c.inner.options@;
        let v = JsonValue::from_i64(#[verifier::truncate] (count as i64));
        proof {
            lemma_json_map_insert(before, "top_tasks_count"@, v);
        }
        c.inner.set_option("top_tasks_count", v);
        c
    }

    /// Whether a per-host breakdown is shown.
    pub fn show_per_host(self, enabled: bool) -> (c: Self)
        requires
            self.wf(),
        ensures
            c.wf(),
            c.settings() == with_option(self.settings(), "show_per_host"@, JsonView::Bool(enabled)),
    {
        let mut c = self;
        let ghost before = c.inner.options@;
        let v = JsonValue::Bool(enabled);
        proof {
            lemma_json_map_insert(before, "show_per_host"@, v);
        }
        c.inner.set_option("show_per_host", v);
        c
    }

    /// Whether skipped tasks are included.
    pub fn include_skipped(self, enabled: bool) -> (c: Self)
        requires
            self.wf(),
        ensures
            c.wf(),
            c.settings() == with_option(self.settings(), "include_skipped"@, JsonView::Bool(enabled)),
    {
        let mut c = self;
        let ghost before = c.inner.options@;
        let v = JsonValue::Bool(enabled);
        proof {
            lemma_json_map_insert(before, "include_skipped"@, v);
        }
        c.inner.set_option("include_skipped", v);
        c
    }

    /// The plugin configuration built.
    pub fn build(self) -> (p: PluginConfig)
        requires
            self.wf(),
        ensures
            p.wf(),
            settings_of(p) == self.settings(),
    {
        self.inner
    }
}

/// Builds the configuration of the minimal plugin.
#[derive(Debug)]
pub struct MinimalPluginConfig {
    inner: PluginConfig,
}

impl Default for MinimalPluginConfig {
    fn default() -> (c: Self)
        ensures
            c.wf(),
            c.settings() == default_settings(false),
    {
        MinimalPluginConfig { inner: PluginConfig::disabled() }
    }
}

impl MinimalPluginConfig {
    /// The configuration is well formed.
    pub closed spec fn wf(&self) -> bool {
        self.inner.wf()
    }

    /// What the configuration holds.
    pub closed spec fn settings(&self) -> PluginSettings {
        settings_of(self.inner)
    }

    /// An enabled minimal configuration with no options.
    pub fn new() -> (c: Self)
        ensures
            c.wf(),
            c.settings() == default_settings(true),
    {
        MinimalPluginConfig { inner: PluginConfig::enabled() }
    }

    /// The plugin configuration built.
    pub fn build(self) -> (p: PluginConfig)
        requires
            self.wf(),
        ensures
            p.wf(),
            settings_of(p) == self.settings(),
    {
        self.inner
    }
}

} // verus!
