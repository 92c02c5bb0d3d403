//! Creating callback plugins by name.
//!
//! The factory knows the built-in plugins, describes them, resolves a name
//! (case-insensitively, with aliases) to a plugin and its settings, and
//! reports unknown names with the list of known ones.
use vstd::prelude::*;
use crate::config::{config_settings, plugin_enabled, plugin_map, CallbackConfig, PluginConfig};
use crate::plugins::dense::{by_name, sort_names, stable_sort};
use crate::table::{views, HostTable};
use crate::diff::{default_diff_config, DiffConfig};
use crate::text::{
    ascii_lowercase_word, join_seq, join_strs, lowercase, push_str, replace_char, replace_chars, str_eq, str_views,
    to_lowercase,
};

verus! {

// ---------------------------------------------------------------------------
// Errors
// ---------------------------------------------------------------------------

/// Types of errors that can occur in the plugin factory.
#[derive(Clone, Copy, Debug, PartialEq, Eq, Structural)]
pub enum PluginFactoryErrorKind {
    /// The requested plugin was not found.
    UnknownPlugin,
    /// Invalid configuration was provided.
    InvalidConfig,
    /// Plugin initialization failed.
    InitializationFailed,
}

/// Error type for plugin factory operations.
#[derive(Debug)]
pub struct PluginFactoryError {
    /// The kind of error that occurred.
    pub kind: PluginFactoryErrorKind,
    /// Additional context about the error.
    pub message: String,
}

/// The names of the built-in plugins, in the order they are listed.
pub open spec fn builtin_names() -> Seq<Seq<char>> {
    seq!["minimal"@, "null"@, "summary"@, "progress"@, "selective"@, "diff"@]
}

/// The message of an unknown-plugin error for `name`.
pub open spec fn unknown_plugin_message(name: Seq<char>) -> Seq<char> {
    "'"@ + name + "'. Available plugins: "@ + join_seq(builtin_names(), ", "@)
}

/// The prefix that the display form puts before the message.
pub open spec fn error_prefix(kind: PluginFactoryErrorKind) -> Seq<char> {
    match kind {
        PluginFactoryErrorKind::UnknownPlugin => "Unknown plugin: "@,
        PluginFactoryErrorKind::InvalidConfig => "Invalid configuration: "@,
        PluginFactoryErrorKind::InitializationFailed => "Plugin initialization failed: "@,
    }
}

impl PluginFactoryError {
    /// An error for an unknown plugin; the message lists the known ones.
    pub fn unknown_plugin(name: &str) -> (e: Self)
        ensures
            e.kind == PluginFactoryErrorKind::UnknownPlugin,
            e.message@ == unknown_plugin_message(name@),
    {
        let names = PluginFactory::available_plugin_names();
        let mut message = String::new();
        push_str(&mut message, "'");
        push_str(&mut message, name);
        push_str(&mut message, "'. Available plugins: ");
        let joined = join_strs(&names, ", ");
        push_str(&mut message, joined.as_str());
        proof {
            assert(str_views(names@) =~= builtin_names());
            assert(message@ =~= unknown_plugin_message(name@));
        }
        PluginFactoryError { kind: PluginFactoryErrorKind::UnknownPlugin, message }
    }

    /// An error for invalid configuration.
    pub fn invalid_config(message: &str) -> (e: Self)
        ensures
            e.kind == PluginFactoryErrorKind::InvalidConfig,
            e.message@ == message@,
    {
        PluginFactoryError { kind: PluginFactoryErrorKind::InvalidConfig, message: message.to_owned() }
    }

    /// An error for an initialization failure.
    pub fn init_failed(message: &str) -> (e: Self)
        ensures
            e.kind == PluginFactoryErrorKind::InitializationFailed,
            e.message@ == message@,
    {
        PluginFactoryError {
            kind: PluginFactoryErrorKind::InitializationFailed,
            message: message.to_owned(),
        }
    }

    /// The display form: a prefix naming the kind, then the message.
    pub fn to_string(&self) -> (s: String)
        ensures
            s@ == error_prefix(self.kind) + self.message@,
    {
        let mut s = String::new();
        match self.kind {
            PluginFactoryErrorKind::UnknownPlugin => push_str(&mut s, "Unknown plugin: "),
            PluginFactoryErrorKind::InvalidConfig => push_str(&mut s, "Invalid configuration: "),
            PluginFactoryErrorKind::InitializationFailed => {
                push_str(&mut s, "Plugin initialization failed: ")
            },
        }
        push_str(&mut s, self.message.as_str());
        proof {
            assert(s@ =~= error_prefix(self.kind) + self.message@);
        }
        s
    }
}

// ---------------------------------------------------------------------------
// Plugin information
// ---------------------------------------------------------------------------

/// Type/category of a callback plugin.
#[derive(Clone, Copy, Debug, PartialEq, Eq, Structural)]
pub enum PluginType {
    /// Stdout/display plugins for terminal output.
    Stdout,
    /// Notification plugins (email, slack, etc.).
    Notification,
    /// Logging/output file plugins.
    Logging,
    /// Aggregation/statistics plugins.
    Aggregate,
}

/// The display name of a plugin type.
pub open spec fn plugin_type_name(t: PluginType) -> Seq<char> {
    match t {
        PluginType::Stdout => "stdout"@,
        PluginType::Notification => "notification"@,
        PluginType::Logging => "logging"@,
        PluginType::Aggregate => "aggregate"@,
    }
}

impl PluginType {
    /// The display name of the type.
    pub fn as_str(&self) -> (s: &'static str)
        ensures
            s@ == plugin_type_name(*self),
    {
        match self {
            PluginType::Stdout => "stdout",
            PluginType::Notification => "notification",
            PluginType::Logging => "logging",
            PluginType::Aggregate => "aggregate",
        }
    }
}

/// Information about a plugin configuration option.
#[derive(Clone, Debug)]
pub struct PluginOptionInfo {
    /// Option name.
    pub name: &'static str,
    /// Option description.
    pub description: &'static str,
    /// Option type.
    pub option_type: &'static str,
    /// Default value as string.
    pub default: &'static str,
}

/// Information about an available plugin.
#[derive(Clone, Debug)]
pub struct PluginInfo {
    /// The plugin's unique name.
    pub name: &'static str,
    /// A brief description of the plugin.
    pub description: &'static str,
    /// The plugin type/category.
    pub plugin_type: PluginType,
    /// Available configuration options.
    pub options: Vec<PluginOptionInfo>,
}

/// An option as plain text: name, description, type and default.
pub type OptionText = (Seq<char>, Seq<char>, Seq<char>, Seq<char>);

/// A plugin description as plain values.
pub type PluginText = (Seq<char>, Seq<char>, PluginType, Seq<OptionText>);

/// The plain form of an option description.
pub open spec fn option_text(o: PluginOptionInfo) -> OptionText {
    (o.name@, o.description@, o.option_type@, o.default@)
}

/// The plain form of a plugin description.
pub open spec fn plugin_text(p: PluginInfo) -> PluginText {
    (p.name@, p.description@, p.plugin_type, p.options@.map_values(|o: PluginOptionInfo| option_text(o)))
}

/// The option lists of the built-in plugins, in the order of `builtin_names`.
pub open spec fn builtin_options(i: int) -> Seq<OptionText> {
    if i == 2 {
        seq![
            ("show_per_host"@, "Show per-host statistics breakdown"@, "bool"@, "true"@),
            ("show_timing"@, "Show task timing information"@, "bool"@, "true"@),
            ("use_colors"@, "Use ANSI colors in output"@, "bool"@, "true"@),
        ]
    } else if i == 3 {
        seq![
            ("show_host_bars"@, "Show individual progress bars per host"@, "bool"@, "true"@),
            ("use_colors"@, "Use colored progress bars"@, "bool"@, "true"@),
        ]
    } else if i == 4 {
        seq![
            ("show_ok"@, "Show OK tasks"@, "bool"@, "true"@),
            ("show_changed"@, "Show changed tasks"@, "bool"@, "true"@),
            ("show_skipped"@, "Show skipped tasks"@, "bool"@, "false"@),
            ("show_failed"@, "Show failed tasks"@, "bool"@, "true"@),
        ]
    } else if i == 5 {
        seq![
            ("context_lines"@, "Number of context lines around changes"@, "integer"@, "3"@),
            ("use_colors"@, "Use ANSI colors for diffs"@, "bool"@, "true"@),
        ]
    } else {
        seq![]
    }
}

/// The descriptions of the built-in plugins, in the order of `builtin_names`.
pub open spec fn builtin_description(i: int) -> Seq<char> {
    if i == 0 {
        "Minimal output - only failures and final recap (ideal for CI/CD)"@
    } else if i == 1 {
        "Silent callback - produces no output (for scripting)"@
    } else if i == 2 {
        "Summary callback with customizable output and unreachable host handling"@
    } else if i == 3 {
        "Visual progress bars for playbook execution (requires indicatif)"@
    } else if i == 4 {
        "Selective output based on status filters (ok, changed, failed, etc.)"@
    } else {
        "Shows before/after diffs for changed files"@
    }
}

/// The description of the built-in plugin at position `i`.
pub open spec fn builtin_plugin(i: int) -> PluginText {
    (builtin_names()[i], builtin_description(i), PluginType::Stdout, builtin_options(i))
}

/// The built-in names are words of small ASCII letters, so neither `_` nor
/// `-` occurs in them.
proof fn lemma_builtin_words()
    ensures
        forall|j: int| 0 <= j < 6 ==> ascii_lowercase_word(#[trigger] builtin_names()[j]),
        forall|j: int| 0 <= j < 6 ==> replace_char(#[trigger] builtin_names()[j], '_', '-') == builtin_names()[j],
        forall|j: int| 0 <= j < 6 ==> replace_char(#[trigger] builtin_names()[j], '-', '_') == builtin_names()[j],
{
    reveal_strlit("minimal");
    reveal_strlit("null");
    reveal_strlit("summary");
    reveal_strlit("progress");
    reveal_strlit("selective");
    reveal_strlit("diff");
    assert forall|j: int| 0 <= j < 6 implies ascii_lowercase_word(#[trigger] builtin_names()[j])
        && replace_char(builtin_names()[j], '_', '-') =~= builtin_names()[j]
        && replace_char(builtin_names()[j], '-', '_') =~= builtin_names()[j] by {
        let n = builtin_names()[j];
        assert(forall|i: int| 0 <= i < n.len() ==> 'a' <= #[trigger] n[i] <= 'z');
    }
}

/// Whether a built-in name `n` answers to the lowercased query `q`: equal to
/// its lowercase form, or to the name with `_` and `-` swapped.
pub open spec fn name_matches(n: Seq<char>, q: Seq<char>) -> bool {
    lowercase(n) == q || replace_char(n, '_', '-') == q || replace_char(n, '-', '_') == q
}

/// Whether some built-in plugin answers to `name`.
pub open spec fn spec_plugin_exists(name: Seq<char>) -> bool {
    exists|i: int| 0 <= i < 6 && name_matches(#[trigger] builtin_names()[i], lowercase(name))
}

/// The first built-in plugin that answers to `name`.
pub open spec fn first_match(name: Seq<char>, i: int) -> bool {
    &&& 0 <= i < 6
    &&& name_matches(builtin_names()[i], lowercase(name))
    &&& forall|j: int| 0 <= j < i ==> !name_matches(#[trigger] builtin_names()[j], lowercase(name))
}

fn option(
    name: &'static str,
    description: &'static str,
    option_type: &'static str,
    default: &'static str,
) -> (o: PluginOptionInfo)
    ensures
        option_text(o) == (name@, description@, option_type@, default@),
{
    PluginOptionInfo { name, description, option_type, default }
}

/// Whether the built-in name `n` answers to the lowercased query `q`.
fn matches_name(n: &str, q: &str) -> (b: bool)
    ensures
        b == name_matches(n@, q@),
        ascii_lowercase_word(n@) ==> lowercase(n@) == n@,
{
    let lower = to_lowercase(n);
    if str_eq(lower.as_str(), q) {
        return true;
    }
    let dashed = replace_chars(n, '_', '-');
    if str_eq(dashed.as_str(), q) {
        return true;
    }
    let underscored = replace_chars(n, '-', '_');
    str_eq(underscored.as_str(), q)
}

// ---------------------------------------------------------------------------
// The factory
// ---------------------------------------------------------------------------

/// Factory for creating callback plugins by name.
pub struct PluginFactory;

impl PluginFactory {
    /// The names of all available plugins.
    pub fn available_plugin_names() -> (names: Vec<&'static str>)
        ensures
            str_views(names@) == builtin_names(),
    {
        let mut names: Vec<&'static str> = Vec::new();
        names.push("minimal");
        names.push("null");
        names.push("summary");
        names.push("progress");
        names.push("selective");
        names.push("diff");
        proof {
            assert(str_views(names@) =~= builtin_names());
        }
        names
    }

    /// Detailed information about all available plugins.
    pub fn available_plugins() -> (infos: Vec<PluginInfo>)
        ensures
            infos@.len() == 6,
            forall|i: int| 0 <= i < 6 ==> plugin_text(#[trigger] infos@[i]) == builtin_plugin(i),
    {
        let mut infos: Vec<PluginInfo> = Vec::new();
        infos.push(PluginInfo {
            name: "minimal",
            description: "Minimal output - only failures and final recap (ideal for CI/CD)",
            plugin_type: PluginType::Stdout,
            options: Vec::new(),
        });
        infos.push(PluginInfo {
            name: "null",
            description: "Silent callback - produces no output (for scripting)",
            plugin_type: PluginType::Stdout,
            options: Vec::new(),
        });
        let mut summary = Vec::new();
        summary.push(option("show_per_host", "Show per-host statistics breakdown", "bool", "true"));
        summary.push(option("show_timing", "Show task timing information", "bool", "true"));
        summary.push(option("use_colors", "Use ANSI colors in output", "bool", "true"));
        infos.push(PluginInfo {
            name: "summary",
            description: "Summary callback with customizable output and unreachable host handling",
            plugin_type: PluginType::Stdout,
            options: summary,
        });
        let mut progress = Vec::new();
        progress.push(
            option("show_host_bars", "Show individual progress bars per host", "bool", "true"),
        );
        progress.push(option("use_colors", "Use colored progress bars", "bool", "true"));
        infos.push(PluginInfo {
            name: "progress",
            description: "Visual progress bars for playbook execution (requires indicatif)",
            plugin_type: PluginType::Stdout,
            options: progress,
        });
        let mut selective = Vec::new();
        selective.push(option("show_ok", "Show OK tasks", "bool", "true"));
        selective.push(option("show_changed", "Show changed tasks", "bool", "true"));
        selective.push(option("show_skipped", "Show skipped tasks", "bool", "false"));
        selective.push(option("show_failed", "Show failed tasks", "bool", "true"));
        infos.push(PluginInfo {
            name: "selective",
            description: "Selective output based on status filters (ok, changed, failed, etc.)",
            plugin_type: PluginType::Stdout,
            options: selective,
        });
        let mut diff = Vec::new();
        diff.push(option("context_lines", "Number of context lines around changes", "integer", "3"));
        diff.push(option("use_colors", "Use ANSI colors for diffs", "bool", "true"));
        infos.push(PluginInfo {
            name: "diff",
            description: "Shows before/after diffs for changed files",
            plugin_type: PluginType::Stdout,
            options: diff,
        });
        proof {
            assert forall|i: int| 0 <= i < 6 implies plugin_text(#[trigger] infos@[i]) == builtin_plugin(i) by {
                assert(infos@[i].options@.map_values(|o: PluginOptionInfo| option_text(o)) =~= builtin_options(i));
            }
        }
        infos
    }

    /// Whether a plugin with the given name exists (case-insensitive; `_`
    /// and `-` are interchangeable): exactly when the built-in names hold
    /// its lowercase form.
    pub fn plugin_exists(name: &str) -> (b: bool)
        ensures
            b == spec_plugin_exists(name@),
            b == builtin_names().contains(lowercase(name@)),
    {
        match Self::find_plugin(name) {
            Some(i) => true,
            None => false,
        }
    }

    /// The position of the first built-in plugin that answers to `name`.
    fn find_plugin(name: &str) -> (r: Option<usize>)
        ensures
            match r {
                Some(i) => first_match(name@, i as int) && builtin_names()[i as int] == lowercase(name@),
                None => !spec_plugin_exists(name@) && !builtin_names().contains(lowercase(name@)),
            },
    {
        proof {
            lemma_builtin_words();
        }
        let q = to_lowercase(name);
        let names = Self::available_plugin_names();
        proof {
            assert(names@.len() == str_views(names@).len());
        }
        let mut i: usize = 0;
        while i < names.len()
            invariant
                i <= names@.len(),
                names@.len() == 6,
                str_views(names@) == builtin_names(),
                q@ == lowercase(name@),
                forall|j: int| 0 <= j < i ==> !name_matches(#[trigger] builtin_names()[j], lowercase(name@)),
                forall|j: int| 0 <= j < i ==> lowercase(#[trigger] builtin_names()[j]) == builtin_names()[j],
                forall|j: int| 0 <= j < 6 ==> ascii_lowercase_word(#[trigger] builtin_names()[j]),
                forall|j: int| 0 <= j < 6 ==> replace_char(#[trigger] builtin_names()[j], '_', '-') == builtin_names()[j],
                forall|j: int| 0 <= j < 6 ==> replace_char(#[trigger] builtin_names()[j], '-', '_') == builtin_names()[j],
            decreases names.len() - i,
        {
            proof {
                assert(names@[i as int]@ == builtin_names()[i as int]);
            }
            if matches_name(names[i], q.as_str()) {
                return Some(i);
            }
            i = i + 1;
        }
        proof {
            assert forall|k: int| 0 <= k < 6 implies !name_matches(#[trigger] builtin_names()[k], lowercase(name@)) by {}
        }
        None
    }

    /// Information about a specific plugin: the first one that answers to
    /// `name`, if any.
    pub fn get_plugin_info(name: &str) -> (r: Option<PluginInfo>)
        ensures
            r.is_some() == spec_plugin_exists(name@),
            r.is_some() ==> exists|i: int| first_match(name@, i)
                && plugin_text(r.unwrap()) == builtin_plugin(i),
            r.is_some() == builtin_names().contains(lowercase(name@)),
            r matches Some(p) ==> p.name@ == lowercase(name@) && exists|i: int|
                0 <= i < 6 && builtin_names()[i] == lowercase(name@) && plugin_text(p) == builtin_plugin(i),
    {
        match Self::find_plugin(name) {
            Some(i) => {
                let mut infos = Self::available_plugins();
                let info = infos.remove(i);
                Some(info)
            },
            None => None,
        }
    }
}

// ---------------------------------------------------------------------------
// Creating plugins
// ---------------------------------------------------------------------------

/// What the summary plugin is created with: the global color and timing
/// settings, and the per-plugin overrides that were given (`None` leaves the
/// plugin's own default).
#[derive(Clone, Copy, Debug, PartialEq, Eq, Structural)]
pub struct SummarySettings {
    pub use_colors: bool,
    pub show_timing: bool,
    pub show_host_details: Option<bool>,
    pub compact_mode: Option<bool>,
    pub show_exit_code_hint: Option<bool>,
}

/// What the progress plugin is created with.
#[derive(Clone, Copy, Debug, PartialEq, Eq, Structural)]
pub struct ProgressSettings {
    pub use_color: bool,
    pub show_task_spinners: Option<bool>,
    pub show_elapsed: Option<bool>,
    pub show_eta: Option<bool>,
    pub spinner_tick_ms: Option<u64>,
    pub max_task_spinners: Option<usize>,
}

/// What the selective plugin is created with (`None` leaves the plugin's
/// own default).
#[derive(Clone, Copy, Debug, PartialEq, Eq, Structural)]
pub struct SelectiveSettings {
    pub failures_only: Option<bool>,
    pub changes_only: Option<bool>,
    pub skipped_only: Option<bool>,
    pub verbose: Option<bool>,
}

/// A plugin the factory created, with the settings it was given.
#[derive(Clone, Copy, Debug, PartialEq, Eq, Structural)]
pub enum CreatedPlugin {
    Minimal,
    Null,
    Summary(SummarySettings),
    Progress(ProgressSettings),
    Selective(SelectiveSettings),
    Diff(DiffConfig),
}

/// The per-plugin configuration for `name`, if there is one.
pub open spec fn plugin_entry(c: CallbackConfig, name: Seq<char>) -> Option<PluginConfig> {
    if c.plugins@.contains_key(name) {
        Some(c.plugins@[name])
    } else {
        None
    }
}

/// The boolean option `key` of a plugin configuration.
pub open spec fn opt_bool(p: Option<PluginConfig>, key: Seq<char>) -> Option<bool> {
    match p {
        Some(pc) => match pc.options@.get(key) {
            Some(v) => v.spec_as_bool(),
            None => None,
        },
        None => None,
    }
}

/// The integer option `key` of a plugin configuration.
pub open spec fn opt_i64(p: Option<PluginConfig>, key: Seq<char>) -> Option<i64> {
    match p {
        Some(pc) => match pc.options@.get(key) {
            Some(v) => v.spec_as_i64(),
            None => None,
        },
        None => None,
    }
}

/// `o` when set, else `d`.
pub open spec fn or_else<T>(o: Option<T>, d: T) -> T {
    match o {
        Some(v) => v,
        None => d,
    }
}

/// The settings the summary plugin gets.
pub open spec fn summary_settings(c: CallbackConfig, p: Option<PluginConfig>) -> SummarySettings {
    SummarySettings {
        use_colors: or_else(opt_bool(p, "use_colors"@), c.use_colors),
        show_timing: or_else(opt_bool(p, "show_timing"@), c.show_task_timing),
        show_host_details: opt_bool(p, "show_host_details"@),
        compact_mode: opt_bool(p, "compact_mode"@),
        show_exit_code_hint: opt_bool(p, "show_exit_code_hint"@),
    }
}

/// `o` cast to `u64`, as `as` casts an `i64`.
pub open spec fn opt_as_u64(o: Option<i64>) -> Option<u64> {
    match o {
        Some(v) => Some(v as u64),
        None => None,
    }
}

/// `o` cast to `usize`, as `as` casts an `i64`.
pub open spec fn opt_as_usize(o: Option<i64>) -> Option<usize> {
    match o {
        Some(v) => Some(v as usize),
        None => None,
    }
}

/// The settings the progress plugin gets.
pub open spec fn progress_settings(c: CallbackConfig, p: Option<PluginConfig>) -> ProgressSettings {
    ProgressSettings {
        use_color: or_else(opt_bool(p, "use_color"@), c.use_colors),
        show_task_spinners: opt_bool(p, "show_task_spinners"@),
        show_elapsed: opt_bool(p, "show_elapsed"@),
        show_eta: opt_bool(p, "show_eta"@),
        spinner_tick_ms: opt_as_u64(opt_i64(p, "spinner_tick_ms"@)),
        max_task_spinners: opt_as_usize(opt_i64(p, "max_task_spinners"@)),
    }
}

/// `o` when set, else `d`, where `d` may itself be unset.
pub open spec fn first_set<T>(o: Option<T>, d: Option<T>) -> Option<T> {
    if o is Some {
        o
    } else {
        d
    }
}

/// The settings the selective plugin gets: hiding ok tasks means failures
/// only, hiding skipped tasks turns skipped-only off; the plugin's own
/// options win.
pub open spec fn selective_settings(c: CallbackConfig, p: Option<PluginConfig>) -> SelectiveSettings {
    SelectiveSettings {
        failures_only: first_set(opt_bool(p, "failures_only"@), if !c.show_ok { Some(true) } else { None }),
        changes_only: opt_bool(p, "changes_only"@),
        skipped_only: first_set(opt_bool(p, "skipped_only"@), if !c.show_skipped { Some(false) } else { None }),
        verbose: opt_bool(p, "verbose"@),
    }
}

/// The configuration the diff plugin gets.
pub open spec fn diff_settings(c: CallbackConfig, p: Option<PluginConfig>) -> DiffConfig {
    let d = default_diff_config();
    DiffConfig {
        context_lines: or_else(opt_as_usize(opt_i64(p, "context_lines"@)), d.context_lines),
        use_color: or_else(opt_bool(p, "use_color"@), c.use_colors),
        show_line_numbers: or_else(opt_bool(p, "show_line_numbers"@), d.show_line_numbers),
        max_lines: or_else(opt_as_usize(opt_i64(p, "max_lines"@)), d.max_lines),
        enabled: or_else(opt_bool(p, "enabled"@), c.show_diff),
    }
}

/// What `create` makes of `name` (already lowercased) under `c`.
pub open spec fn created_for(lower: Seq<char>, c: CallbackConfig) -> Option<CreatedPlugin> {
    let p = plugin_entry(c, lower);
    if lower == "minimal"@ {
        Some(CreatedPlugin::Minimal)
    } else if lower == "null"@ || lower == "silent"@ || lower == "quiet"@ {
        Some(CreatedPlugin::Null)
    } else if lower == "summary"@ {
        Some(CreatedPlugin::Summary(summary_settings(c, p)))
    } else if lower == "progress"@ {
        Some(CreatedPlugin::Progress(progress_settings(c, p)))
    } else if lower == "selective"@ {
        Some(CreatedPlugin::Selective(selective_settings(c, p)))
    } else if lower == "diff"@ {
        Some(CreatedPlugin::Diff(diff_settings(c, p)))
    } else {
        None
    }
}

/// The diff plugin is on exactly when its own boolean `enabled` option
/// says so; only where that option is not set does the global `show_diff`
/// decide. Its colors likewise follow its own `use_color` option, else the
/// global `use_colors`.
pub proof fn lemma_diff_plugin_switches(c: CallbackConfig)
    ensures
        created_for("diff"@, c) matches Some(CreatedPlugin::Diff(d)) && {
            let opts = if c.plugins@.contains_key("diff"@) {
                c.plugins@["diff"@].options@
            } else {
                Map::empty()
            };
            &&& match opts.get("enabled"@) {
                Some(crate::types::JsonValue::Bool(b)) => d.enabled == b,
                _ => d.enabled == c.show_diff,
            }
            &&& match opts.get("use_color"@) {
                Some(crate::types::JsonValue::Bool(b)) => d.use_color == b,
                _ => d.use_color == c.use_colors,
            }
        },
{
    reveal_strlit("diff");
    reveal_strlit("minimal");
    reveal_strlit("null");
    reveal_strlit("silent");
    reveal_strlit("quiet");
    reveal_strlit("summary");
    reveal_strlit("progress");
    reveal_strlit("selective");
    assert("diff"@[0] == 'd');
    assert("minimal"@[0] == 'm' && "null"@[0] == 'n' && "silent"@[0] == 's' && "quiet"@[0] == 'q');
    assert("summary"@[0] == 's' && "progress"@[0] == 'p' && "selective"@[0] == 's');
    let p = plugin_entry(c, "diff"@);
    assert(created_for("diff"@, c) == Some(CreatedPlugin::Diff(diff_settings(c, p))));
    let opts = if c.plugins@.contains_key("diff"@) {
        c.plugins@["diff"@].options@
    } else {
        Map::empty()
    };
    assert(opt_bool(p, "enabled"@) == match opts.get("enabled"@) {
        Some(v) => v.spec_as_bool(),
        None => None,
    });
    assert(opt_bool(p, "use_color"@) == match opts.get("use_color"@) {
        Some(v) => v.spec_as_bool(),
        None => None,
    });
}

/// The boolean option `key` that the configuration sets for `plugin`, if
/// it sets one.
pub open spec fn own_bool(c: CallbackConfig, plugin: Seq<char>, key: Seq<char>) -> Option<bool> {
    if c.plugins@.contains_key(plugin) {
        match c.plugins@[plugin].options@.get(key) {
            Some(crate::types::JsonValue::Bool(b)) => Some(b),
            _ => None,
        }
    } else {
        None
    }
}

/// The names of the plugins `create` knows are told apart.
proof fn lemma_plugin_names_differ()
    ensures
        "minimal"@ != "null"@ && "minimal"@ != "silent"@ && "minimal"@ != "quiet"@,
        "summary"@ != "minimal"@ && "summary"@ != "null"@ && "summary"@ != "silent"@ && "summary"@ != "quiet"@,
        "progress"@ != "minimal"@ && "progress"@ != "null"@ && "progress"@ != "silent"@ && "progress"@ != "quiet"@
            && "progress"@ != "summary"@,
        "selective"@ != "minimal"@ && "selective"@ != "null"@ && "selective"@ != "silent"@ && "selective"@
            != "quiet"@ && "selective"@ != "summary"@ && "selective"@ != "progress"@,
{
    reveal_strlit("minimal");
    reveal_strlit("null");
    reveal_strlit("silent");
    reveal_strlit("quiet");
    reveal_strlit("summary");
    reveal_strlit("progress");
    reveal_strlit("selective");
    assert("minimal"@.len() == 7 && "null"@.len() == 4 && "silent"@.len() == 6 && "quiet"@.len() == 5);
    assert("summary"@.len() == 7 && "progress"@.len() == 8 && "selective"@.len() == 9);
    assert("minimal"@[0] == 'm' && "summary"@[0] == 's');
}

/// A plugin's own boolean options win over the global settings: the
/// summary plugin's `use_colors` and `show_timing` (else the global colors
/// and task timing), the progress plugin's `use_color` (else the global
/// colors), and the selective plugin's `failures_only` (else failures only
/// when ok tasks are hidden) and `skipped_only` (else off when skipped
/// tasks are hidden); the options with no global counterpart are passed on
/// as set.
pub proof fn lemma_plugin_own_options(c: CallbackConfig)
    ensures
        created_for("summary"@, c) matches Some(CreatedPlugin::Summary(d)) && {
            &&& d.use_colors == match own_bool(c, "summary"@, "use_colors"@) {
                Some(b) => b,
                None => c.use_colors,
            }
            &&& d.show_timing == match own_bool(c, "summary"@, "show_timing"@) {
                Some(b) => b,
                None => c.show_task_timing,
            }
            &&& d.show_host_details == own_bool(c, "summary"@, "show_host_details"@)
            &&& d.compact_mode == own_bool(c, "summary"@, "compact_mode"@)
            &&& d.show_exit_code_hint == own_bool(c, "summary"@, "show_exit_code_hint"@)
        },
        created_for("progress"@, c) matches Some(CreatedPlugin::Progress(d)) && {
            &&& d.use_color == match own_bool(c, "progress"@, "use_color"@) {
                Some(b) => b,
                None => c.use_colors,
            }
            &&& d.show_task_spinners == own_bool(c, "progress"@, "show_task_spinners"@)
            &&& d.show_elapsed == own_bool(c, "progress"@, "show_elapsed"@)
            &&& d.show_eta == own_bool(c, "progress"@, "show_eta"@)
        },
        created_for("selective"@, c) matches Some(CreatedPlugin::Selective(d)) && {
            &&& d.failures_only == match own_bool(c, "selective"@, "failures_only"@) {
                Some(b) => Some(b),
                None => if !c.show_ok { Some(true) } else { None },
            }
            &&& d.skipped_only == match own_bool(c, "selective"@, "skipped_only"@) {
                Some(b) => Some(b),
                None => if !c.show_skipped { Some(false) } else { None },
            }
            &&& d.changes_only == own_bool(c, "selective"@, "changes_only"@)
            &&& d.verbose == own_bool(c, "selective"@, "verbose"@)
        },
{
    lemma_plugin_names_differ();
}

/// `o` when set, else `d`.
fn bool_or(o: Option<bool>, d: bool) -> (r: bool)
    ensures
        r == or_else(o, d),
{
    match o {
        Some(v) => v,
        None => d,
    }
}

impl PluginFactory {
    /// Creates a plugin by name (case-insensitive; `silent` and `quiet` name
    /// the null plugin), with the settings the configuration gives it.
    pub fn create(name: &str, config: &CallbackConfig) -> (r: Result<CreatedPlugin, PluginFactoryError>)
        requires
            config.wf(),
        ensures
            match created_for(lowercase(name@), *config) {
                Some(p) => r == Ok::<CreatedPlugin, PluginFactoryError>(p),
                None => r matches Err(e) && e.kind == PluginFactoryErrorKind::UnknownPlugin
                    && e.message@ == unknown_plugin_message(name@),
            },
    {
        let lower = to_lowercase(name);
        let l = lower.as_str();
        let pc = config.get_plugin_config(l);
        if str_eq(l, "minimal") {
            Ok(CreatedPlugin::Minimal)
        } else if str_eq(l, "null") || str_eq(l, "silent") || str_eq(l, "quiet") {
            Ok(CreatedPlugin::Null)
        } else if str_eq(l, "summary") {
            Ok(CreatedPlugin::Summary(Self::create_summary(config, pc)))
        } else if str_eq(l, "progress") {
            Ok(CreatedPlugin::Progress(Self::create_progress(config, pc)))
        } else if str_eq(l, "selective") {
            Ok(CreatedPlugin::Selective(Self::create_selective(config, pc)))
        } else if str_eq(l, "diff") {
            Ok(CreatedPlugin::Diff(Self::create_diff(config, pc)))
        } else {
            Err(PluginFactoryError::unknown_plugin(name))
        }
    }

    /// Creates a plugin by name with the default configuration.
    pub fn create_default(name: &str) -> (r: Result<CreatedPlugin, PluginFactoryError>)
        ensures
            match default_created(lowercase(name@)) {
                Some(p) => r == Ok::<CreatedPlugin, PluginFactoryError>(p),
                None => r matches Err(e) && e.kind == PluginFactoryErrorKind::UnknownPlugin
                    && e.message@ == unknown_plugin_message(name@),
            },
    {
        let config = CallbackConfig::default();
        proof {
            let lower = lowercase(name@);
            assert(!plugin_map(config.plugins).contains_key(lower));
            assert(plugin_entry(config, lower) is None);
        }
        Self::create(name, &config)
    }

    /// Creates every plugin named in `names` that exists, in order; unknown
    /// names are passed over.
    pub fn create_many(names: &Vec<&str>, config: &CallbackConfig) -> (r: Vec<CreatedPlugin>)
        requires
            config.wf(),
        ensures
            r@ == created_list(str_views(names@), *config),
    {
        let mut r: Vec<CreatedPlugin> = Vec::new();
        let mut i: usize = 0;
        while i < names.len()
            invariant
                i <= names.len(),
                config.wf(),
                r@ == created_list(str_views(names@.subrange(0, i as int)), *config),
            decreases names.len() - i,
        {
            let created = Self::create(names[i], config);
            proof {
                assert(str_views(names@.subrange(0, i + 1)).drop_last() =~= str_views(names@.subrange(0, i as int)));
            }
            match created {
                Ok(p) => r.push(p),
                Err(_) => {},
            }
            i = i + 1;
        }
        proof {
            assert(names@.subrange(0, i as int) =~= names@);
        }
        r
    }

    /// Creates the plugins listed as enabled in `config` whose own settings
    /// do not switch them off, in list order; unknown names are passed over.
    pub fn create_from_config(config: &CallbackConfig) -> (r: Vec<CreatedPlugin>)
        requires
            config.wf(),
        ensures
            r@ == created_list(
                crate::text::views(config.enabled_plugins@).filter(
                    |n: Seq<char>| plugin_enabled(config_settings(*config), n),
                ),
                *config,
            ),
    {
        let ghost names = crate::text::views(config.enabled_plugins@);
        let ghost f = |n: Seq<char>| plugin_enabled(config_settings(*config), n);
        let mut r: Vec<CreatedPlugin> = Vec::new();
        let mut i: usize = 0;
        while i < config.enabled_plugins.len()
            invariant
                i <= config.enabled_plugins.len(),
                config.wf(),
                names == crate::text::views(config.enabled_plugins@),
                f == (|n: Seq<char>| plugin_enabled(config_settings(*config), n)),
                r@ == created_list(names.take(i as int).filter(f), *config),
            decreases config.enabled_plugins.len() - i,
        {
            let name = config.enabled_plugins[i].as_str();
            proof {
                reveal(Seq::filter);
                assert(names.take(i + 1).drop_last() =~= names.take(i as int));
                assert(names.take(i + 1).last() == name@);
            }
            if config.is_plugin_enabled(name) {
                let created = Self::create(name, config);
                proof {
                    let fl = names.take(i as int).filter(f);
                    assert(names.take(i + 1).filter(f) == fl.push(name@));
                    assert(fl.push(name@).drop_last() =~= fl);
                }
                match created {
                    Ok(p) => r.push(p),
                    Err(_) => {},
                }
            }
            i = i + 1;
        }
        proof {
            assert(names.take(i as int) =~= names);
        }
        r
    }

    fn create_summary(config: &CallbackConfig, pc: Option<&PluginConfig>) -> (s: SummarySettings)
        requires
            pc matches Some(p) ==> p.wf(),
        ensures
            s == summary_settings(*config, opt_ref(pc)),
    {
        match pc {
            Some(p) => SummarySettings {
                use_colors: bool_or(p.get_bool("use_colors"), config.use_colors),
                show_timing: bool_or(p.get_bool("show_timing"), config.show_task_timing),
                show_host_details: p.get_bool("show_host_details"),
                compact_mode: p.get_bool("compact_mode"),
                show_exit_code_hint: p.get_bool("show_exit_code_hint"),
            },
            None => SummarySettings {
                use_colors: config.use_colors,
                show_timing: config.show_task_timing,
                show_host_details: None,
                compact_mode: None,
                show_exit_code_hint: None,
            },
        }
    }

    fn create_progress(config: &CallbackConfig, pc: Option<&PluginConfig>) -> (s: ProgressSettings)
        requires
            pc matches Some(p) ==> p.wf(),
        ensures
            s == progress_settings(*config, opt_ref(pc)),
    {
        match pc {
            Some(p) => {
                let tick = match p.get_i64("spinner_tick_ms") {
                    Some(v) => Some(v as u64),
                    None => None,
                };
                let max = match p.get_i64("max_task_spinners") {
                    Some(v) => Some(v as usize),
                    None => None,
                };
                ProgressSettings {
                    use_color: bool_or(p.get_bool("use_color"), config.use_colors),
                    show_task_spinners: p.get_bool("show_task_spinners"),
                    show_elapsed: p.get_bool("show_elapsed"),
                    show_eta: p.get_bool("show_eta"),
                    spinner_tick_ms: tick,
                    max_task_spinners: max,
                }
            },
            None => ProgressSettings {
                use_color: config.use_colors,
                show_task_spinners: None,
                show_elapsed: None,
                show_eta: None,
                spinner_tick_ms: None,
                max_task_spinners: None,
            },
        }
    }

    fn create_selective(config: &CallbackConfig, pc: Option<&PluginConfig>) -> (s: SelectiveSettings)
        requires
            pc matches Some(p) ==> p.wf(),
        ensures
            s == selective_settings(*config, opt_ref(pc)),
    {
        let mut s = SelectiveSettings { failures_only: None, changes_only: None, skipped_only: None, verbose: None };
        if !config.show_ok {
            s.failures_only = Some(true);
        }
        if !config.show_skipped {
            s.skipped_only = Some(false);
        }
        match pc {
            Some(p) => {
                match p.get_bool("failures_only") {
                    Some(v) => s.failures_only = Some(v),
                    None => {},
                }
                match p.get_bool("changes_only") {
                    Some(v) => s.changes_only = Some(v),
                    None => {},
                }
                match p.get_bool("skipped_only") {
                    Some(v) => s.skipped_only = Some(v),
                    None => {},
                }
                match p.get_bool("verbose") {
                    Some(v) => s.verbose = Some(v),
                    None => {},
                }
            },
            None => {},
        }
        s
    }

    fn create_diff(config: &CallbackConfig, pc: Option<&PluginConfig>) -> (d: DiffConfig)
        requires
            pc matches Some(p) ==> p.wf(),
        ensures
            d == diff_settings(*config, opt_ref(pc)),
    {
        let mut d = DiffConfig::default();
        d.use_color = config.use_colors;
        d.enabled = config.show_diff;
        match pc {
            Some(p) => {
                match p.get_i64("context_lines") {
                    Some(v) => d.context_lines = v as usize,
                    None => {},
                }
                match p.get_bool("use_color") {
                    Some(v) => d.use_color = v,
                    None => {},
                }
                match p.get_bool("show_line_numbers") {
                    Some(v) => d.show_line_numbers = v,
                    None => {},
                }
                match p.get_i64("max_lines") {
                    Some(v) => d.max_lines = v as usize,
                    None => {},
                }
                match p.get_bool("enabled") {
                    Some(v) => d.enabled = v,
                    None => {},
                }
            },
            None => {},
        }
        d
    }
}

/// What `create` makes of `name` (already lowercased) under the default
/// configuration: colors on, timing off, ok and skipped tasks shown, diffs
/// off, no per-plugin options.
pub open spec fn default_created(lower: Seq<char>) -> Option<CreatedPlugin> {
    if lower == "minimal"@ {
        Some(CreatedPlugin::Minimal)
    } else if lower == "null"@ || lower == "silent"@ || lower == "quiet"@ {
        Some(CreatedPlugin::Null)
    } else if lower == "summary"@ {
        Some(CreatedPlugin::Summary(SummarySettings {
            use_colors: true,
            show_timing: false,
            show_host_details: None,
            compact_mode: None,
            show_exit_code_hint: None,
        }))
    } else if lower == "progress"@ {
        Some(CreatedPlugin::Progress(ProgressSettings {
            use_color: true,
            show_task_spinners: None,
            show_elapsed: None,
            show_eta: None,
            spinner_tick_ms: None,
            max_task_spinners: None,
        }))
    } else if lower == "selective"@ {
        Some(CreatedPlugin::Selective(SelectiveSettings {
            failures_only: None,
            changes_only: None,
            skipped_only: None,
            verbose: None,
        }))
    } else if lower == "diff"@ {
        Some(CreatedPlugin::Diff(DiffConfig { use_color: true, enabled: false, ..default_diff_config() }))
    } else {
        None
    }
}

/// The value behind an optional reference.
pub open spec fn opt_ref(o: Option<&PluginConfig>) -> Option<PluginConfig> {
    match o {
        Some(p) => Some(*p),
        None => None,
    }
}

/// The plugins made from a list of names, unknown names passed over.
pub open spec fn created_list(names: Seq<Seq<char>>, c: CallbackConfig) -> Seq<CreatedPlugin>
    decreases names.len(),
{
    if names.len() == 0 {
        Seq::empty()
    } else {
        let init = created_list(names.drop_last(), c);
        match created_for(lowercase(names.last()), c) {
            Some(p) => init.push(p),
            None => init,
        }
    }
}


// ---------------------------------------------------------------------------
// Registry of plugin factories
// ---------------------------------------------------------------------------

/// What a registry holds under a name: a built-in plugin (by its name) or a
/// factory of the user's.
#[derive(Debug)]
pub enum RegistryEntry<F> {
    Builtin(String),
    Custom(F),
}

/// What the registry chose to create a plugin with.
#[derive(Debug)]
pub enum Chosen<'a, F> {
    /// A factory registered by the user, to be called with the configuration.
    Custom(&'a F),
    /// A built-in plugin, created.
    Builtin(CreatedPlugin),
}

/// The built-in names of `bs` that `m` does not hold, in order.
pub open spec fn absent_names<T>(bs: Seq<Seq<char>>, m: Map<Seq<char>, T>) -> Seq<Seq<char>>
    decreases bs.len(),
{
    if bs.len() == 0 {
        Seq::empty()
    } else {
        absent_names(bs.drop_last(), m) + if m.contains_key(bs.last()) {
            Seq::<Seq<char>>::empty()
        } else {
            seq![bs.last()]
        }
    }
}

/// Plugin factories by (lower-case) name; names it does not hold fall back
/// to the built-in plugins.
#[derive(Debug)]
pub struct PluginRegistry<F> {
    factories: HostTable<RegistryEntry<F>>,
}

impl<F> PluginRegistry<F> {
    /// The table is well formed.
    pub closed spec fn wf(&self) -> bool {
        self.factories.wf()
    }

    /// The entries by name.
    pub closed spec fn entries(&self) -> Map<Seq<char>, RegistryEntry<F>> {
        self.factories@
    }

    /// The names in the order they were registered.
    pub closed spec fn names(&self) -> Seq<Seq<char>> {
        self.factories.names()
    }

    /// An empty registry.
    pub fn new() -> (r: Self)
        ensures
            r.wf(),
            r.entries() == Map::<Seq<char>, RegistryEntry<F>>::empty(),
            r.names() == Seq::<Seq<char>>::empty(),
    {
        PluginRegistry { factories: HostTable::new() }
    }

    /// A registry that holds every built-in plugin under its lower-case name.
    pub fn with_builtins() -> (r: Self)
        ensures
            r.wf(),
            forall|k: Seq<char>| #[trigger] r.entries().contains_key(k) <==> exists|i: int|
                0 <= i < builtin_names().len() && k == lowercase(#[trigger] builtin_names()[i]),
            forall|i: int| 0 <= i < builtin_names().len() ==> (r.entries()[lowercase(#[trigger] builtin_names()[i])]
                matches RegistryEntry::Builtin(b) && lowercase(b@) == lowercase(builtin_names()[i])),
    {
        let names = PluginFactory::available_plugin_names();
        let mut r = Self::new();
        let mut i: usize = 0;
        while i < names.len()
            invariant
                i <= names.len(),
                str_views(names@) == builtin_names(),
                r.wf(),
                forall|k: Seq<char>| #[trigger] r.entries().contains_key(k) <==> exists|j: int|
                    0 <= j < i && k == lowercase(#[trigger] builtin_names()[j]),
                forall|j: int| 0 <= j < i ==> (r.entries()[lowercase(#[trigger] builtin_names()[j])]
                    matches RegistryEntry::Builtin(b) && lowercase(b@) == lowercase(builtin_names()[j])),
            decreases names.len() - i,
        {
            let name = names[i];
            let ghost before = r.entries();
            proof {
                assert(str_views(names@)[i as int] == name@);
            }
            r.register_entry(name, RegistryEntry::Builtin(name.to_owned()));
            proof {
                assert forall|k: Seq<char>| #[trigger] r.entries().contains_key(k) <==> exists|j: int|
                    0 <= j < i + 1 && k == lowercase(#[trigger] builtin_names()[j]) by {
                    if r.entries().contains_key(k) && k != lowercase(name@) {
                        assert(before.contains_key(k));
                    }
                    if k == lowercase(name@) {
                        assert(0 <= i < i + 1 && k == lowercase(builtin_names()[i as int]));
                    }
                    if exists|j: int| 0 <= j < i + 1 && k == lowercase(#[trigger] builtin_names()[j]) {
                        let j = choose|j: int| 0 <= j < i + 1 && k == lowercase(#[trigger] builtin_names()[j]);
                        if j < i {
                            assert(before.contains_key(k));
                        }
                    }
                }
                assert forall|j: int| 0 <= j < i + 1 implies (r.entries()[lowercase(#[trigger] builtin_names()[j])]
                    matches RegistryEntry::Builtin(b) && lowercase(b@) == lowercase(builtin_names()[j])) by {
                    if lowercase(builtin_names()[j]) != lowercase(name@) {
                        assert(before.contains_key(lowercase(builtin_names()[j])));
                    }
                }
            }
            i = i + 1;
        }
        r
    }

    fn register_entry(&mut self, name: &str, entry: RegistryEntry<F>)
        requires
            old(self).wf(),
        ensures
            final(self).wf(),
            final(self).entries() == old(self).entries().insert(lowercase(name@), entry),
            old(self).entries().contains_key(lowercase(name@)) ==> final(self).names() == old(self).names(),
            !old(self).entries().contains_key(lowercase(name@)) ==> final(self).names() == old(self).names().push(
                lowercase(name@),
            ),
    {
        let key = to_lowercase(name);
        self.factories.set(key.as_str(), entry);
    }

    /// Registers a factory under the lower-case form of `name`, replacing
    /// what was there.
    pub fn register(&mut self, name: &str, factory: F)
        requires
            old(self).wf(),
        ensures
            final(self).wf(),
            final(self).entries() == old(self).entries().insert(lowercase(name@), RegistryEntry::Custom(factory)),
            old(self).entries().contains_key(lowercase(name@)) ==> final(self).names() == old(self).names(),
            !old(self).entries().contains_key(lowercase(name@)) ==> final(self).names() == old(self).names().push(
                lowercase(name@),
            ),
    {
        self.register_entry(name, RegistryEntry::Custom(factory));
    }

    /// Removes what is registered under the lower-case form of `name`;
    /// whether there was something.
    pub fn unregister(&mut self, name: &str) -> (b: bool)
        requires
            old(self).wf(),
        ensures
            final(self).wf(),
            final(self).entries() == old(self).entries().remove(lowercase(name@)),
            b == old(self).entries().contains_key(lowercase(name@)),
    {
        let key = to_lowercase(name);
        let r = self.factories.remove(key.as_str());
        r.is_some()
    }

    /// Whether something is registered under the lower-case form of `name`.
    pub fn is_registered(&self, name: &str) -> (b: bool)
        requires
            self.wf(),
        ensures
            b == self.entries().contains_key(lowercase(name@)),
    {
        let key = to_lowercase(name);
        self.factories.contains(key.as_str())
    }

    /// The registered names, in the order they were registered.
    pub fn registered_names(&self) -> (r: Vec<&str>)
        requires
            self.wf(),
        ensures
            str_views(r@) == self.names(),
    {
        let mut r: Vec<&str> = Vec::new();
        let n = self.factories.len();
        let mut i: usize = 0;
        while i < n
            invariant
                i <= n,
                n == self.names().len(),
                self.wf(),
                str_views(r@) == self.names().subrange(0, i as int),
            decreases n - i,
        {
            let (k, _) = self.factories.entry_ref(i);
            let ghost before = str_views(r@);
            r.push(k.as_str());
            proof {
                assert(str_views(r@) =~= before.push(k@));
                assert(self.names().subrange(0, i + 1) =~= self.names().subrange(0, i as int).push(k@));
            }
            i = i + 1;
        }
        proof {
            assert(self.names().subrange(0, i as int) =~= self.names());
        }
        r
    }

    /// The registered names and the built-in names not registered, sorted.
    pub fn all_available_names(&self) -> (r: Vec<String>)
        requires
            self.wf(),
        ensures
            views(r@) == stable_sort(self.names() + absent_names(builtin_names(), self.entries()), by_name()),
    {
        let mut all: Vec<String> = Vec::new();
        let n = self.factories.len();
        let mut i: usize = 0;
        while i < n
            invariant
                i <= n,
                n == self.names().len(),
                self.wf(),
                views(all@) == self.names().subrange(0, i as int),
            decreases n - i,
        {
            let (k, _) = self.factories.entry_ref(i);
            let ghost before = views(all@);
            all.push(k.clone());
            proof {
                assert(views(all@) =~= before.push(k@));
                assert(self.names().subrange(0, i + 1) =~= self.names().subrange(0, i as int).push(k@));
            }
            i = i + 1;
        }
        proof {
            assert(self.names().subrange(0, i as int) =~= self.names());
        }
        let builtins = PluginFactory::available_plugin_names();
        let ghost head = views(all@);
        let mut j: usize = 0;
        while j < builtins.len()
            invariant
                j <= builtins.len(),
                self.wf(),
                str_views(builtins@) == builtin_names(),
                head == self.names(),
                views(all@) == head + absent_names(builtin_names().subrange(0, j as int), self.entries()),
            decreases builtins.len() - j,
        {
            let b = builtins[j];
            let ghost before = views(all@);
            proof {
                assert(str_views(builtins@)[j as int] == b@);
                let sub = builtin_names().subrange(0, j + 1);
                assert(sub.drop_last() =~= builtin_names().subrange(0, j as int));
                assert(sub.last() == b@);
            }
            if !self.factories.contains(b) {
                all.push(b.to_owned());
                proof {
                    assert(views(all@) =~= before.push(b@));
                }
            }
            proof {
                assert(views(all@) =~= head + absent_names(builtin_names().subrange(0, j + 1), self.entries()));
            }
            j = j + 1;
        }
        proof {
            assert(builtin_names().subrange(0, j as int) =~= builtin_names());
        }
        sort_names(all)
    }

    /// Chooses how to create the plugin `name`: the factory registered
    /// under its lower-case form; a built-in registered there, created by
    /// its own name; otherwise whatever the built-in factory makes of `name`.
    pub fn create<'a>(&'a self, name: &str, config: &CallbackConfig) -> (r: Result<Chosen<'a, F>, PluginFactoryError>)
        requires
            self.wf(),
            config.wf(),
        ensures
            match self.entries().get(lowercase(name@)) {
                Some(RegistryEntry::Custom(f)) => r matches Ok(Chosen::Custom(g)) && *g == f,
                Some(RegistryEntry::Builtin(b)) => {
                    match created_for(lowercase(b@), *config) {
                        Some(p) => r matches Ok(Chosen::Builtin(q)) && q == p,
                        None => r matches Err(e) && e.kind == PluginFactoryErrorKind::UnknownPlugin && e.message@
                            == unknown_plugin_message(b@),
                    }
                },
                None => match created_for(lowercase(name@), *config) {
                    Some(p) => r matches Ok(Chosen::Builtin(q)) && q == p,
                    None => r matches Err(e) && e.kind == PluginFactoryErrorKind::UnknownPlugin && e.message@
                        == unknown_plugin_message(name@),
                },
            },
    {
        let key = to_lowercase(name);
        match self.factories.get_ref(key.as_str()) {
            Some(RegistryEntry::Custom(f)) => Ok(Chosen::Custom(f)),
            Some(RegistryEntry::Builtin(b)) => match PluginFactory::create(b.as_str(), config) {
                Ok(p) => Ok(Chosen::Builtin(p)),
                Err(e) => Err(e),
            },
            None => match PluginFactory::create(name, config) {
                Ok(p) => Ok(Chosen::Builtin(p)),
                Err(e) => Err(e),
            },
        }
    }
}

impl<F> Default for PluginRegistry<F> {
    fn default() -> (r: Self)
        ensures
            r.wf(),
            r.entries() == Map::<Seq<char>, RegistryEntry<F>>::empty(),
    {
        Self::new()
    }
}

} // verus!
