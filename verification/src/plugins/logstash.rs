//! The Logstash plugin: its configuration (also from environment
//! variables), the ECS events it makes of the execution events, their JSON
//! lines, and the batching of lines sent over HTTP.
use vstd::prelude::*;
use crate::config::json_map;
use crate::environment::{ascii_truthy, env_lookup, env_value, is_ascii_truthy, parse_bounded, parsed_bounded, vars_view};
use crate::plugins::actionable::opt_chars;
use crate::table::{views, HostTable};
use crate::text::{dec, join_seq, join_strings, lowercase, push_dec, push_str, str_eq, to_lowercase};
use crate::types::{
    compact_json, compact_text, copy_json, int_number, jview, jview_entries, jview_items, lemma_entries_prefix, outcome_of, ExecutionResult, JsonNumber, JsonValue, JsonView,
    TaskOutcome,
};

verus! {

/// What can go wrong when sending to Logstash.
#[derive(Clone, Debug, PartialEq, Eq)]
pub enum LogstashError {
    /// The connection failed.
    ConnectionFailed(String),
    /// Writing failed.
    WriteFailed(String),
    /// An HTTP request failed.
    HttpError(String),
    /// An event could not be serialized.
    SerializationError(String),
    /// The configuration is wrong.
    ConfigError(String),
}

/// The message of an error.
pub open spec fn error_text(e: LogstashError) -> Seq<char> {
    match e {
        LogstashError::ConnectionFailed(m) => "Connection failed: "@ + m@,
        LogstashError::WriteFailed(m) => "Write failed: "@ + m@,
        LogstashError::HttpError(m) => "HTTP request failed: "@ + m@,
        LogstashError::SerializationError(m) => "Serialization error: "@ + m@,
        LogstashError::ConfigError(m) => "Configuration error: "@ + m@,
    }
}

impl LogstashError {
    /// The message of the error.
    pub fn to_string(&self) -> (s: String)
        ensures
            s@ == error_text(*self),
    {
        let mut s = String::new();
        match self {
            LogstashError::ConnectionFailed(m) => {
                push_str(&mut s, "Connection failed: ");
                push_str(&mut s, m.as_str());
            },
            LogstashError::WriteFailed(m) => {
                push_str(&mut s, "Write failed: ");
                push_str(&mut s, m.as_str());
            },
            LogstashError::HttpError(m) => {
                push_str(&mut s, "HTTP request failed: ");
                push_str(&mut s, m.as_str());
            },
            LogstashError::SerializationError(m) => {
                push_str(&mut s, "Serialization error: ");
                push_str(&mut s, m.as_str());
            },
            LogstashError::ConfigError(m) => {
                push_str(&mut s, "Configuration error: ");
                push_str(&mut s, m.as_str());
            },
        }
        s
    }
}

/// How events travel to Logstash.
#[derive(Clone, Copy, Debug, PartialEq, Eq, Structural)]
pub enum LogstashProtocol {
    /// TCP.
    Tcp,
    /// UDP.
    Udp,
    /// HTTP.
    Http,
}

impl Default for LogstashProtocol {
    fn default() -> (p: Self)
        ensures
            p == LogstashProtocol::Tcp,
    {
        LogstashProtocol::Tcp
    }
}

/// The protocol a name denotes, by its lowercase form.
pub open spec fn protocol_named(lower: Seq<char>) -> Option<LogstashProtocol> {
    if lower == "tcp"@ {
        Some(LogstashProtocol::Tcp)
    } else if lower == "udp"@ {
        Some(LogstashProtocol::Udp)
    } else if lower == "http"@ || lower == "https"@ {
        Some(LogstashProtocol::Http)
    } else {
        None
    }
}

/// The name of a protocol.
pub open spec fn protocol_text(p: LogstashProtocol) -> Seq<char> {
    match p {
        LogstashProtocol::Tcp => "tcp"@,
        LogstashProtocol::Udp => "udp"@,
        LogstashProtocol::Http => "http"@,
    }
}

/// Parses a protocol name, ignoring case: `tcp`, `udp`, `http` or `https`.
pub fn parse_protocol(s: &str) -> (r: Result<LogstashProtocol, LogstashError>)
    ensures
        match protocol_named(lowercase(s@)) {
            Some(p) => r == Ok::<LogstashProtocol, LogstashError>(p),
            None => r matches Err(LogstashError::ConfigError(m)) && m@ == "Unknown protocol: "@ + s@,
        },
{
    let lower = to_lowercase(s);
    let l = lower.as_str();
    if str_eq(l, "tcp") {
        Ok(LogstashProtocol::Tcp)
    } else if str_eq(l, "udp") {
        Ok(LogstashProtocol::Udp)
    } else if str_eq(l, "http") || str_eq(l, "https") {
        Ok(LogstashProtocol::Http)
    } else {
        let mut m = String::new();
        push_str(&mut m, "Unknown protocol: ");
        push_str(&mut m, s);
        Err(LogstashError::ConfigError(m))
    }
}

impl std::str::FromStr for LogstashProtocol {
    type Err = LogstashError;

    fn from_str(s: &str) -> (r: Result<Self, Self::Err>)
        ensures
            match protocol_named(lowercase(s@)) {
                Some(p) => r == Ok::<LogstashProtocol, LogstashError>(p),
                None => r matches Err(LogstashError::ConfigError(m)) && m@ == "Unknown protocol: "@ + s@,
            },
    {
        parse_protocol(s)
    }
}

impl LogstashProtocol {
    /// The protocol's name.
    pub fn to_string(&self) -> (s: String)
        ensures
            s@ == protocol_text(*self),
    {
        match self {
            LogstashProtocol::Tcp => "tcp".to_owned(),
            LogstashProtocol::Udp => "udp".to_owned(),
            LogstashProtocol::Http => "http".to_owned(),
        }
    }
}

/// The configuration of the Logstash plugin.
#[derive(Debug)]
pub struct LogstashConfig {
    pub host: String,
    pub port: u16,
    pub protocol: LogstashProtocol,
    pub use_tls: bool,
    pub index: String,
    pub application: String,
    pub environment: Option<String>,
    pub extra_fields: HostTable<String>,
    pub batch_size: usize,
    pub flush_interval_ms: u64,
    pub timeout_secs: u64,
    pub max_retries: u32,
    pub log_task_start: bool,
    pub log_facts: bool,
    pub include_result_data: bool,
}

/// The default configuration.
pub open spec fn is_default_config(c: LogstashConfig) -> bool {
    &&& c.host@ == "localhost"@
    &&& c.port == 5044
    &&& c.protocol == LogstashProtocol::Tcp
    &&& !c.use_tls
    &&& c.index@ == "rustible"@
    &&& c.application@ == "rustible"@
    &&& c.environment is None
    &&& c.extra_fields.wf()
    &&& c.extra_fields@ == Map::<Seq<char>, String>::empty()
    &&& c.batch_size == 100
    &&& c.flush_interval_ms == 5000
    &&& c.timeout_secs == 30
    &&& c.max_retries == 3
    &&& !c.log_task_start
    &&& !c.log_facts
    &&& c.include_result_data
}

impl Default for LogstashConfig {
    fn default() -> (c: Self)
        ensures
            is_default_config(c),
    {
        LogstashConfig {
            host: "localhost".to_owned(),
            port: 5044,
            protocol: LogstashProtocol::Tcp,
            use_tls: false,
            index: "rustible".to_owned(),
            application: "rustible".to_owned(),
            environment: None,
            extra_fields: HostTable::new(),
            batch_size: 100,
            flush_interval_ms: 5000,
            timeout_secs: 30,
            max_retries: 3,
            log_task_start: false,
            log_facts: false,
            include_result_data: true,
        }
    }
}

impl LogstashConfig {
    /// A builder starting from the default configuration.
    pub fn builder() -> (b: LogstashConfigBuilder)
        ensures
            is_default_config(b.config),
    {
        LogstashConfigBuilder { config: LogstashConfig::default() }
    }

    /// `host:port`.
    pub fn address(&self) -> (s: String)
        ensures
            s@ == self.host@ + ":"@ + dec(self.port as nat),
    {
        let mut s = String::new();
        push_str(&mut s, self.host.as_str());
        push_str(&mut s, ":");
        push_dec(&mut s, self.port as u64);
        s
    }
}

/// Builds a Logstash configuration step by step.
#[derive(Debug)]
pub struct LogstashConfigBuilder {
    pub config: LogstashConfig,
}

impl LogstashConfigBuilder {
    /// Sets the host.
    pub fn host(self, host: &str) -> (b: Self)
        ensures
            b.config == (LogstashConfig { host: b.config.host, ..self.config }),
            b.config.host@ == host@,
    {
        LogstashConfigBuilder { config: LogstashConfig { host: host.to_owned(), ..self.config } }
    }

    /// Sets the port.
    pub fn port(self, port: u16) -> (b: Self)
        ensures
            b.config == (LogstashConfig { port, ..self.config }),
    {
        LogstashConfigBuilder { config: LogstashConfig { port, ..self.config } }
    }

    /// Sets the protocol.
    pub fn protocol(self, protocol: LogstashProtocol) -> (b: Self)
        ensures
            b.config == (LogstashConfig { protocol, ..self.config }),
    {
        LogstashConfigBuilder { config: LogstashConfig { protocol, ..self.config } }
    }

    /// Turns TLS on or off.
    pub fn use_tls(self, use_tls: bool) -> (b: Self)
        ensures
            b.config == (LogstashConfig { use_tls, ..self.config }),
    {
        LogstashConfigBuilder { config: LogstashConfig { use_tls, ..self.config } }
    }

    /// Sets the index pattern.
    pub fn index(self, index: &str) -> (b: Self)
        ensures
            b.config == (LogstashConfig { index: b.config.index, ..self.config }),
            b.config.index@ == index@,
    {
        LogstashConfigBuilder { config: LogstashConfig { index: index.to_owned(), ..self.config } }
    }

    /// Sets the application name.
    pub fn application(self, app: &str) -> (b: Self)
        ensures
            b.config == (LogstashConfig { application: b.config.application, ..self.config }),
            b.config.application@ == app@,
    {
        LogstashConfigBuilder { config: LogstashConfig { application: app.to_owned(), ..self.config } }
    }

    /// Sets the environment.
    pub fn environment(self, env: &str) -> (b: Self)
        ensures
            b.config == (LogstashConfig { environment: b.config.environment, ..self.config }),
            b.config.environment matches Some(e) && e@ == env@,
    {
        LogstashConfigBuilder { config: LogstashConfig { environment: Some(env.to_owned()), ..self.config } }
    }

    /// Adds a static field to every event.
    pub fn extra_field(self, key: &str, value: &str) -> (b: Self)
        requires
            self.config.extra_fields.wf(),
        ensures
            b.config == (LogstashConfig { extra_fields: b.config.extra_fields, ..self.config }),
            b.config.extra_fields.wf(),
            b.config.extra_fields@.dom() == self.config.extra_fields@.dom().insert(key@),
            b.config.extra_fields@[key@]@ == value@,
            forall|k: Seq<char>| #[trigger] self.config.extra_fields@.contains_key(k) && k != key@ ==> b.config.extra_fields@[k]
                == self.config.extra_fields@[k],
    {
        let mut config = self.config;
        config.extra_fields.set(key, value.to_owned());
        LogstashConfigBuilder { config }
    }

    /// Sets the batch size.
    pub fn batch_size(self, size: usize) -> (b: Self)
        ensures
            b.config == (LogstashConfig { batch_size: size, ..self.config }),
    {
        LogstashConfigBuilder { config: LogstashConfig { batch_size: size, ..self.config } }
    }

    /// Sets the flush interval.
    pub fn flush_interval_ms(self, ms: u64) -> (b: Self)
        ensures
            b.config == (LogstashConfig { flush_interval_ms: ms, ..self.config }),
    {
        LogstashConfigBuilder { config: LogstashConfig { flush_interval_ms: ms, ..self.config } }
    }

    /// Sets the connection timeout.
    pub fn timeout_secs(self, secs: u64) -> (b: Self)
        ensures
            b.config == (LogstashConfig { timeout_secs: secs, ..self.config }),
    {
        LogstashConfigBuilder { config: LogstashConfig { timeout_secs: secs, ..self.config } }
    }

    /// Turns task start events on or off.
    pub fn log_task_start(self, log: bool) -> (b: Self)
        ensures
            b.config == (LogstashConfig { log_task_start: log, ..self.config }),
    {
        LogstashConfigBuilder { config: LogstashConfig { log_task_start: log, ..self.config } }
    }

    /// Turns fact events on or off.
    pub fn log_facts(self, log: bool) -> (b: Self)
        ensures
            b.config == (LogstashConfig { log_facts: log, ..self.config }),
    {
        LogstashConfigBuilder { config: LogstashConfig { log_facts: log, ..self.config } }
    }

    /// The configuration.
    pub fn build(self) -> (c: LogstashConfig)
        ensures
            c == self.config,
    {
        self.config
    }
}

impl Default for LogstashConfigBuilder {
    fn default() -> (b: Self)
        ensures
            is_default_config(b.config),
    {
        LogstashConfig::builder()
    }
}


// ---------------------------------------------------------------------------
// Configuration from environment variables
// ---------------------------------------------------------------------------

/// A variable's value, or a default.
pub open spec fn var_or(vars: Seq<(Seq<char>, Seq<char>)>, name: Seq<char>, d: Seq<char>) -> Seq<char> {
    match env_value(vars, name) {
        Some(v) => v,
        None => d,
    }
}

/// A variable's number (at most `max`), or a default when it is unset or
/// not such a number.
pub open spec fn var_num(vars: Seq<(Seq<char>, Seq<char>)>, name: Seq<char>, max: u64, d: u64) -> u64 {
    match env_value(vars, name) {
        Some(v) => match parsed_bounded(v, max) {
            Some(n) => n,
            None => d,
        },
        None => d,
    }
}

/// A variable's flag (`true` in any ASCII case, or `1`), or a default when
/// it is unset.
pub open spec fn var_flag(vars: Seq<(Seq<char>, Seq<char>)>, name: Seq<char>, d: bool) -> bool {
    match env_value(vars, name) {
        Some(v) => ascii_truthy(v),
        None => d,
    }
}

/// The configuration the environment variables give (each unset or
/// unreadable one keeps its default; no extra fields).
pub open spec fn config_from_vars(c: LogstashConfig, vs: Seq<(Seq<char>, Seq<char>)>) -> bool {
    &&& c.host@ == var_or(vs, "RUSTIBLE_LOGSTASH_HOST"@, "localhost"@)
    &&& c.port as u64 == var_num(vs, "RUSTIBLE_LOGSTASH_PORT"@, 65535, 5044)
    &&& c.protocol == match env_value(vs, "RUSTIBLE_LOGSTASH_PROTOCOL"@) {
        Some(v) => match protocol_named(lowercase(v)) {
            Some(p) => p,
            None => LogstashProtocol::Tcp,
        },
        None => LogstashProtocol::Tcp,
    }
    &&& c.use_tls == var_flag(vs, "RUSTIBLE_LOGSTASH_TLS"@, false)
    &&& c.index@ == var_or(vs, "RUSTIBLE_LOGSTASH_INDEX"@, "rustible"@)
    &&& c.application@ == var_or(vs, "RUSTIBLE_LOGSTASH_APPLICATION"@, "rustible"@)
    &&& opt_chars(c.environment) == env_value(vs, "RUSTIBLE_LOGSTASH_ENVIRONMENT"@)
    &&& c.extra_fields.wf()
    &&& c.extra_fields@ == Map::<Seq<char>, String>::empty()
    &&& c.batch_size as u64 == var_num(vs, "RUSTIBLE_LOGSTASH_BATCH_SIZE"@, usize::MAX as u64, 100)
    &&& c.flush_interval_ms == var_num(vs, "RUSTIBLE_LOGSTASH_FLUSH_INTERVAL"@, u64::MAX, 5000)
    &&& c.timeout_secs == var_num(vs, "RUSTIBLE_LOGSTASH_TIMEOUT"@, u64::MAX, 30)
    &&& c.max_retries as u64 == var_num(vs, "RUSTIBLE_LOGSTASH_RETRIES"@, u32::MAX as u64, 3)
    &&& c.log_task_start == var_flag(vs, "RUSTIBLE_LOGSTASH_LOG_TASK_START"@, false)
    &&& c.log_facts == var_flag(vs, "RUSTIBLE_LOGSTASH_LOG_FACTS"@, false)
    &&& c.include_result_data == var_flag(vs, "RUSTIBLE_LOGSTASH_INCLUDE_DATA"@, true)
}

fn var_text(vars: &Vec<(String, String)>, name: &str, d: &str) -> (r: String)
    ensures
        r@ == var_or(vars_view(vars@), name@, d@),
{
    match env_lookup(vars, name) {
        Some(v) => v.clone(),
        None => d.to_owned(),
    }
}

fn var_number(vars: &Vec<(String, String)>, name: &str, max: u64, d: u64) -> (r: u64)
    ensures
        r == var_num(vars_view(vars@), name@, max, d),
        r <= max || r == d,
{
    match env_lookup(vars, name) {
        Some(v) => match parse_bounded(v.as_str(), max) {
            Some(n) => n,
            None => d,
        },
        None => d,
    }
}

fn var_flag_of(vars: &Vec<(String, String)>, name: &str, d: bool) -> (r: bool)
    ensures
        r == var_flag(vars_view(vars@), name@, d),
{
    match env_lookup(vars, name) {
        Some(v) => is_ascii_truthy(v.as_str()),
        None => d,
    }
}

impl LogstashConfig {
    /// The configuration that the environment variables `vars` (name and
    /// value pairs) give.
    pub fn from_env(vars: &Vec<(String, String)>) -> (c: Self)
        ensures
            config_from_vars(c, vars_view(vars@)),
    {
        let vs = vars;
        let protocol = match env_lookup(vs, "RUSTIBLE_LOGSTASH_PROTOCOL") {
            Some(v) => match parse_protocol(v.as_str()) {
                Ok(p) => p,
                Err(_) => LogstashProtocol::Tcp,
            },
            None => LogstashProtocol::Tcp,
        };
        let environment = match env_lookup(vs, "RUSTIBLE_LOGSTASH_ENVIRONMENT") {
            Some(v) => Some(v.clone()),
            None => None,
        };
        let port = var_number(vs, "RUSTIBLE_LOGSTASH_PORT", 65535, 5044);
        let batch = var_number(vs, "RUSTIBLE_LOGSTASH_BATCH_SIZE", usize::MAX as u64, 100);
        let retries = var_number(vs, "RUSTIBLE_LOGSTASH_RETRIES", u32::MAX as u64, 3);
        LogstashConfig {
            host: var_text(vs, "RUSTIBLE_LOGSTASH_HOST", "localhost"),
            port: port as u16,
            protocol,
            use_tls: var_flag_of(vs, "RUSTIBLE_LOGSTASH_TLS", false),
            index: var_text(vs, "RUSTIBLE_LOGSTASH_INDEX", "rustible"),
            application: var_text(vs, "RUSTIBLE_LOGSTASH_APPLICATION", "rustible"),
            environment,
            extra_fields: HostTable::new(),
            batch_size: batch as usize,
            flush_interval_ms: var_number(vs, "RUSTIBLE_LOGSTASH_FLUSH_INTERVAL", u64::MAX, 5000),
            timeout_secs: var_number(vs, "RUSTIBLE_LOGSTASH_TIMEOUT", u64::MAX, 30),
            max_retries: retries as u32,
            log_task_start: var_flag_of(vs, "RUSTIBLE_LOGSTASH_LOG_TASK_START", false),
            log_facts: var_flag_of(vs, "RUSTIBLE_LOGSTASH_LOG_FACTS", false),
            include_result_data: var_flag_of(vs, "RUSTIBLE_LOGSTASH_INCLUDE_DATA", true),
        }
    }
}


// ---------------------------------------------------------------------------
// Events (ECS) and their JSON form
// ---------------------------------------------------------------------------

/// An event sent to Logstash, in the Elastic Common Schema's shape: the
/// fixed parts (`event.kind`, `category`, `type`, `module`) are added when
/// it is turned into JSON.
#[derive(Debug)]
pub struct LogstashEvent {
    /// When it happened (RFC 3339).
    pub timestamp: String,
    /// `event.action`.
    pub action: String,
    /// `event.outcome`: `success` or `failure`.
    pub outcome: Option<String>,
    /// `event.duration` in nanoseconds.
    pub duration: Option<u64>,
    /// The log message.
    pub message: String,
    /// `log.level`.
    pub level: String,
    /// `host.name`: the target host.
    pub host: Option<String>,
    /// `rustible.playbook`.
    pub playbook: Option<String>,
    /// `rustible.play`.
    pub play: Option<String>,
    /// `rustible.task`.
    pub task: Option<String>,
    /// `rustible.status`.
    pub status: Option<String>,
    /// `rustible.changed`.
    pub changed: Option<bool>,
    /// `rustible.result`: the task's result data.
    pub result: Option<JsonValue>,
    /// `rustible.handler`.
    pub handler: Option<String>,
    /// More top-level fields.
    pub extra: HostTable<JsonValue>,
}

/// The content of all entries of an object.
pub open spec fn entries_view(s: Seq<(String, JsonValue)>) -> Seq<(Seq<char>, JsonView)> {
    jview_entries(s, s.len() as int)
}

/// One entry when there is a value, none otherwise.
pub open spec fn opt_entry(key: Seq<char>, v: Option<JsonView>) -> Seq<(Seq<char>, JsonView)> {
    match v {
        Some(x) => seq![(key, x)],
        None => Seq::empty(),
    }
}

/// An optional string as a JSON string.
pub open spec fn opt_str_view(o: Option<String>) -> Option<JsonView> {
    match o {
        Some(s) => Some(JsonView::Str(s@)),
        None => None,
    }
}

/// The `event` object of an event.
pub open spec fn event_meta_view(e: LogstashEvent) -> JsonView {
    JsonView::Object(
        seq![
            ("kind"@, JsonView::Str("event"@)),
            ("category"@, JsonView::Array(seq![JsonView::Str("process"@)])),
            ("type"@, JsonView::Array(seq![JsonView::Str("info"@)])),
            ("action"@, JsonView::Str(e.action@)),
        ] + opt_entry("outcome"@, opt_str_view(e.outcome)) + opt_entry(
            "duration"@,
            match e.duration {
                Some(d) => Some(JsonView::Number(JsonNumber::PosInt(d))),
                None => None,
            },
        ) + seq![("module"@, JsonView::Str("rustible"@))],
    )
}

/// The `rustible` object of an event.
pub open spec fn rustible_view(e: LogstashEvent) -> JsonView {
    JsonView::Object(
        opt_entry("playbook"@, opt_str_view(e.playbook)) + opt_entry("play"@, opt_str_view(e.play)) + opt_entry(
            "task"@,
            opt_str_view(e.task),
        ) + opt_entry("status"@, opt_str_view(e.status)) + opt_entry(
            "changed"@,
            match e.changed {
                Some(b) => Some(JsonView::Bool(b)),
                None => None,
            },
        ) + opt_entry(
            "result"@,
            match e.result {
                Some(r) => Some(jview(r)),
                None => None,
            },
        ) + opt_entry("handler"@, opt_str_view(e.handler)),
    )
}

/// The extra fields of an event in the table's order.
pub open spec fn extra_entries(t: HostTable<JsonValue>) -> Seq<(Seq<char>, JsonView)> {
    Seq::new(t.names().len(), |i: int| (t.names()[i], jview(t@[t.names()[i]])))
}

/// An event as JSON: `@timestamp`, `event`, `message`, `log`, `host` (when
/// there is a target host), `rustible`, then the extra fields.
pub open spec fn event_view(e: LogstashEvent) -> JsonView {
    JsonView::Object(
        seq![
            ("@timestamp"@, JsonView::Str(e.timestamp@)),
            ("event"@, event_meta_view(e)),
            ("message"@, JsonView::Str(e.message@)),
            ("log"@, JsonView::Object(seq![("level"@, JsonView::Str(e.level@))])),
        ] + opt_entry(
            "host"@,
            match e.host {
                Some(h) => Some(JsonView::Object(seq![("name"@, JsonView::Str(h@))])),
                None => None,
            },
        ) + seq![("rustible"@, rustible_view(e))] + extra_entries(e.extra),
    )
}

fn push_entry(v: &mut Vec<(String, JsonValue)>, k: &str, x: JsonValue)
    ensures
        entries_view(final(v)@) == entries_view(old(v)@).push((k@, jview(x))),
{
    let ghost a = v@;
    v.push((k.to_owned(), x));
    proof {
        lemma_entries_prefix(a, v@, a.len() as int);
    }
}

fn push_opt_str(v: &mut Vec<(String, JsonValue)>, k: &str, x: &Option<String>)
    ensures
        entries_view(final(v)@) == entries_view(old(v)@) + opt_entry(k@, opt_str_view(*x)),
{
    match x {
        Some(t) => push_entry(v, k, JsonValue::String(t.clone())),
        None => {},
    }
    proof {
        assert(entries_view(v@) =~= entries_view(old(v)@) + opt_entry(k@, opt_str_view(*x)));
    }
}

fn one_string_array(t: &str) -> (r: JsonValue)
    ensures
        jview(r) == JsonView::Array(seq![JsonView::Str(t@)]),
{
    let mut items: Vec<JsonValue> = Vec::new();
    items.push(JsonValue::String(t.to_owned()));
    let r = JsonValue::Array(items);
    proof {
        assert(jview_items(items@, 0) =~= Seq::<JsonView>::empty());
        assert(jview_items(items@, 1) == jview_items(items@, 0).push(jview(items@[0])));
        assert(jview_items(items@, 1) =~= seq![JsonView::Str(t@)]);
    }
    r
}

fn event_meta_json(e: &LogstashEvent) -> (r: JsonValue)
    ensures
        jview(r) == event_meta_view(*e),
{
    let mut m: Vec<(String, JsonValue)> = Vec::new();
    push_entry(&mut m, "kind", JsonValue::String("event".to_owned()));
    push_entry(&mut m, "category", one_string_array("process"));
    push_entry(&mut m, "type", one_string_array("info"));
    push_entry(&mut m, "action", JsonValue::String(e.action.clone()));
    push_opt_str(&mut m, "outcome", &e.outcome);
    let ghost before = entries_view(m@);
    match e.duration {
        Some(d) => push_entry(&mut m, "duration", JsonValue::Number(JsonNumber::PosInt(d))),
        None => {},
    }
    push_entry(&mut m, "module", JsonValue::String("rustible".to_owned()));
    proof {
        reveal_strlit("event");
        reveal_strlit("process");
        reveal_strlit("info");
        reveal_strlit("rustible");
        assert(entries_view(m@) =~= match event_meta_view(*e) {
            JsonView::Object(es) => es,
            _ => Seq::empty(),
        });
    }
    JsonValue::Object(m)
}

fn rustible_json(e: &LogstashEvent) -> (r: JsonValue)
    ensures
        jview(r) == rustible_view(*e),
{
    let mut m: Vec<(String, JsonValue)> = Vec::new();
    push_opt_str(&mut m, "playbook", &e.playbook);
    push_opt_str(&mut m, "play", &e.play);
    push_opt_str(&mut m, "task", &e.task);
    push_opt_str(&mut m, "status", &e.status);
    let ghost a = entries_view(m@);
    match e.changed {
        Some(b) => push_entry(&mut m, "changed", JsonValue::Bool(b)),
        None => {},
    }
    let ghost b = entries_view(m@);
    match &e.result {
        Some(x) => push_entry(&mut m, "result", copy_json(x)),
        None => {},
    }
    push_opt_str(&mut m, "handler", &e.handler);
    proof {
        assert(entries_view(m@) =~= match rustible_view(*e) {
            JsonView::Object(es) => es,
            _ => Seq::empty(),
        });
    }
    JsonValue::Object(m)
}

/// An event as JSON: see `event_view`.
pub fn event_json(e: &LogstashEvent) -> (r: JsonValue)
    requires
        e.extra.wf(),
    ensures
        jview(r) == event_view(*e),
{
    let mut m: Vec<(String, JsonValue)> = Vec::new();
    push_entry(&mut m, "@timestamp", JsonValue::String(e.timestamp.clone()));
    push_entry(&mut m, "event", event_meta_json(e));
    push_entry(&mut m, "message", JsonValue::String(e.message.clone()));
    let mut lv: Vec<(String, JsonValue)> = Vec::new();
    push_entry(&mut lv, "level", JsonValue::String(e.level.clone()));
    proof {
        assert(entries_view(lv@) =~= seq![("level"@, JsonView::Str(e.level@))]);
    }
    push_entry(&mut m, "log", JsonValue::Object(lv));
    let ghost a = entries_view(m@);
    match &e.host {
        Some(h) => {
            let mut hv: Vec<(String, JsonValue)> = Vec::new();
            push_entry(&mut hv, "name", JsonValue::String(h.clone()));
            proof {
                assert(entries_view(hv@) =~= seq![("name"@, JsonView::Str(h@))]);
            }
            push_entry(&mut m, "host", JsonValue::Object(hv));
        },
        None => {},
    }
    push_entry(&mut m, "rustible", rustible_json(e));
    let ghost head = entries_view(m@);
    let n = e.extra.len();
    let mut i: usize = 0;
    while i < n
        invariant
            i <= n,
            n == e.extra.names().len(),
            e.extra.wf(),
            entries_view(m@) == head + extra_entries(e.extra).subrange(0, i as int),
        decreases n - i,
    {
        let (k, x) = e.extra.entry_ref(i);
        push_entry(&mut m, k.as_str(), copy_json(x));
        proof {
            assert(extra_entries(e.extra).subrange(0, i + 1) =~= extra_entries(e.extra).subrange(0, i as int).push(
                (k@, jview(*x)),
            ));
        }
        i = i + 1;
    }
    proof {
        assert(extra_entries(e.extra).subrange(0, i as int) =~= extra_entries(e.extra));
        assert(entries_view(m@) =~= match event_view(*e) {
            JsonView::Object(es) => es,
            _ => Seq::empty(),
        });
    }
    JsonValue::Object(m)
}

/// An event as one line of JSON (as `serde_json::to_string` prints it).
pub fn event_line(e: &LogstashEvent) -> (r: String)
    requires
        e.extra.wf(),
    ensures
        r@ == compact_text(event_view(*e)),
{
    let v = event_json(e);
    compact_json(&v)
}


// ---------------------------------------------------------------------------
// The callback: events made of execution events, and batching
// ---------------------------------------------------------------------------

/// The extra fields every event gets: the configured ones (as strings), the
/// index and application, and the environment when there is one.
pub open spec fn base_extra(c: LogstashConfig) -> Map<Seq<char>, JsonView> {
    let m = c.extra_fields@.map_values(|v: String| JsonView::Str(v@)).insert("index"@, JsonView::Str(c.index@)).insert(
        "application"@,
        JsonView::Str(c.application@),
    );
    match c.environment {
        Some(e) => m.insert("environment"@, JsonView::Str(e@)),
        None => m,
    }
}

/// The fields of an event apart from its extra fields.
pub open spec fn event_fields(
    e: LogstashEvent,
    ts: Seq<char>,
    action: Seq<char>,
    outcome: Option<Seq<char>>,
    duration: Option<u64>,
    message: Seq<char>,
    level: Seq<char>,
    host: Option<Seq<char>>,
    playbook: Option<Seq<char>>,
    play: Option<Seq<char>>,
    task: Option<Seq<char>>,
    status: Option<Seq<char>>,
    changed: Option<bool>,
    result: Option<JsonView>,
    handler: Option<Seq<char>>,
) -> bool {
    &&& e.timestamp@ == ts
    &&& e.action@ == action
    &&& opt_chars(e.outcome) == outcome
    &&& e.duration == duration
    &&& e.message@ == message
    &&& e.level@ == level
    &&& opt_chars(e.host) == host
    &&& opt_chars(e.playbook) == playbook
    &&& opt_chars(e.play) == play
    &&& opt_chars(e.task) == task
    &&& opt_chars(e.status) == status
    &&& e.changed == changed
    &&& (match e.result {
        Some(r) => Some(jview(r)),
        None => None,
    }) == result
    &&& opt_chars(e.handler) == handler
    &&& e.extra.wf()
}

/// `completed` or `failed`.
pub open spec fn ended_word(success: bool) -> Seq<char> {
    if success { "completed"@ } else { "failed"@ }
}

/// `info` or `error`.
pub open spec fn end_level(success: bool) -> Seq<char> {
    if success { "info"@ } else { "error"@ }
}

/// `success` or `failure`.
pub open spec fn outcome_text(success: bool) -> Seq<char> {
    if success { "success"@ } else { "failure"@ }
}

/// A run or play that ended well is `completed`, with outcome `success` and
/// level `info`; one that did not is `failed`, with outcome `failure` and
/// level `error`.
pub proof fn lemma_end_words(success: bool)
    ensures
        success ==> ended_word(success) == "completed"@ && outcome_text(success) == "success"@ && end_level(success)
            == "info"@,
        !success ==> ended_word(success) == "failed"@ && outcome_text(success) == "failure"@ && end_level(success)
            == "error"@,
{
}

/// A task result's log level: `error` when it did not succeed, else `info`
/// when it changed something, else `debug`.
pub proof fn lemma_result_level(success: bool, changed: bool)
    ensures
        !success ==> result_level(success, changed) == "error"@,
        success && changed ==> result_level(success, changed) == "info"@,
        success && !changed ==> result_level(success, changed) == "debug"@,
{
}

/// The status of a task result.
pub open spec fn result_status(o: TaskOutcome) -> Seq<char> {
    match o {
        TaskOutcome::Skipped => "skipped"@,
        TaskOutcome::Failed => "failed"@,
        TaskOutcome::Changed => "changed"@,
        TaskOutcome::Unchanged => "ok"@,
    }
}

/// A task result is reported as `skipped` when it was skipped, else as
/// `failed` when it did not succeed, else as `changed` or `ok`; the
/// task-complete message then reads `Task <status>: <task> on <host>`, so a
/// failed task's message starts with `Task failed: `.
pub proof fn lemma_task_status(r: crate::types::ModuleResult, task: Seq<char>, host: Seq<char>)
    ensures
        r.skipped ==> result_status(outcome_of(r)) == "skipped"@,
        !r.skipped && !r.success ==> result_status(outcome_of(r)) == "failed"@,
        !r.skipped && r.success && r.changed ==> result_status(outcome_of(r)) == "changed"@,
        !r.skipped && r.success && !r.changed ==> result_status(outcome_of(r)) == "ok"@,
        !r.skipped && !r.success ==> ("Task "@ + result_status(outcome_of(r)) + ": "@ + task + " on "@
            + host).subrange(0, 13) == "Task failed: "@,
        !r.success ==> result_level(r.success, r.changed) == "error"@ && outcome_text(r.success) == "failure"@,
{
    if !r.skipped && !r.success {
        reveal_strlit("Task ");
        reveal_strlit("failed");
        reveal_strlit(": ");
        reveal_strlit("Task failed: ");
        let m = "Task "@ + result_status(outcome_of(r)) + ": "@ + task + " on "@ + host;
        assert(m.subrange(0, 13) =~= "Task failed: "@);
    }
}

/// The log level of a task result.
pub open spec fn result_level(success: bool, changed: bool) -> Seq<char> {
    if !success {
        "error"@
    } else if changed {
        "info"@
    } else {
        "debug"@
    }
}

/// A count as a JSON number.
pub open spec fn count_view(n: usize) -> JsonView {
    JsonView::Number(JsonNumber::PosInt(n as u64))
}

/// The Logstash plugin's state: its configuration, the current playbook and
/// play, and the lines waiting to be sent over HTTP.
#[derive(Debug)]
pub struct LogstashCallback {
    config: LogstashConfig,
    playbook: Option<String>,
    play: Option<String>,
    buffer: Vec<String>,
    last_flush: Option<u64>,
}

impl LogstashCallback {
    /// The tables are well formed.
    pub closed spec fn wf(&self) -> bool {
        self.config.extra_fields.wf()
    }

    /// The configuration.
    pub closed spec fn spec_config(&self) -> LogstashConfig {
        self.config
    }

    /// The current playbook.
    pub closed spec fn spec_playbook(&self) -> Option<Seq<char>> {
        opt_chars(self.playbook)
    }

    /// The current play.
    pub closed spec fn spec_play(&self) -> Option<Seq<char>> {
        opt_chars(self.play)
    }

    /// The lines waiting to be sent.
    pub closed spec fn spec_buffer(&self) -> Seq<Seq<char>> {
        views(self.buffer@)
    }

    /// When the buffer was last due to be flushed (milliseconds).
    pub closed spec fn spec_last_flush(&self) -> Option<u64> {
        self.last_flush
    }

    /// A callback with the given configuration.
    pub fn new(config: LogstashConfig) -> (c: Self)
        requires
            config.extra_fields.wf(),
        ensures
            c.wf(),
            c.spec_config() == config,
            c.spec_playbook() is None,
            c.spec_play() is None,
            c.spec_buffer() == Seq::<Seq<char>>::empty(),
            c.spec_last_flush() is None,
    {
        let c = LogstashCallback { config, playbook: None, play: None, buffer: Vec::new(), last_flush: None };
        proof {
            assert(views(c.buffer@) =~= Seq::<Seq<char>>::empty());
        }
        c
    }

    /// A callback with the default configuration.
    pub fn with_defaults() -> (c: Self)
        ensures
            c.wf(),
            is_default_config(c.spec_config()),
            c.spec_buffer() == Seq::<Seq<char>>::empty(),
    {
        Self::new(LogstashConfig::default())
    }

    /// A callback configured by the environment variables `vars`.
    pub fn from_env(vars: &Vec<(String, String)>) -> (c: Self)
        ensures
            c.wf(),
            config_from_vars(c.spec_config(), vars_view(vars@)),
            c.spec_buffer() == Seq::<Seq<char>>::empty(),
    {
        Self::new(LogstashConfig::from_env(vars))
    }

    /// The configuration.
    pub fn config(&self) -> (c: &LogstashConfig)
        ensures
            *c == self.spec_config(),
    {
        &self.config
    }

    fn extra_fields(&self) -> (t: HostTable<JsonValue>)
        requires
            self.wf(),
        ensures
            t.wf(),
            json_map(t@) == base_extra(self.spec_config()),
    {
        let src = &self.config.extra_fields;
        let mut t: HostTable<JsonValue> = HostTable::new();
        let n = src.len();
        proof {
            src.lemma_view();
        }
        let mut i: usize = 0;
        while i < n
            invariant
                i <= n,
                n == src.names().len(),
                src.wf(),
                t.wf(),
                forall|k: Seq<char>| #[trigger] t@.contains_key(k) <==> src.names().subrange(0, i as int).contains(k),
                forall|k: Seq<char>| #[trigger] t@.contains_key(k) ==> src@.contains_key(k) && jview(t@[k])
                    == JsonView::Str(src@[k]@),
            decreases n - i,
        {
            let (k, v) = src.entry_ref(i);
            let ghost before = t@;
            t.set(k.as_str(), JsonValue::String(v.clone()));
            proof {
                let pre = src.names().subrange(0, i as int);
                let cur = src.names().subrange(0, i + 1);
                assert(cur =~= pre.push(k@));
                assert forall|x: Seq<char>| #[trigger] t@.contains_key(x) <==> cur.contains(x) by {
                    if cur.contains(x) && x != k@ {
                        let j = choose|j: int| 0 <= j < cur.len() && cur[j] == x;
                        assert(pre[j] == x);
                    }
                    if pre.contains(x) {
                        let j = choose|j: int| 0 <= j < pre.len() && pre[j] == x;
                        assert(cur[j] == x);
                    }
                    if x == k@ {
                        assert(cur[i as int] == x);
                    }
                }
            }
            i = i + 1;
        }
        proof {
            assert(src.names().subrange(0, i as int) =~= src.names());
        }
        let ghost m = src@.map_values(|v: String| JsonView::Str(v@));
        proof {
            assert(json_map(t@) =~= m);
        }
        t.set("index", JsonValue::String(self.config.index.clone()));
        t.set("application", JsonValue::String(self.config.application.clone()));
        match &self.config.environment {
            Some(e) => t.set("environment", JsonValue::String(e.clone())),
            None => {},
        }
        proof {
            assert(json_map(t@) =~= base_extra(self.spec_config()));
        }
        t
    }

    /// A base event: the given action, message, level and target host, the
    /// current playbook and play, and the base extra fields.
    pub fn create_event(&self, action: &str, message: String, level: &str, host: Option<&str>, timestamp: &str) -> (e:
        LogstashEvent)
        requires
            self.wf(),
        ensures
            event_fields(
                e,
                timestamp@,
                action@,
                None,
                None,
                message@,
                level@,
                match host {
                    Some(h) => Some(h@),
                    None => None,
                },
                self.spec_playbook(),
                self.spec_play(),
                None,
                None,
                None,
                None,
                None,
            ),
            json_map(e.extra@) == base_extra(self.spec_config()),
    {
        LogstashEvent {
            timestamp: timestamp.to_owned(),
            action: action.to_owned(),
            outcome: None,
            duration: None,
            message,
            level: level.to_owned(),
            host: match host {
                Some(h) => Some(h.to_owned()),
                None => None,
            },
            playbook: self.playbook.clone(),
            play: self.play.clone(),
            task: None,
            status: None,
            changed: None,
            result: None,
            handler: None,
            extra: self.extra_fields(),
        }
    }

    /// A playbook starts: it becomes the current playbook; its event.
    pub fn on_playbook_start(&mut self, name: &str, timestamp: &str) -> (e: LogstashEvent)
        requires
            old(self).wf(),
        ensures
            final(self).wf(),
            final(self).spec_config() == old(self).spec_config(),
            final(self).spec_playbook() == Some(name@),
            final(self).spec_play() == old(self).spec_play(),
            final(self).spec_buffer() == old(self).spec_buffer(),
            final(self).spec_last_flush() == old(self).spec_last_flush(),
            event_fields(
                e,
                timestamp@,
                "playbook_start"@,
                None,
                None,
                "Playbook started: "@ + name@,
                "info"@,
                None,
                Some(name@),
                old(self).spec_play(),
                None,
                None,
                None,
                None,
                None,
            ),
            json_map(e.extra@) == base_extra(old(self).spec_config()),
    {
        self.playbook = Some(name.to_owned());
        let mut m = String::new();
        push_str(&mut m, "Playbook started: ");
        push_str(&mut m, name);
        self.create_event("playbook_start", m, "info", None, timestamp)
    }

    /// A playbook ends (`duration_ns` after it started, when known): its
    /// event, with outcome and duration; the current playbook and play are
    /// then cleared.
    pub fn on_playbook_end(&mut self, name: &str, success: bool, duration_ns: Option<u64>, timestamp: &str) -> (e:
        LogstashEvent)
        requires
            old(self).wf(),
        ensures
            final(self).wf(),
            final(self).spec_config() == old(self).spec_config(),
            final(self).spec_playbook() is None,
            final(self).spec_play() is None,
            final(self).spec_buffer() == old(self).spec_buffer(),
            final(self).spec_last_flush() == old(self).spec_last_flush(),
            event_fields(
                e,
                timestamp@,
                "playbook_end"@,
                Some(outcome_text(success)),
                duration_ns,
                "Playbook "@ + ended_word(success) + ": "@ + name@,
                end_level(success),
                None,
                old(self).spec_playbook(),
                old(self).spec_play(),
                None,
                None,
                None,
                None,
                None,
            ),
            json_map(e.extra@) == base_extra(old(self).spec_config()),
    {
        let mut m = String::new();
        push_str(&mut m, "Playbook ");
        push_str(&mut m, if success { "completed" } else { "failed" });
        push_str(&mut m, ": ");
        push_str(&mut m, name);
        let mut e = self.create_event("playbook_end", m, if success { "info" } else { "error" }, None, timestamp);
        e.outcome = Some(if success { "success".to_owned() } else { "failure".to_owned() });
        e.duration = duration_ns;
        self.playbook = None;
        self.play = None;
        proof {
            reveal_strlit("success");
            reveal_strlit("failure");
            reveal_strlit("completed");
            reveal_strlit("failed");
            reveal_strlit("info");
            reveal_strlit("error");
        }
        e
    }

    /// A play starts on `host_count` hosts: it becomes the current play; its
    /// event, with the host count.
    pub fn on_play_start(&mut self, name: &str, host_count: usize, timestamp: &str) -> (e: LogstashEvent)
        requires
            old(self).wf(),
        ensures
            final(self).wf(),
            final(self).spec_config() == old(self).spec_config(),
            final(self).spec_playbook() == old(self).spec_playbook(),
            final(self).spec_play() == Some(name@),
            final(self).spec_buffer() == old(self).spec_buffer(),
            final(self).spec_last_flush() == old(self).spec_last_flush(),
            event_fields(
                e,
                timestamp@,
                "play_start"@,
                None,
                None,
                "Play started: "@ + name@ + " ("@ + dec(host_count as nat) + " hosts)"@,
                "info"@,
                None,
                old(self).spec_playbook(),
                Some(name@),
                None,
                None,
                None,
                None,
                None,
            ),
            json_map(e.extra@) == base_extra(old(self).spec_config()).insert("host_count"@, count_view(host_count)),
    {
        self.play = Some(name.to_owned());
        let mut m = String::new();
        push_str(&mut m, "Play started: ");
        push_str(&mut m, name);
        push_str(&mut m, " (");
        push_dec(&mut m, host_count as u64);
        push_str(&mut m, " hosts)");
        let mut e = self.create_event("play_start", m, "info", None, timestamp);
        let ghost before = e.extra@;
        e.extra.set("host_count", JsonValue::Number(JsonNumber::PosInt(host_count as u64)));
        proof {
            assert(json_map(e.extra@) =~= json_map(before).insert("host_count"@, count_view(host_count)));
        }
        e
    }

    /// A play ends: its event, with the outcome.
    pub fn on_play_end(&self, name: &str, success: bool, timestamp: &str) -> (e: LogstashEvent)
        requires
            self.wf(),
        ensures
            event_fields(
                e,
                timestamp@,
                "play_end"@,
                Some(outcome_text(success)),
                None,
                "Play "@ + ended_word(success) + ": "@ + name@,
                end_level(success),
                None,
                self.spec_playbook(),
                self.spec_play(),
                None,
                None,
                None,
                None,
                None,
            ),
            json_map(e.extra@) == base_extra(self.spec_config()),
    {
        let mut m = String::new();
        push_str(&mut m, "Play ");
        push_str(&mut m, if success { "completed" } else { "failed" });
        push_str(&mut m, ": ");
        push_str(&mut m, name);
        let mut e = self.create_event("play_end", m, if success { "info" } else { "error" }, None, timestamp);
        e.outcome = Some(if success { "success".to_owned() } else { "failure".to_owned() });
        proof {
            reveal_strlit("success");
            reveal_strlit("failure");
            reveal_strlit("completed");
            reveal_strlit("failed");
            reveal_strlit("info");
            reveal_strlit("error");
        }
        e
    }

    /// A task starts on a host: an event only when task starts are logged.
    pub fn on_task_start(&self, name: &str, host: &str, timestamp: &str) -> (r: Option<LogstashEvent>)
        requires
            self.wf(),
        ensures
            r is Some == self.spec_config().log_task_start,
            r matches Some(e) ==> event_fields(
                e,
                timestamp@,
                "task_start"@,
                None,
                None,
                "Task started: "@ + name@ + " on "@ + host@,
                "debug"@,
                Some(host@),
                self.spec_playbook(),
                self.spec_play(),
                Some(name@),
                None,
                None,
                None,
                None,
            ) && json_map(e.extra@) == base_extra(self.spec_config()),
    {
        if !self.config.log_task_start {
            return None;
        }
        let mut m = String::new();
        push_str(&mut m, "Task started: ");
        push_str(&mut m, name);
        push_str(&mut m, " on ");
        push_str(&mut m, host);
        let mut e = self.create_event("task_start", m, "debug", Some(host), timestamp);
        e.task = Some(name.to_owned());
        Some(e)
    }

    /// A task finished: its event, with task, status, changed, duration
    /// (nanoseconds, cut to 64 bits), outcome, the result data when it is
    /// included, and the message as `task_message` when there is one.
    pub fn on_task_complete(&self, result: &ExecutionResult, timestamp: &str) -> (e: LogstashEvent)
        requires
            self.wf(),
        ensures
            event_fields(
                e,
                timestamp@,
                "task_complete"@,
                Some(outcome_text(result.result.success)),
                Some(#[verifier::truncate] (result.duration.nanos as u64)),
                "Task "@ + result_status(outcome_of(result.result)) + ": "@ + result.task_name@ + " on "@
                    + result.host@,
                result_level(result.result.success, result.result.changed),
                Some(result.host@),
                self.spec_playbook(),
                self.spec_play(),
                Some(result.task_name@),
                Some(result_status(outcome_of(result.result))),
                Some(result.result.changed),
                if self.spec_config().include_result_data {
                    match result.result.data {
                        Some(d) => Some(jview(d)),
                        None => None,
                    }
                } else {
                    None
                },
                None,
            ),
            json_map(e.extra@) == if result.result.message@.len() > 0 {
                base_extra(self.spec_config()).insert("task_message"@, JsonView::Str(result.result.message@))
            } else {
                base_extra(self.spec_config())
            },
            !result.result.skipped && !result.result.success ==> opt_chars(e.status) == Some("failed"@)
                && e.message@.subrange(0, 13) == "Task failed: "@,
    {
        let r = &result.result;
        let status = if r.skipped {
            "skipped"
        } else if !r.success {
            "failed"
        } else if r.changed {
            "changed"
        } else {
            "ok"
        };
        let level = if !r.success {
            "error"
        } else if r.changed {
            "info"
        } else {
            "debug"
        };
        let mut m = String::new();
        push_str(&mut m, "Task ");
        push_str(&mut m, status);
        push_str(&mut m, ": ");
        push_str(&mut m, result.task_name.as_str());
        push_str(&mut m, " on ");
        push_str(&mut m, result.host.as_str());
        let mut e = self.create_event("task_complete", m, level, Some(result.host.as_str()), timestamp);
        e.task = Some(result.task_name.clone());
        e.status = Some(status.to_owned());
        e.changed = Some(r.changed);
        e.duration = Some(#[verifier::truncate] (result.duration.nanos as u64));
        e.outcome = Some(if r.success { "success".to_owned() } else { "failure".to_owned() });
        if self.config.include_result_data {
            match &r.data {
                Some(d) => e.result = Some(copy_json(d)),
                None => {},
            }
        }
        let ghost before = e.extra@;
        if r.message.as_str().unicode_len() > 0 {
            e.extra.set("task_message", JsonValue::String(r.message.clone()));
            proof {
                assert(json_map(e.extra@) =~= json_map(before).insert("task_message"@, JsonView::Str(r.message@)));
            }
        }
        proof {
            reveal_strlit("skipped");
            reveal_strlit("failed");
            reveal_strlit("changed");
            reveal_strlit("ok");
            reveal_strlit("success");
            reveal_strlit("failure");
            reveal_strlit("info");
            reveal_strlit("error");
            reveal_strlit("debug");
            lemma_task_status(result.result, result.task_name@, result.host@);
        }
        e
    }

    /// A handler was notified: its event.
    pub fn on_handler_triggered(&self, name: &str, timestamp: &str) -> (e: LogstashEvent)
        requires
            self.wf(),
        ensures
            event_fields(
                e,
                timestamp@,
                "handler_triggered"@,
                None,
                None,
                "Handler triggered: "@ + name@,
                "debug"@,
                None,
                self.spec_playbook(),
                self.spec_play(),
                None,
                None,
                None,
                None,
                Some(name@),
            ),
            json_map(e.extra@) == base_extra(self.spec_config()),
    {
        let mut m = String::new();
        push_str(&mut m, "Handler triggered: ");
        push_str(&mut m, name);
        let mut e = self.create_event("handler_triggered", m, "debug", None, timestamp);
        e.handler = Some(name.to_owned());
        e
    }

    /// Facts were gathered on a host: an event only when facts are logged,
    /// with the fact count.
    pub fn on_facts_gathered(&self, host: &str, fact_count: usize, timestamp: &str) -> (r: Option<LogstashEvent>)
        requires
            self.wf(),
        ensures
            r is Some == self.spec_config().log_facts,
            r matches Some(e) ==> event_fields(
                e,
                timestamp@,
                "facts_gathered"@,
                None,
                None,
                "Facts gathered from "@ + host@ + " ("@ + dec(fact_count as nat) + " facts)"@,
                "debug"@,
                Some(host@),
                self.spec_playbook(),
                self.spec_play(),
                None,
                None,
                None,
                None,
                None,
            ) && json_map(e.extra@) == base_extra(self.spec_config()).insert("fact_count"@, count_view(fact_count)),
    {
        if !self.config.log_facts {
            return None;
        }
        let mut m = String::new();
        push_str(&mut m, "Facts gathered from ");
        push_str(&mut m, host);
        push_str(&mut m, " (");
        push_dec(&mut m, fact_count as u64);
        push_str(&mut m, " facts)");
        let mut e = self.create_event("facts_gathered", m, "debug", Some(host), timestamp);
        let ghost before = e.extra@;
        e.extra.set("fact_count", JsonValue::Number(JsonNumber::PosInt(fact_count as u64)));
        proof {
            assert(json_map(e.extra@) =~= json_map(before).insert("fact_count"@, count_view(fact_count)));
        }
        Some(e)
    }

    /// A line to send: over TCP or UDP it goes out at once (nothing is kept,
    /// and `false` is returned); over HTTP it joins the buffer, and the
    /// result says whether a flush is due: the buffer holds a batch, or no
    /// flush was due before, or the flush interval has passed since (`now_ms`
    /// is a clock reading in milliseconds). When one is due, its time is
    /// recorded; the lines stay buffered until `take_buffer`.
    pub fn push_event(&mut self, line: String, now_ms: u64) -> (flush: bool)
        requires
            old(self).wf(),
        ensures
            final(self).wf(),
            final(self).spec_config() == old(self).spec_config(),
            final(self).spec_playbook() == old(self).spec_playbook(),
            final(self).spec_play() == old(self).spec_play(),
            old(self).spec_config().protocol != LogstashProtocol::Http ==> {
                &&& !flush
                &&& final(self).spec_buffer() == old(self).spec_buffer()
                &&& final(self).spec_last_flush() == old(self).spec_last_flush()
            },
            old(self).spec_config().protocol == LogstashProtocol::Http ==> {
                &&& final(self).spec_buffer() == old(self).spec_buffer().push(line@)
                &&& flush == (final(self).spec_buffer().len() >= old(self).spec_config().batch_size || match old(
                    self,
                ).spec_last_flush() {
                    None => true,
                    Some(t) => (if now_ms >= t { now_ms - t } else { 0 }) >= old(self).spec_config().flush_interval_ms,
                })
                &&& final(self).spec_last_flush() == if flush {
                    Some(now_ms)
                } else {
                    old(self).spec_last_flush()
                }
            },
    {
        match self.config.protocol {
            LogstashProtocol::Http => {},
            _ => return false,
        }
        let ghost before = views(self.buffer@);
        self.buffer.push(line);
        proof {
            assert(views(self.buffer@) =~= before.push(line@));
        }
        let due = match self.last_flush {
            None => true,
            Some(t) => (if now_ms >= t { now_ms - t } else { 0 }) >= self.config.flush_interval_ms,
        };
        let flush = self.buffer.len() >= self.config.batch_size || due;
        if flush {
            self.last_flush = Some(now_ms);
        }
        flush
    }

    /// The buffered lines as one body to post (joined by newlines), which
    /// empties the buffer; nothing when the protocol is not HTTP or nothing
    /// is buffered.
    pub fn take_buffer(&mut self) -> (r: Option<String>)
        requires
            old(self).wf(),
        ensures
            final(self).wf(),
            final(self).spec_config() == old(self).spec_config(),
            final(self).spec_playbook() == old(self).spec_playbook(),
            final(self).spec_play() == old(self).spec_play(),
            final(self).spec_last_flush() == old(self).spec_last_flush(),
            old(self).spec_config().protocol != LogstashProtocol::Http || old(self).spec_buffer().len() == 0 ==> {
                &&& r is None
                &&& final(self).spec_buffer() == old(self).spec_buffer()
            },
            old(self).spec_config().protocol == LogstashProtocol::Http && old(self).spec_buffer().len() > 0 ==> {
                &&& r matches Some(b) && b@ == join_seq(old(self).spec_buffer(), "\n"@)
                &&& final(self).spec_buffer() == Seq::<Seq<char>>::empty()
            },
    {
        match self.config.protocol {
            LogstashProtocol::Http => {},
            _ => return None,
        }
        if self.buffer.len() == 0 {
            return None;
        }
        let body = join_strings(&self.buffer, "\n");
        self.buffer = Vec::new();
        proof {
            assert(views(self.buffer@) =~= Seq::<Seq<char>>::empty());
        }
        Some(body)
    }
}

} // verus!
