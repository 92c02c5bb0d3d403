//! The log file plugin: its configuration, the events it logs and their
//! human-readable lines, per-host log counts, the choice of which results
//! are logged, and which old log files rotation removes.
use vstd::prelude::*;
use crate::environment::{trim_text, trimmed};
use crate::plugins::actionable::{lemma_sorted_keys, opt_chars, sorted_keys};
use crate::table::{views, HostTable};
use crate::text::{
    alphanumeric, is_alphanumeric, dec, ends_with_seq, push_dec, push_str, starts_with_seq, str_ends_with, str_eq, str_starts_with, chars_of,
    string_of_chars,
};
use crate::plugins::context::{find_entry, obj_get};
use crate::types::{
    classify, compact_json, compact_text, inc, jview, outcome_of, pretty_json, pretty_text, wrap_inc, Elapsed, ExecutionResult,
    JsonValue, JsonView, TaskOutcome,
};

verus! {

/// Configuration of the log file plugin.
#[derive(Clone, Debug)]
pub struct LogFileConfig {
    /// Where log files go.
    pub log_directory: String,
    /// JSON lines beside the text log.
    pub json_format: bool,
    /// Log files kept (0 keeps all).
    pub max_log_files: usize,
    /// Days a log file is kept (0 keeps all).
    pub max_log_age_days: u32,
    /// The start of log file names.
    pub log_prefix: String,
    /// Task arguments are logged.
    pub include_task_args: bool,
    /// Task output is logged.
    pub include_output: bool,
    /// Diffs are logged.
    pub include_diffs: bool,
    /// Each entry is flushed at once.
    pub flush_immediately: bool,
    /// Logs are appended to.
    pub append: bool,
    /// `all`, `changes` or `failures`.
    pub log_level: String,
}

/// The default configuration apart from the directory.
pub open spec fn default_except_directory(c: LogFileConfig) -> bool {
    &&& !c.json_format
    &&& c.max_log_files == 50
    &&& c.max_log_age_days == 0
    &&& c.log_prefix@ == "rustible"@
    &&& !c.include_task_args
    &&& c.include_output
    &&& !c.include_diffs
    &&& c.flush_immediately
    &&& !c.append
    &&& c.log_level@ == "all"@
}

impl Default for LogFileConfig {
    fn default() -> (c: Self)
        ensures
            c.log_directory@ == "./logs"@,
            default_except_directory(c),
    {
        LogFileConfig {
            log_directory: "./logs".to_owned(),
            json_format: false,
            max_log_files: 50,
            max_log_age_days: 0,
            log_prefix: "rustible".to_owned(),
            include_task_args: false,
            include_output: true,
            include_diffs: false,
            flush_immediately: true,
            append: false,
            log_level: "all".to_owned(),
        }
    }
}

impl LogFileConfig {
    /// A builder starting from the default configuration.
    pub fn builder() -> (b: LogFileConfigBuilder)
        ensures
            b.config.log_directory@ == "./logs"@,
            default_except_directory(b.config),
    {
        LogFileConfigBuilder { config: LogFileConfig::default() }
    }

    /// The default configuration with another directory.
    pub fn with_directory(directory: &str) -> (c: Self)
        ensures
            c.log_directory@ == directory@,
            default_except_directory(c),
    {
        LogFileConfig { log_directory: directory.to_owned(), ..LogFileConfig::default() }
    }
}

/// Builds a log file configuration step by step.
#[derive(Clone, Debug)]
pub struct LogFileConfigBuilder {
    pub config: LogFileConfig,
}

impl LogFileConfigBuilder {
    /// Sets the directory.
    pub fn log_directory(self, path: &str) -> (b: Self)
        ensures
            b.config == (LogFileConfig { log_directory: b.config.log_directory, ..self.config }),
            b.config.log_directory@ == path@,
    {
        LogFileConfigBuilder { config: LogFileConfig { log_directory: path.to_owned(), ..self.config } }
    }

    /// Turns JSON logs on or off.
    pub fn json_format(self, enabled: bool) -> (b: Self)
        ensures
            b.config == (LogFileConfig { json_format: enabled, ..self.config }),
    {
        LogFileConfigBuilder { config: LogFileConfig { json_format: enabled, ..self.config } }
    }

    /// Sets the number of log files kept.
    pub fn max_log_files(self, count: usize) -> (b: Self)
        ensures
            b.config == (LogFileConfig { max_log_files: count, ..self.config }),
    {
        LogFileConfigBuilder { config: LogFileConfig { max_log_files: count, ..self.config } }
    }

    /// Sets the days a log file is kept.
    pub fn max_log_age_days(self, days: u32) -> (b: Self)
        ensures
            b.config == (LogFileConfig { max_log_age_days: days, ..self.config }),
    {
        LogFileConfigBuilder { config: LogFileConfig { max_log_age_days: days, ..self.config } }
    }

    /// Sets the start of log file names.
    pub fn log_prefix(self, prefix: &str) -> (b: Self)
        ensures
            b.config == (LogFileConfig { log_prefix: b.config.log_prefix, ..self.config }),
            b.config.log_prefix@ == prefix@,
    {
        LogFileConfigBuilder { config: LogFileConfig { log_prefix: prefix.to_owned(), ..self.config } }
    }

    /// Turns task argument logging on or off.
    pub fn include_task_args(self, enabled: bool) -> (b: Self)
        ensures
            b.config == (LogFileConfig { include_task_args: enabled, ..self.config }),
    {
        LogFileConfigBuilder { config: LogFileConfig { include_task_args: enabled, ..self.config } }
    }

    /// Turns output logging on or off.
    pub fn include_output(self, enabled: bool) -> (b: Self)
        ensures
            b.config == (LogFileConfig { include_output: enabled, ..self.config }),
    {
        LogFileConfigBuilder { config: LogFileConfig { include_output: enabled, ..self.config } }
    }

    /// Turns diff logging on or off.
    pub fn include_diffs(self, enabled: bool) -> (b: Self)
        ensures
            b.config == (LogFileConfig { include_diffs: enabled, ..self.config }),
    {
        LogFileConfigBuilder { config: LogFileConfig { include_diffs: enabled, ..self.config } }
    }

    /// Turns flushing after each entry on or off.
    pub fn flush_immediately(self, enabled: bool) -> (b: Self)
        ensures
            b.config == (LogFileConfig { flush_immediately: enabled, ..self.config }),
    {
        LogFileConfigBuilder { config: LogFileConfig { flush_immediately: enabled, ..self.config } }
    }

    /// Turns appending on or off.
    pub fn append(self, enabled: bool) -> (b: Self)
        ensures
            b.config == (LogFileConfig { append: enabled, ..self.config }),
    {
        LogFileConfigBuilder { config: LogFileConfig { append: enabled, ..self.config } }
    }

    /// Sets the log level (`all`, `changes` or `failures`).
    pub fn log_level(self, level: &str) -> (b: Self)
        ensures
            b.config == (LogFileConfig { log_level: b.config.log_level, ..self.config }),
            b.config.log_level@ == level@,
    {
        LogFileConfigBuilder { config: LogFileConfig { log_level: level.to_owned(), ..self.config } }
    }

    /// The configuration.
    pub fn build(self) -> (c: LogFileConfig)
        ensures
            c == self.config,
    {
        self.config
    }
}

impl Default for LogFileConfigBuilder {
    fn default() -> (b: Self)
        ensures
            b.config.log_directory@ == "./logs"@,
            default_except_directory(b.config),
    {
        LogFileConfig::builder()
    }
}

/// Task counts of one host in the log summary.
#[derive(Clone, Copy, Debug, PartialEq, Eq, Structural)]
pub struct HostLogStats {
    pub ok: u32,
    pub changed: u32,
    pub failed: u32,
    pub skipped: u32,
    pub unreachable: u32,
}

impl Default for HostLogStats {
    fn default() -> (s: Self)
        ensures
            s == (HostLogStats { ok: 0, changed: 0, failed: 0, skipped: 0, unreachable: 0 }),
    {
        HostLogStats { ok: 0, changed: 0, failed: 0, skipped: 0, unreachable: 0 }
    }
}

/// Whether a result is logged at a level: failures only, changes and
/// failures, or everything (`all` and any other level).
pub open spec fn logged_at(level: Seq<char>, success: bool, changed: bool) -> bool {
    if level == "failures"@ {
        !success
    } else if level == "changes"@ {
        changed || !success
    } else {
        true
    }
}

/// Whether a result is logged at the configured level.
pub fn should_log_result(config: &LogFileConfig, result: &ExecutionResult) -> (b: bool)
    ensures
        b == logged_at(config.log_level@, result.result.success, result.result.changed),
{
    let level = config.log_level.as_str();
    if str_eq(level, "failures") {
        !result.result.success
    } else if str_eq(level, "changes") {
        result.result.changed || !result.result.success
    } else {
        true
    }
}


// ---------------------------------------------------------------------------
// Log events and their human-readable lines
// ---------------------------------------------------------------------------

/// An event written to the log.
#[derive(Debug)]
pub enum LogEvent {
    /// A playbook started.
    PlaybookStart { playbook: String },
    /// A playbook ended, after `duration`, with the counts per host.
    PlaybookEnd { playbook: String, duration: Elapsed, success: bool, stats: HostTable<HostLogStats> },
    /// A play started on hosts (listed with `, `).
    PlayStart { name: String, hosts: String },
    /// A play ended.
    PlayEnd { name: String, success: bool },
    /// A task started on a host.
    TaskStart { name: String, host: String, module: Option<String>, args: Option<JsonValue> },
    /// A task finished on a host.
    TaskResult {
        host: String,
        task_name: String,
        status: String,
        changed: bool,
        duration: Option<Elapsed>,
        message: Option<String>,
        stdout: Option<String>,
        stderr: Option<String>,
        diff: Option<String>,
    },
    /// A handler was notified.
    HandlerTriggered { name: String },
    /// Facts were gathered on a host.
    FactsGathered { host: String, fact_count: usize },
    /// A host could not be reached.
    HostUnreachable { host: String, task_name: String, error: String },
    /// A warning.
    Warning { message: String },
    /// A debug message, about a host or not.
    Debug { host: Option<String>, message: String },
}

/// The timestamp in brackets that starts every log line.
pub open spec fn stamp(ts: Seq<char>) -> Seq<char> {
    "["@ + ts + "]"@
}

/// The word for how something ended.
pub open spec fn outcome_word(success: bool) -> Seq<char> {
    if success { "SUCCESS"@ } else { "FAILED"@ }
}

/// The count line of one host at the end of a playbook.
pub open spec fn host_count_line(ts: Seq<char>, host: Seq<char>, s: HostLogStats) -> Seq<char> {
    "\n"@ + stamp(ts) + "   "@ + host + ": ok="@ + dec(s.ok as nat) + " changed="@ + dec(s.changed as nat) + " failed="@
        + dec(s.failed as nat) + " skipped="@ + dec(s.skipped as nat) + " unreachable="@ + dec(s.unreachable as nat)
}

/// The count lines of the hosts `hs`, in that order.
pub open spec fn host_count_lines(ts: Seq<char>, hs: Seq<Seq<char>>, m: Map<Seq<char>, HostLogStats>) -> Seq<char>
    decreases hs.len(),
{
    if hs.len() == 0 {
        Seq::empty()
    } else {
        host_count_lines(ts, hs.drop_last(), m) + host_count_line(ts, hs.last(), m[hs.last()])
    }
}

/// An indented detail line (`msg`, `stdout`, `stderr`) when the text is
/// not empty.
pub open spec fn detail_part(ts: Seq<char>, label: Seq<char>, text: Option<Seq<char>>) -> Seq<char> {
    match text {
        Some(t) => if t.len() > 0 { "\n"@ + stamp(ts) + "   "@ + label + ": "@ + t } else { Seq::empty() },
        None => Seq::empty(),
    }
}

/// The first line of a task result.
pub open spec fn result_head(
    ts: Seq<char>,
    host: Seq<char>,
    task: Seq<char>,
    status: Seq<char>,
    changed: bool,
    timed: bool,
    dur: Seq<char>,
) -> Seq<char> {
    stamp(ts) + " TASK RESULT: "@ + host + " | "@ + task + " | "@ + status + (if changed {
        " (changed)"@
    } else {
        Seq::empty()
    }) + (if timed {
        " ("@ + dur + "s)"@
    } else {
        Seq::empty()
    })
}

/// Trimmed text, if there is any.
pub open spec fn trimmed_opt(o: Option<String>) -> Option<Seq<char>> {
    match o {
        Some(t) => Some(trimmed(t@)),
        None => None,
    }
}

/// The detail lines of a task result: message, output and diff, each when
/// present and not empty.
pub open spec fn result_tail(
    ts: Seq<char>,
    message: Option<String>,
    stdout: Option<String>,
    stderr: Option<String>,
    diff: Option<String>,
) -> Seq<char> {
    detail_part(ts, "msg"@, opt_chars(message)) + detail_part(ts, "stdout"@, trimmed_opt(stdout)) + detail_part(
        ts,
        "stderr"@,
        trimmed_opt(stderr),
    ) + (match diff {
        Some(d) => if d@.len() > 0 { "\n"@ + stamp(ts) + "   diff:\n"@ + d@ } else { Seq::empty() },
        None => Seq::empty(),
    })
}

/// The human-readable text of an event logged at `ts`; `dur` is the
/// event's duration in seconds with three decimals (used by the events
/// that carry one).
pub open spec fn human_text(ts: Seq<char>, e: LogEvent, dur: Seq<char>) -> Seq<char> {
    let st = stamp(ts);
    match e {
        LogEvent::PlaybookStart { playbook } => st + " PLAYBOOK START: "@ + playbook@,
        LogEvent::PlaybookEnd { playbook, success, stats, .. } => st + " PLAYBOOK END: "@ + playbook@ + " | "@
            + outcome_word(success) + " | Duration: "@ + dur + "s"@ + host_count_lines(ts, sorted_keys(stats@), stats@),
        LogEvent::PlayStart { name, hosts } => st + " PLAY START: "@ + name@ + " | hosts: "@ + hosts@,
        LogEvent::PlayEnd { name, success } => st + " PLAY END: "@ + name@ + " | "@ + outcome_word(success),
        LogEvent::TaskStart { name, host, module, args } => st + " TASK START: "@ + name@ + " | host: "@ + host@
            + " | module: "@ + (match module {
            Some(m) => m@,
            None => "unknown"@,
        }) + (match args {
            Some(a) => " | args: "@ + compact_text(jview(a)),
            None => Seq::empty(),
        }),
        LogEvent::TaskResult { host, task_name, status, changed, duration, message, stdout, stderr, diff } =>
            result_head(ts, host@, task_name@, status@, changed, duration is Some, dur) + result_tail(
            ts,
            message,
            stdout,
            stderr,
            diff,
        ),
        LogEvent::HandlerTriggered { name } => st + " HANDLER TRIGGERED: "@ + name@,
        LogEvent::FactsGathered { host, fact_count } => st + " FACTS GATHERED: "@ + host@ + " | "@ + dec(
            fact_count as nat,
        ) + " facts"@,
        LogEvent::HostUnreachable { host, task_name, error } => st + " HOST UNREACHABLE: "@ + host@ + " | "@
            + task_name@ + " | "@ + error@,
        LogEvent::Warning { message } => st + " WARNING: "@ + message@,
        LogEvent::Debug { host, message } => match host {
            Some(h) => st + " DEBUG: "@ + h@ + " | "@ + message@,
            None => st + " DEBUG: "@ + message@,
        },
    }
}

fn push_stamp(s: &mut String, ts: &str)
    ensures
        final(s)@ == old(s)@ + stamp(ts@),
{
    push_str(s, "[");
    push_str(s, ts);
    push_str(s, "]");
}

fn host_line_text(ts: &str, host: &str, c: HostLogStats) -> (r: String)
    ensures
        r@ == host_count_line(ts@, host@, c),
{
    let mut s = String::new();
    push_str(&mut s, "\n");
    push_stamp(&mut s, ts);
    push_str(&mut s, "   ");
    push_str(&mut s, host);
    push_str(&mut s, ": ok=");
    push_dec(&mut s, c.ok as u64);
    push_str(&mut s, " changed=");
    push_dec(&mut s, c.changed as u64);
    push_str(&mut s, " failed=");
    push_dec(&mut s, c.failed as u64);
    push_str(&mut s, " skipped=");
    push_dec(&mut s, c.skipped as u64);
    push_str(&mut s, " unreachable=");
    push_dec(&mut s, c.unreachable as u64);
    proof {
        assert(s@ =~= host_count_line(ts@, host@, c));
    }
    s
}

fn push_host_counts(s: &mut String, ts: &str, stats: &HostTable<HostLogStats>)
    requires
        stats.wf(),
    ensures
        final(s)@ == old(s)@ + host_count_lines(ts@, sorted_keys(stats@), stats@),
{
    let hosts = stats.sorted_names();
    proof {
        lemma_sorted_keys(views(hosts@), stats@);
    }
    let ghost start = s@;
    let mut i: usize = 0;
    while i < hosts.len()
        invariant
            stats.wf(),
            i <= hosts.len(),
            forall|k: Seq<char>| stats@.contains_key(k) <==> views(hosts@).contains(k),
            s@ == start + host_count_lines(ts@, views(hosts@).subrange(0, i as int), stats@),
        decreases hosts.len() - i,
    {
        let h = hosts[i].as_str();
        let ghost prev = s@;
        proof {
            assert(views(hosts@)[i as int] == h@);
            assert(views(hosts@).contains(h@));
        }
        let c = match stats.get(h) {
            Some(c) => c,
            None => HostLogStats { ok: 0, changed: 0, failed: 0, skipped: 0, unreachable: 0 },
        };
        let t = host_line_text(ts, h, c);
        push_str(s, t.as_str());
        proof {
            let sub = views(hosts@).subrange(0, i + 1);
            assert(sub.drop_last() =~= views(hosts@).subrange(0, i as int));
            assert(sub.last() == h@);
            assert(host_count_lines(ts@, sub, stats@) == host_count_lines(ts@, sub.drop_last(), stats@)
                + host_count_line(ts@, h@, stats@[h@]));
            assert(s@ =~= start + host_count_lines(ts@, sub, stats@));
        }
        i = i + 1;
    }
    proof {
        assert(views(hosts@).subrange(0, i as int) =~= views(hosts@));
    }
}

fn playbook_end_text(ts: &str, e: &LogEvent, dur: &str) -> (r: String)
    requires
        e matches LogEvent::PlaybookEnd { stats, .. } && stats.wf(),
    ensures
        r@ == human_text(ts@, *e, dur@),
{
    let mut s = String::new();
    match e {
        LogEvent::PlaybookEnd { playbook, success, stats, .. } => {
            push_stamp(&mut s, ts);
            push_str(&mut s, " PLAYBOOK END: ");
            push_str(&mut s, playbook.as_str());
            push_str(&mut s, " | ");
            push_str(&mut s, if *success { "SUCCESS" } else { "FAILED" });
            push_str(&mut s, " | Duration: ");
            push_str(&mut s, dur);
            push_str(&mut s, "s");
            proof {
                reveal_strlit("SUCCESS");
                reveal_strlit("FAILED");
            }
            push_host_counts(&mut s, ts, stats);
            proof {
                assert(s@ =~= human_text(ts@, *e, dur@));
            }
        },
        _ => {},
    }
    s
}

fn task_start_text(ts: &str, e: &LogEvent, dur: &str) -> (r: String)
    requires
        e is TaskStart,
    ensures
        r@ == human_text(ts@, *e, dur@),
{
    let mut s = String::new();
    match e {
        LogEvent::TaskStart { name, host, module, args } => {
            push_stamp(&mut s, ts);
            push_str(&mut s, " TASK START: ");
            push_str(&mut s, name.as_str());
            push_str(&mut s, " | host: ");
            push_str(&mut s, host.as_str());
            push_str(&mut s, " | module: ");
            match module {
                Some(m) => push_str(&mut s, m.as_str()),
                None => push_str(&mut s, "unknown"),
            }
            let ghost mid = s@;
            match args {
                Some(a) => {
                    push_str(&mut s, " | args: ");
                    let t = compact_json(a);
                    push_str(&mut s, t.as_str());
                },
                None => {},
            }
            proof {
                assert(s@ =~= human_text(ts@, *e, dur@));
            }
        },
        _ => {},
    }
    s
}

fn push_opt_detail(s: &mut String, ts: &str, label: &str, text: &Option<String>, trim: bool)
    ensures
        final(s)@ == old(s)@ + detail_part(ts@, label@, if trim { trimmed_opt(*text) } else { opt_chars(*text) }),
{
    match text {
        Some(o) => {
            let t = if trim { trim_text(o.as_str()) } else { o.clone() };
            if t.as_str().unicode_len() > 0 {
                push_str(s, "\n");
                push_stamp(s, ts);
                push_str(s, "   ");
                push_str(s, label);
                push_str(s, ": ");
                push_str(s, t.as_str());
            }
        },
        None => {},
    }
}

fn result_head_text(
    ts: &str,
    host: &str,
    task: &str,
    status: &str,
    changed: bool,
    timed: bool,
    dur: &str,
) -> (r: String)
    ensures
        r@ == result_head(ts@, host@, task@, status@, changed, timed, dur@),
{
    let mut s = String::new();
    push_stamp(&mut s, ts);
    push_str(&mut s, " TASK RESULT: ");
    push_str(&mut s, host);
    push_str(&mut s, " | ");
    push_str(&mut s, task);
    push_str(&mut s, " | ");
    push_str(&mut s, status);
    if changed {
        push_str(&mut s, " (changed)");
    }
    if timed {
        push_str(&mut s, " (");
        push_str(&mut s, dur);
        push_str(&mut s, "s)");
    }
    proof {
        assert(s@ =~= result_head(ts@, host@, task@, status@, changed, timed, dur@));
    }
    s
}

fn result_tail_text(
    ts: &str,
    message: &Option<String>,
    stdout: &Option<String>,
    stderr: &Option<String>,
    diff: &Option<String>,
) -> (r: String)
    ensures
        r@ == result_tail(ts@, *message, *stdout, *stderr, *diff),
{
    let mut s = String::new();
    push_opt_detail(&mut s, ts, "msg", message, false);
    push_opt_detail(&mut s, ts, "stdout", stdout, true);
    push_opt_detail(&mut s, ts, "stderr", stderr, true);
    match diff {
        Some(d) => {
            if d.as_str().unicode_len() > 0 {
                push_str(&mut s, "\n");
                push_stamp(&mut s, ts);
                push_str(&mut s, "   diff:\n");
                push_str(&mut s, d.as_str());
            }
        },
        None => {},
    }
    proof {
        assert(s@ =~= result_tail(ts@, *message, *stdout, *stderr, *diff));
    }
    s
}

fn task_result_text(ts: &str, e: &LogEvent, dur: &str) -> (r: String)
    requires
        e is TaskResult,
    ensures
        r@ == human_text(ts@, *e, dur@),
{
    match e {
        LogEvent::TaskResult { host, task_name, status, changed, duration, message, stdout, stderr, diff } => {
            let mut s = result_head_text(
                ts,
                host.as_str(),
                task_name.as_str(),
                status.as_str(),
                *changed,
                duration.is_some(),
                dur,
            );
            let t = result_tail_text(ts, message, stdout, stderr, diff);
            push_str(&mut s, t.as_str());
            s
        },
        _ => String::new(),
    }
}

/// The human-readable text of an event logged at `timestamp`;
/// `duration_text` is its duration in seconds with three decimals.
pub fn human_line(timestamp: &str, e: &LogEvent, duration_text: &str) -> (r: String)
    requires
        e matches LogEvent::PlaybookEnd { stats, .. } ==> stats.wf(),
    ensures
        r@ == human_text(timestamp@, *e, duration_text@),
{
    let ts = timestamp;
    match e {
        LogEvent::PlaybookEnd { .. } => return playbook_end_text(ts, e, duration_text),
        LogEvent::TaskStart { .. } => return task_start_text(ts, e, duration_text),
        LogEvent::TaskResult { .. } => return task_result_text(ts, e, duration_text),
        _ => {},
    }
    let mut s = String::new();
    push_stamp(&mut s, ts);
    match e {
        LogEvent::PlaybookStart { playbook } => {
            push_str(&mut s, " PLAYBOOK START: ");
            push_str(&mut s, playbook.as_str());
        },
        LogEvent::PlayStart { name, hosts } => {
            push_str(&mut s, " PLAY START: ");
            push_str(&mut s, name.as_str());
            push_str(&mut s, " | hosts: ");
            push_str(&mut s, hosts.as_str());
        },
        LogEvent::PlayEnd { name, success } => {
            push_str(&mut s, " PLAY END: ");
            push_str(&mut s, name.as_str());
            push_str(&mut s, " | ");
            push_str(&mut s, if *success { "SUCCESS" } else { "FAILED" });
        },
        LogEvent::HandlerTriggered { name } => {
            push_str(&mut s, " HANDLER TRIGGERED: ");
            push_str(&mut s, name.as_str());
        },
        LogEvent::FactsGathered { host, fact_count } => {
            push_str(&mut s, " FACTS GATHERED: ");
            push_str(&mut s, host.as_str());
            push_str(&mut s, " | ");
            push_dec(&mut s, *fact_count as u64);
            push_str(&mut s, " facts");
        },
        LogEvent::HostUnreachable { host, task_name, error } => {
            push_str(&mut s, " HOST UNREACHABLE: ");
            push_str(&mut s, host.as_str());
            push_str(&mut s, " | ");
            push_str(&mut s, task_name.as_str());
            push_str(&mut s, " | ");
            push_str(&mut s, error.as_str());
        },
        LogEvent::Warning { message } => {
            push_str(&mut s, " WARNING: ");
            push_str(&mut s, message.as_str());
        },
        LogEvent::Debug { host, message } => {
            push_str(&mut s, " DEBUG: ");
            match host {
                Some(h) => {
                    push_str(&mut s, h.as_str());
                    push_str(&mut s, " | ");
                },
                None => {},
            }
            push_str(&mut s, message.as_str());
        },
        _ => {},
    }
    proof {
        assert(s@ =~= human_text(timestamp@, *e, duration_text@));
    }
    s
}


// ---------------------------------------------------------------------------
// The callback's state
// ---------------------------------------------------------------------------

/// The counts of `host`, or zero counts when it has none yet.
pub open spec fn log_stats_of(m: Map<Seq<char>, HostLogStats>, host: Seq<char>) -> HostLogStats {
    if m.contains_key(host) {
        m[host]
    } else {
        HostLogStats { ok: 0, changed: 0, failed: 0, skipped: 0, unreachable: 0 }
    }
}

/// The counts after one more result of the given outcome.
pub open spec fn count_log(s: HostLogStats, o: TaskOutcome) -> HostLogStats {
    match o {
        TaskOutcome::Skipped => HostLogStats { skipped: wrap_inc(s.skipped), ..s },
        TaskOutcome::Failed => HostLogStats { failed: wrap_inc(s.failed), ..s },
        TaskOutcome::Changed => HostLogStats { changed: wrap_inc(s.changed), ..s },
        TaskOutcome::Unchanged => HostLogStats { ok: wrap_inc(s.ok), ..s },
    }
}

/// A finished task counts once, under its own kind: a skipped task as
/// skipped, else a task that did not succeed as failed, else a changed one
/// as changed, else as ok; the other counts stay as they were.
pub proof fn lemma_count_result(s: HostLogStats, r: crate::types::ModuleResult)
    requires
        s.ok < u32::MAX,
        s.changed < u32::MAX,
        s.failed < u32::MAX,
        s.skipped < u32::MAX,
    ensures
        count_log(s, crate::types::outcome_of(r)).failed == s.failed + if !r.skipped && !r.success { 1int } else { 0int },
        count_log(s, crate::types::outcome_of(r)).skipped == s.skipped + if r.skipped { 1int } else { 0int },
        count_log(s, crate::types::outcome_of(r)).changed == s.changed + if !r.skipped && r.success && r.changed { 1int } else { 0int },
        count_log(s, crate::types::outcome_of(r)).ok == s.ok + if !r.skipped && r.success && !r.changed { 1int } else { 0int },
        count_log(s, crate::types::outcome_of(r)).unreachable == s.unreachable,
{
}

/// The status word of an outcome.
pub open spec fn status_word(o: TaskOutcome) -> Seq<char> {
    match o {
        TaskOutcome::Skipped => "SKIPPED"@,
        TaskOutcome::Failed => "FAILED"@,
        TaskOutcome::Changed => "CHANGED"@,
        TaskOutcome::Unchanged => "OK"@,
    }
}

/// A skipped task is logged as `SKIPPED`, else a task that did not
/// succeed as `FAILED`, else a changed one as `CHANGED`, else as `OK`.
pub proof fn lemma_status_word(r: crate::types::ModuleResult)
    ensures
        r.skipped ==> status_word(crate::types::outcome_of(r)) == "SKIPPED"@,
        !r.skipped && !r.success ==> status_word(crate::types::outcome_of(r)) == "FAILED"@,
        !r.skipped && r.success && r.changed ==> status_word(crate::types::outcome_of(r)) == "CHANGED"@,
        !r.skipped && r.success && !r.changed ==> status_word(crate::types::outcome_of(r)) == "OK"@,
{
}

/// The field `key` of a result's data, when the data is an object that has
/// it (the first entry of that name).
pub open spec fn data_field(result: ExecutionResult, key: Seq<char>) -> Option<JsonView> {
    match result.result.data {
        Some(d) => match jview(d) {
            JsonView::Object(es) => obj_get(es, key),
            _ => None,
        },
        None => None,
    }
}

/// The field `key` of a result's data when it is a string.
pub open spec fn data_str(result: ExecutionResult, key: Seq<char>) -> Option<Seq<char>> {
    match data_field(result, key) {
        Some(JsonView::Str(s)) => Some(s),
        _ => None,
    }
}

fn field_of<'a>(result: &'a ExecutionResult, key: &str) -> (r: Option<&'a JsonValue>)
    ensures
        match r {
            Some(v) => data_field(*result, key@) == Some(jview(*v)),
            None => data_field(*result, key@) is None,
        },
{
    match &result.result.data {
        Some(JsonValue::Object(es)) => find_entry(es, key),
        _ => None,
    }
}

fn str_field(result: &ExecutionResult, key: &str) -> (r: Option<String>)
    ensures
        opt_chars(r) == data_str(*result, key@),
{
    match field_of(result, key) {
        Some(JsonValue::String(t)) => Some(t.clone()),
        _ => None,
    }
}

/// What the log file plugin keeps between events: the counts per host,
/// whether something failed, and the current playbook and task.
#[derive(Debug)]
pub struct LogFileCallback {
    config: LogFileConfig,
    host_stats: HostTable<HostLogStats>,
    has_failures: bool,
    playbook_name: Option<String>,
    current_task: Option<String>,
}

impl LogFileCallback {
    /// The count table is well formed.
    pub closed spec fn wf(&self) -> bool {
        self.host_stats.wf()
    }

    /// The configuration.
    pub closed spec fn spec_config(&self) -> LogFileConfig {
        self.config
    }

    /// The counts per host.
    pub closed spec fn stats(&self) -> Map<Seq<char>, HostLogStats> {
        self.host_stats@
    }

    /// Whether something failed or a host was unreachable.
    pub closed spec fn spec_failures(&self) -> bool {
        self.has_failures
    }

    /// The current playbook.
    pub closed spec fn spec_playbook(&self) -> Option<Seq<char>> {
        opt_chars(self.playbook_name)
    }

    /// The current task.
    pub closed spec fn spec_task(&self) -> Option<Seq<char>> {
        opt_chars(self.current_task)
    }

    /// A callback with the given configuration and no counts.
    pub fn new(config: LogFileConfig) -> (c: Self)
        ensures
            c.wf(),
            c.spec_config() == config,
            c.stats() == Map::<Seq<char>, HostLogStats>::empty(),
            !c.spec_failures(),
            c.spec_playbook() is None,
            c.spec_task() is None,
    {
        LogFileCallback {
            config,
            host_stats: HostTable::new(),
            has_failures: false,
            playbook_name: None,
            current_task: None,
        }
    }

    /// The configuration.
    pub fn config(&self) -> (c: &LogFileConfig)
        ensures
            *c == self.spec_config(),
    {
        &self.config
    }

    /// Whether something failed or a host was unreachable.
    pub fn has_failures(&self) -> (b: bool)
        ensures
            b == self.spec_failures(),
    {
        self.has_failures
    }

    /// The counts per host.
    pub fn get_stats(&self) -> (t: &HostTable<HostLogStats>)
        ensures
            t@ == self.stats(),
    {
        &self.host_stats
    }

    /// A playbook starts: the counts and the failure flag are reset; the
    /// event to log.
    pub fn on_playbook_start(&mut self, name: &str) -> (e: LogEvent)
        ensures
            final(self).wf(),
            final(self).spec_config() == old(self).spec_config(),
            final(self).stats() == Map::<Seq<char>, HostLogStats>::empty(),
            !final(self).spec_failures(),
            final(self).spec_playbook() == Some(name@),
            final(self).spec_task() == old(self).spec_task(),
            e matches LogEvent::PlaybookStart { playbook } && playbook@ == name@,
    {
        self.host_stats = HostTable::new();
        self.has_failures = false;
        self.playbook_name = Some(name.to_owned());
        LogEvent::PlaybookStart { playbook: name.to_owned() }
    }

    /// A playbook ends after `duration`: the event to log, with the counts.
    pub fn on_playbook_end(&self, name: &str, success: bool, duration: Elapsed) -> (e: LogEvent)
        requires
            self.wf(),
        ensures
            e matches LogEvent::PlaybookEnd { playbook, duration: d, success: s, stats } && playbook@ == name@ && d
                == duration && s == success && stats.wf() && stats@ == self.stats(),
    {
        LogEvent::PlaybookEnd { playbook: name.to_owned(), duration, success, stats: self.host_stats.copy_table() }
    }

    /// A play starts: its hosts get (zero) counts; the event to log, with
    /// the hosts joined by `, `.
    pub fn on_play_start(&mut self, name: &str, hosts: &Vec<String>) -> (e: LogEvent)
        requires
            old(self).wf(),
        ensures
            final(self).wf(),
            final(self).spec_config() == old(self).spec_config(),
            final(self).spec_failures() == old(self).spec_failures(),
            forall|k: Seq<char>| #[trigger] final(self).stats().contains_key(k) <==> (old(self).stats().contains_key(k)
                || views(hosts@).contains(k)),
            forall|k: Seq<char>| #[trigger] final(self).stats().contains_key(k) ==> final(self).stats()[k]
                == log_stats_of(old(self).stats(), k),
            e matches LogEvent::PlayStart { name: n, hosts: h } && n@ == name@ && h@ == crate::text::join_seq(
                views(hosts@),
                ", "@,
            ),
    {
        let mut i: usize = 0;
        while i < hosts.len()
            invariant
                i <= hosts.len(),
                self.host_stats.wf(),
                self.config == old(self).config,
                self.has_failures == old(self).has_failures,
                forall|k: Seq<char>| #[trigger] self.stats().contains_key(k) <==> (old(self).stats().contains_key(k)
                    || views(hosts@.subrange(0, i as int)).contains(k)),
                forall|k: Seq<char>| #[trigger] self.stats().contains_key(k) ==> self.stats()[k] == log_stats_of(
                    old(self).stats(),
                    k,
                ),
            decreases hosts.len() - i,
        {
            let ghost before = self.stats();
            self.host_stats.ensure(hosts[i].as_str(), HostLogStats { ok: 0, changed: 0, failed: 0, skipped: 0, unreachable: 0 });
            proof {
                let k0 = hosts@[i as int]@;
                assert forall|k: Seq<char>| #[trigger] self.stats().contains_key(k) implies self.stats()[k] == log_stats_of(
                    old(self).stats(),
                    k,
                ) by {
                    if before.contains_key(k) {
                        assert(self.stats()[k] == before[k]);
                    } else {
                        assert(k == k0);
                    }
                }
                let prev = views(hosts@.subrange(0, i as int));
                let cur = views(hosts@.subrange(0, i + 1));
                assert(cur =~= prev.push(hosts@[i as int]@));
                assert forall|k: Seq<char>| cur.contains(k) <==> (prev.contains(k) || k == hosts@[i as int]@) by {
                    if cur.contains(k) {
                        let j = choose|j: int| 0 <= j < cur.len() && cur[j] == k;
                        if j < prev.len() {
                            assert(prev[j] == k);
                        }
                    }
                    if prev.contains(k) {
                        let j = choose|j: int| 0 <= j < prev.len() && prev[j] == k;
                        assert(cur[j] == k);
                    }
                    if k == hosts@[i as int]@ {
                        assert(cur[i as int] == k);
                    }
                }
            }
            i = i + 1;
        }
        proof {
            assert(hosts@.subrange(0, i as int) =~= hosts@);
        }
        let joined = crate::text::join_strings(hosts, ", ");
        LogEvent::PlayStart { name: name.to_owned(), hosts: joined }
    }

    /// A task starts on a host: it becomes the current task; the event to
    /// log (without module or arguments).
    pub fn on_task_start(&mut self, name: &str, host: &str) -> (e: LogEvent)
        ensures
            final(self).wf() == old(self).wf(),
            final(self).spec_config() == old(self).spec_config(),
            final(self).stats() == old(self).stats(),
            final(self).spec_failures() == old(self).spec_failures(),
            final(self).spec_task() == Some(name@),
            e matches LogEvent::TaskStart { name: n, host: h, module, args } && n@ == name@ && h@ == host@
                && module is None && args is None,
    {
        self.current_task = Some(name.to_owned());
        LogEvent::TaskStart { name: name.to_owned(), host: host.to_owned(), module: None, args: None }
    }

    /// A task finished on a host: the host's counts take the outcome (a
    /// failure also sets the failure flag); when the configured level logs
    /// it, the event to log, with the message when there is one, the
    /// output (`stdout`, `stderr` strings of the data) when output is
    /// included, and the data's `diff` pretty-printed when diffs are.
    pub fn on_task_complete(&mut self, result: &ExecutionResult) -> (e: Option<LogEvent>)
        requires
            old(self).wf(),
        ensures
            final(self).wf(),
            final(self).spec_config() == old(self).spec_config(),
            final(self).spec_task() == old(self).spec_task(),
            final(self).stats() == old(self).stats().insert(
                result.host@,
                count_log(log_stats_of(old(self).stats(), result.host@), outcome_of(result.result)),
            ),
            final(self).spec_failures() == (old(self).spec_failures() || outcome_of(result.result)
                == TaskOutcome::Failed),
            e is Some == logged_at(old(self).spec_config().log_level@, result.result.success, result.result.changed),
            e matches Some(ev) ==> ev matches LogEvent::TaskResult {
                host,
                task_name,
                status,
                changed,
                duration,
                message,
                stdout,
                stderr,
                diff,
            } && host@ == result.host@ && task_name@ == result.task_name@ && status@ == status_word(
                outcome_of(result.result),
            ) && changed == result.result.changed && duration == Some(result.duration) && opt_chars(message) == (
            if result.result.message@.len() > 0 {
                Some(result.result.message@)
            } else {
                None
            }) && opt_chars(stdout) == (if old(self).spec_config().include_output {
                data_str(*result, "stdout"@)
            } else {
                None
            }) && opt_chars(stderr) == (if old(self).spec_config().include_output {
                data_str(*result, "stderr"@)
            } else {
                None
            }) && opt_chars(diff) == (if old(self).spec_config().include_diffs {
                match data_field(*result, "diff"@) {
                    Some(v) => Some(pretty_text(v)),
                    None => None,
                }
            } else {
                None
            }),
    {
        let host = result.host.as_str();
        let mut s = match self.host_stats.get(host) {
            Some(s) => s,
            None => HostLogStats { ok: 0, changed: 0, failed: 0, skipped: 0, unreachable: 0 },
        };
        let o = classify(&result.result);
        match o {
            TaskOutcome::Skipped => s.skipped = inc(s.skipped),
            TaskOutcome::Failed => {
                s.failed = inc(s.failed);
                self.has_failures = true;
            },
            TaskOutcome::Changed => s.changed = inc(s.changed),
            TaskOutcome::Unchanged => s.ok = inc(s.ok),
        }
        self.host_stats.set(host, s);
        if !should_log_result(&self.config, result) {
            return None;
        }
        let status = match o {
            TaskOutcome::Skipped => "SKIPPED",
            TaskOutcome::Failed => "FAILED",
            TaskOutcome::Changed => "CHANGED",
            TaskOutcome::Unchanged => "OK",
        };
        proof {
            reveal_strlit("SKIPPED");
            reveal_strlit("FAILED");
            reveal_strlit("CHANGED");
            reveal_strlit("OK");
            reveal_strlit("stdout");
            reveal_strlit("stderr");
            reveal_strlit("diff");
        }
        let message = if result.result.message.as_str().unicode_len() == 0 {
            None
        } else {
            Some(result.result.message.clone())
        };
        let (stdout, stderr) = if self.config.include_output {
            (str_field(result, "stdout"), str_field(result, "stderr"))
        } else {
            (None, None)
        };
        let diff = if self.config.include_diffs {
            match field_of(result, "diff") {
                Some(v) => Some(pretty_json(v)),
                None => None,
            }
        } else {
            None
        };
        Some(
            LogEvent::TaskResult {
                host: result.host.clone(),
                task_name: result.task_name.clone(),
                status: status.to_owned(),
                changed: result.result.changed,
                duration: Some(result.duration),
                message,
                stdout,
                stderr,
                diff,
            },
        )
    }

    /// A host could not be reached: its unreachable count goes up and the
    /// failure flag is set; the event to log.
    pub fn log_host_unreachable(&mut self, host: &str, task_name: &str, error: &str) -> (e: LogEvent)
        requires
            old(self).wf(),
        ensures
            final(self).wf(),
            final(self).spec_config() == old(self).spec_config(),
            final(self).spec_task() == old(self).spec_task(),
            final(self).stats() == old(self).stats().insert(
                host@,
                HostLogStats {
                    unreachable: wrap_inc(log_stats_of(old(self).stats(), host@).unreachable),
                    ..log_stats_of(old(self).stats(), host@)
                },
            ),
            final(self).spec_failures(),
            e matches LogEvent::HostUnreachable { host: h, task_name: t, error: x } && h@ == host@ && t@
                == task_name@ && x@ == error@,
    {
        let mut s = match self.host_stats.get(host) {
            Some(s) => s,
            None => HostLogStats { ok: 0, changed: 0, failed: 0, skipped: 0, unreachable: 0 },
        };
        s.unreachable = inc(s.unreachable);
        self.host_stats.set(host, s);
        self.has_failures = true;
        LogEvent::HostUnreachable { host: host.to_owned(), task_name: task_name.to_owned(), error: error.to_owned() }
    }

    /// The base name of a run's log files: the prefix, the playbook name
    /// made safe (see `sanitized`) and the time (`timestamp`, as
    /// `%Y%m%d_%H%M%S`), joined by `_`.
    pub fn generate_log_filename(&self, playbook_name: &str, timestamp: &str) -> (r: String)
        ensures
            r@ == self.spec_config().log_prefix@ + "_"@ + sanitized(playbook_name@) + "_"@ + timestamp@,
    {
        let mut r = self.config.log_prefix.clone();
        push_str(&mut r, "_");
        let s = sanitize_name(playbook_name);
        push_str(&mut r, s.as_str());
        push_str(&mut r, "_");
        push_str(&mut r, timestamp);
        r
    }

    /// A warning to log.
    pub fn log_warning(&self, message: &str) -> (e: LogEvent)
        ensures
            e matches LogEvent::Warning { message: m } && m@ == message@,
    {
        LogEvent::Warning { message: message.to_owned() }
    }

    /// A debug message to log, about a host or not.
    pub fn log_debug(&self, host: Option<&str>, message: &str) -> (e: LogEvent)
        ensures
            e matches LogEvent::Debug { host: h, message: m } && m@ == message@ && opt_chars(h) == match host {
                Some(x) => Some(x@),
                None => None::<Seq<char>>,
            },
    {
        let h = match host {
            Some(x) => Some(x.to_owned()),
            None => None,
        };
        LogEvent::Debug { host: h, message: message.to_owned() }
    }
}


// ---------------------------------------------------------------------------
// Log file names
// ---------------------------------------------------------------------------

/// A character of a playbook name as file names take it: path separators,
/// spaces and dots become `_`.
pub open spec fn file_char(c: char) -> char {
    if c == '/' || c == '\\' || c == ' ' || c == '.' {
        '_'
    } else {
        c
    }
}

/// Whether a character stays in a file name: alphanumeric, `_` or `-`.
pub open spec fn kept_in_name(c: char) -> bool {
    alphanumeric(c) || c == '_' || c == '-'
}

/// A playbook name made safe for file names: separators, spaces and dots
/// turned to `_`, then everything but alphanumerics, `_` and `-` dropped.
pub open spec fn sanitized(s: Seq<char>) -> Seq<char>
    decreases s.len(),
{
    if s.len() == 0 {
        Seq::empty()
    } else {
        let c = file_char(s.last());
        sanitized(s.drop_last()) + if kept_in_name(c) {
            seq![c]
        } else {
            Seq::<char>::empty()
        }
    }
}

/// A playbook name made safe for file names: see `sanitized`.
pub fn sanitize_name(name: &str) -> (r: String)
    ensures
        r@ == sanitized(name@),
{
    let v = chars_of(name);
    let mut r = String::new();
    let mut i: usize = 0;
    while i < v.len()
        invariant
            i <= v.len(),
            v@ == name@,
            r@ == sanitized(v@.subrange(0, i as int)),
        decreases v.len() - i,
    {
        let c0 = v[i];
        let c = if c0 == '/' || c0 == '\\' || c0 == ' ' || c0 == '.' { '_' } else { c0 };
        proof {
            let sub = v@.subrange(0, i + 1);
            assert(sub.drop_last() =~= v@.subrange(0, i as int));
            assert(sub.last() == c0);
        }
        if c == '_' || c == '-' || is_alphanumeric(c) {
            crate::text::push_char(&mut r, c);
        }
        proof {
            assert(r@ =~= sanitized(v@.subrange(0, i + 1)));
        }
        i = i + 1;
    }
    proof {
        assert(v@.subrange(0, i as int) =~= v@);
    }
    r
}

// ---------------------------------------------------------------------------
// Rotation
// ---------------------------------------------------------------------------

/// A file of this plugin's: its name starts with the prefix and ends in
/// `.log` or `.json`.
pub open spec fn is_log_name(name: Seq<char>, prefix: Seq<char>) -> bool {
    starts_with_seq(name, prefix) && (ends_with_seq(name, ".log"@) || ends_with_seq(name, ".json"@))
}

/// A log file modified at `modified` is older than `days` days at `now`
/// (never when `days` is 0 or the file is from the future).
pub open spec fn expired(modified: Elapsed, now: Elapsed, days: u32) -> bool {
    days > 0 && modified.nanos <= now.nanos && now.nanos - modified.nanos > days * 86400 * 1_000_000_000
}

/// The name without its extension (`Path::file_stem`) for a name that ends
/// in `.log` or `.json`.
pub open spec fn stem(name: Seq<char>) -> Seq<char> {
    if ends_with_seq(name, ".log"@) && name.len() > 4 {
        name.subrange(0, name.len() - 4)
    } else if ends_with_seq(name, ".json"@) && name.len() > 5 {
        name.subrange(0, name.len() - 5)
    } else {
        name
    }
}

/// The log files of `fs` that are too old, in order.
pub open spec fn aged_out(fs: Seq<(String, Elapsed)>, prefix: Seq<char>, now: Elapsed, days: u32) -> Seq<Seq<char>>
    decreases fs.len(),
{
    if fs.len() == 0 {
        Seq::empty()
    } else {
        aged_out(fs.drop_last(), prefix, now, days) + if is_log_name(fs.last().0@, prefix) && expired(
            fs.last().1,
            now,
            days,
        ) {
            seq![fs.last().0@]
        } else {
            Seq::<Seq<char>>::empty()
        }
    }
}

/// The stems of the log files of `fs` that are kept.
pub open spec fn kept_stems(fs: Seq<(String, Elapsed)>, prefix: Seq<char>, now: Elapsed, days: u32) -> Map<
    Seq<char>,
    bool,
>
    decreases fs.len(),
{
    if fs.len() == 0 {
        Map::empty()
    } else {
        let m = kept_stems(fs.drop_last(), prefix, now, days);
        if is_log_name(fs.last().0@, prefix) && !expired(fs.last().1, now, days) {
            m.insert(stem(fs.last().0@), true)
        } else {
            m
        }
    }
}

/// The `.log` and `.json` names of each stem, in order.
pub open spec fn pair_names(bs: Seq<Seq<char>>) -> Seq<Seq<char>>
    decreases bs.len(),
{
    if bs.len() == 0 {
        Seq::empty()
    } else {
        pair_names(bs.drop_last()) + seq![bs.last() + ".log"@, bs.last() + ".json"@]
    }
}

/// The files rotation removes from a directory holding `fs` (names with
/// their modification times) at `now`: nothing when neither a count nor an
/// age is configured; otherwise the log files older than the age limit,
/// then, when more stems are left than the count allows, both files of
/// each of the oldest-named surplus stems.
pub open spec fn rotation_victims(fs: Seq<(String, Elapsed)>, now: Elapsed, c: LogFileConfig) -> Seq<Seq<char>> {
    if c.max_log_files == 0 && c.max_log_age_days == 0 {
        Seq::empty()
    } else {
        let bases = sorted_keys(kept_stems(fs, c.log_prefix@, now, c.max_log_age_days));
        aged_out(fs, c.log_prefix@, now, c.max_log_age_days) + if c.max_log_files > 0 && bases.len() > c.max_log_files {
            pair_names(bases.take(bases.len() - c.max_log_files))
        } else {
            Seq::<Seq<char>>::empty()
        }
    }
}

fn stem_text(name: &str) -> (r: String)
    ensures
        r@ == stem(name@),
{
    let v = chars_of(name);
    let n = v.len();
    if str_ends_with(name, ".log") && n > 4 {
        string_of_chars(&v, 0, n - 4)
    } else if str_ends_with(name, ".json") && n > 5 {
        string_of_chars(&v, 0, n - 5)
    } else {
        name.to_owned()
    }
}

fn is_expired(modified: &Elapsed, now: &Elapsed, days: u32) -> (b: bool)
    ensures
        b == expired(*modified, *now, days),
{
    days > 0 && modified.nanos <= now.nanos && now.nanos - modified.nanos > (days as u128) * 86400 * 1_000_000_000
}

/// The names of the files rotation removes: see `rotation_victims`.
pub fn files_to_remove(files: &Vec<(String, Elapsed)>, now: &Elapsed, config: &LogFileConfig) -> (r: Vec<String>)
    ensures
        views(r@) == rotation_victims(files@, *now, *config),
{
    let mut out: Vec<String> = Vec::new();
    if config.max_log_files == 0 && config.max_log_age_days == 0 {
        proof {
            assert(views(out@) =~= rotation_victims(files@, *now, *config));
        }
        return out;
    }
    let prefix = config.log_prefix.as_str();
    let days = config.max_log_age_days;
    let mut stems: HostTable<bool> = HostTable::new();
    let mut i: usize = 0;
    while i < files.len()
        invariant
            i <= files.len(),
            stems.wf(),
            prefix@ == config.log_prefix@,
            days == config.max_log_age_days,
            views(out@) == aged_out(files@.subrange(0, i as int), prefix@, *now, days),
            stems@ == kept_stems(files@.subrange(0, i as int), prefix@, *now, days),
        decreases files.len() - i,
    {
        let name = files[i].0.as_str();
        let ghost prev = views(out@);
        proof {
            let sub = files@.subrange(0, i + 1);
            assert(sub.drop_last() =~= files@.subrange(0, i as int));
            assert(sub.last() == files@[i as int]);
        }
        if str_starts_with(name, prefix) && (str_ends_with(name, ".log") || str_ends_with(name, ".json")) {
            proof {
                reveal_strlit(".log");
                reveal_strlit(".json");
            }
            if is_expired(&files[i].1, now, days) {
                out.push(name.to_owned());
                proof {
                    assert(views(out@) =~= prev.push(name@));
                }
            } else {
                let st = stem_text(name);
                stems.set(st.as_str(), true);
            }
        }
        proof {
            reveal_strlit(".log");
            reveal_strlit(".json");
            assert(views(out@) =~= aged_out(files@.subrange(0, i + 1), prefix@, *now, days));
        }
        i = i + 1;
    }
    proof {
        assert(files@.subrange(0, i as int) =~= files@);
    }
    let ghost aged = views(out@);
    let max = config.max_log_files;
    if max > 0 {
        let bases = stems.sorted_names();
        proof {
            lemma_sorted_keys(views(bases@), stems@);
        }
        if bases.len() > max {
            let k = bases.len() - max;
            let mut j: usize = 0;
            while j < k
                invariant
                    j <= k,
                    k <= bases.len(),
                    views(out@) == aged + pair_names(views(bases@).subrange(0, j as int)),
                decreases k - j,
            {
                let ghost prev = views(out@);
                let mut a = bases[j].clone();
                push_str(&mut a, ".log");
                let mut b = bases[j].clone();
                push_str(&mut b, ".json");
                out.push(a);
                out.push(b);
                proof {
                    reveal_strlit(".log");
                    reveal_strlit(".json");
                    let sub = views(bases@).subrange(0, j + 1);
                    assert(sub.drop_last() =~= views(bases@).subrange(0, j as int));
                    assert(sub.last() == bases@[j as int]@);
                    assert(a@ == bases@[j as int]@ + ".log"@);
                    assert(b@ == bases@[j as int]@ + ".json"@);
                    assert(views(out@) =~= prev.push(a@).push(b@));
                    assert(pair_names(sub) == pair_names(sub.drop_last()) + seq![sub.last() + ".log"@, sub.last() + ".json"@]);
                    assert(views(out@) =~= aged + pair_names(sub));
                }
                j = j + 1;
            }
            proof {
                assert(views(bases@).subrange(0, k as int) =~= views(bases@).take(views(bases@).len() - max));
            }
        }
    }
    proof {
        assert(views(out@) =~= rotation_victims(files@, *now, *config));
    }
    out
}

} // verus!
