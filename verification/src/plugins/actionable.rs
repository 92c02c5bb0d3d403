//! The actionable plugin: silent on ok and skipped tasks, it reports only
//! what needs attention (changes, failures, unreachable hosts), suggests a
//! next step for common failures, and ends with a recap and a summary.
use vstd::prelude::*;
use crate::style::{
    blank, bold_style, color_style, line_view, lines_view, plain_style, push_line, push_owned,
    push_span, single, text_of, Color, Span, SpanView, Style,
};
use crate::table::{count_in, keys_where, strictly_sorted, views, HostTable};
use crate::text::{
    contains_seq, dec, dec_string, lowercase, pad_right, push_padded, push_str, repeat_char,
    repeat_string, str_contains, to_lowercase,
};
use crate::types::{classify, inc, outcome_of, wrap_inc, ExecutionResult, TaskOutcome};

verus! {

// ---------------------------------------------------------------------------
// Configuration
// ---------------------------------------------------------------------------

/// Configuration for the actionable callback.
#[derive(Clone, Copy, Debug, PartialEq, Eq, Structural)]
pub struct ActionableConfig {
    /// Show play headers.
    pub show_play_headers: bool,
    /// Suggest a next step after failures.
    pub show_action_suggestions: bool,
    /// Print the change summary at the end.
    pub show_change_summary: bool,
    /// Show how long changed tasks took.
    pub show_duration: bool,
    /// Use colors.
    pub use_colors: bool,
    /// Width of the host column in the recap.
    pub host_column_width: usize,
    /// Print the recap at the end.
    pub show_recap: bool,
}

/// The default actionable configuration.
pub open spec fn default_actionable_config() -> ActionableConfig {
    ActionableConfig {
        show_play_headers: true,
        show_action_suggestions: true,
        show_change_summary: true,
        show_duration: false,
        use_colors: true,
        host_column_width: 30,
        show_recap: true,
    }
}

impl Default for ActionableConfig {
    fn default() -> (c: Self)
        ensures
            c == default_actionable_config(),
    {
        ActionableConfig {
            show_play_headers: true,
            show_action_suggestions: true,
            show_change_summary: true,
            show_duration: false,
            use_colors: true,
            host_column_width: 30,
            show_recap: true,
        }
    }
}

impl ActionableConfig {
    /// Only changes and failures, no headers, suggestions, summary or recap.
    pub fn minimal() -> (c: Self)
        ensures
            c == (ActionableConfig {
                show_play_headers: false,
                show_action_suggestions: false,
                show_change_summary: false,
                show_duration: false,
                use_colors: true,
                host_column_width: 30,
                show_recap: false,
            }),
    {
        ActionableConfig {
            show_play_headers: false,
            show_action_suggestions: false,
            show_change_summary: false,
            show_duration: false,
            use_colors: true,
            host_column_width: 30,
            show_recap: false,
        }
    }

    /// Everything, durations included.
    pub fn verbose() -> (c: Self)
        ensures
            c == (ActionableConfig { show_duration: true, ..default_actionable_config() }),
    {
        ActionableConfig {
            show_play_headers: true,
            show_action_suggestions: true,
            show_change_summary: true,
            show_duration: true,
            use_colors: true,
            host_column_width: 30,
            show_recap: true,
        }
    }

    /// For CI logs: the defaults without colors.
    pub fn ci() -> (c: Self)
        ensures
            c == (ActionableConfig { use_colors: false, ..default_actionable_config() }),
    {
        ActionableConfig {
            show_play_headers: true,
            show_action_suggestions: true,
            show_change_summary: true,
            show_duration: false,
            use_colors: false,
            host_column_width: 30,
            show_recap: true,
        }
    }
}

// ---------------------------------------------------------------------------
// Per-host statistics
// ---------------------------------------------------------------------------

/// Task counts for one host.
#[derive(Clone, Copy, Debug, PartialEq, Eq, Structural)]
pub struct HostStats {
    pub ok: u32,
    pub changed: u32,
    pub failed: u32,
    pub skipped: u32,
    pub unreachable: u32,
}

/// A host with no tasks counted yet.
pub open spec fn zero_stats() -> HostStats {
    HostStats { ok: 0, changed: 0, failed: 0, skipped: 0, unreachable: 0 }
}

impl Default for HostStats {
    fn default() -> (s: Self)
        ensures
            s == zero_stats(),
    {
        HostStats { ok: 0, changed: 0, failed: 0, skipped: 0, unreachable: 0 }
    }
}

/// Something changed, failed, or was unreachable.
pub open spec fn stats_have_actions(s: HostStats) -> bool {
    s.changed > 0 || s.failed > 0 || s.unreachable > 0
}

/// Something failed or was unreachable.
pub open spec fn stats_have_failures(s: HostStats) -> bool {
    s.failed > 0 || s.unreachable > 0
}

impl HostStats {
    /// Whether something changed, failed, or was unreachable.
    pub fn has_actions(&self) -> (b: bool)
        ensures
            b == stats_have_actions(*self),
    {
        self.changed > 0 || self.failed > 0 || self.unreachable > 0
    }

    /// Whether something failed or was unreachable.
    pub fn has_failures(&self) -> (b: bool)
        ensures
            b == stats_have_failures(*self),
    {
        self.failed > 0 || self.unreachable > 0
    }
}

/// The counts of a host after one more task with the given outcome.
pub open spec fn count_outcome(s: HostStats, o: TaskOutcome) -> HostStats {
    match o {
        TaskOutcome::Skipped => HostStats { skipped: wrap_inc(s.skipped), ..s },
        TaskOutcome::Failed => HostStats { failed: wrap_inc(s.failed), ..s },
        TaskOutcome::Changed => HostStats { changed: wrap_inc(s.changed), ..s },
        TaskOutcome::Unchanged => HostStats { ok: wrap_inc(s.ok), ..s },
    }
}

/// A finished task counts once, under its own kind: a skipped task as
/// skipped, else a task that did not succeed as failed, else a changed one
/// as changed, else as ok; the other counts stay as they were.
pub proof fn lemma_count_result(s: HostStats, r: crate::types::ModuleResult)
    requires
        s.ok < u32::MAX,
        s.changed < u32::MAX,
        s.failed < u32::MAX,
        s.skipped < u32::MAX,
    ensures
        count_outcome(s, crate::types::outcome_of(r)).failed == s.failed + if !r.skipped && !r.success { 1int } else { 0int },
        count_outcome(s, crate::types::outcome_of(r)).skipped == s.skipped + if r.skipped { 1int } else { 0int },
        count_outcome(s, crate::types::outcome_of(r)).changed == s.changed + if !r.skipped && r.success && r.changed { 1int } else { 0int },
        count_outcome(s, crate::types::outcome_of(r)).ok == s.ok + if !r.skipped && r.success && !r.changed { 1int } else { 0int },
        count_outcome(s, crate::types::outcome_of(r)).unreachable == s.unreachable,
{
}

/// The counts of `host`, zero if it has none yet.
pub open spec fn stats_of(m: Map<Seq<char>, HostStats>, host: Seq<char>) -> HostStats {
    if m.contains_key(host) {
        m[host]
    } else {
        zero_stats()
    }
}

/// The exit code: 1 for task failures plus 2 for unreachable hosts (0 with
/// no counts at all); a failed task (while the host's failure count has not
/// reached its limit) sets the failure part, and an unreachable host sets
/// the unreachable part, whatever else was recorded.
pub proof fn lemma_exit_code(m: Map<Seq<char>, HostStats>, host: Seq<char>)
    ensures
        exit_code_for(m) == (if exists|h: Seq<char>| m.contains_key(h) && m[h].failed > 0 { 1int } else { 0int }) + (
        if exists|h: Seq<char>| m.contains_key(h) && m[h].unreachable > 0 {
            2int
        } else {
            0int
        }),
        exit_code_for(Map::<Seq<char>, HostStats>::empty()) == 0,
        stats_of(m, host).failed < u32::MAX ==> exit_code_for(
            m.insert(host, count_outcome(stats_of(m, host), TaskOutcome::Failed)),
        ) % 2 == 1,
        stats_of(m, host).unreachable < u32::MAX ==> exit_code_for(
            m.insert(host, HostStats { unreachable: wrap_inc(stats_of(m, host).unreachable), ..stats_of(m, host) }),
        ) >= 2,
{
    let f = m.insert(host, count_outcome(stats_of(m, host), TaskOutcome::Failed));
    if stats_of(m, host).failed < u32::MAX {
        assert(f.contains_key(host) && f[host].failed > 0);
    }
    let u = m.insert(host, HostStats { unreachable: wrap_inc(stats_of(m, host).unreachable), ..stats_of(m, host) });
    if stats_of(m, host).unreachable < u32::MAX {
        assert(u.contains_key(host) && u[host].unreachable > 0);
    }
}

// ---------------------------------------------------------------------------
// Suggestions
// ---------------------------------------------------------------------------

/// The next step suggested for a failure message, already lowercased.
pub open spec fn suggestion_for(lower: Seq<char>) -> Option<Seq<char>> {
    if contains_seq(lower, "permission denied"@) || contains_seq(lower, "access denied"@) {
        Some("Check file permissions and user privileges. Consider using become: true"@)
    } else if contains_seq(lower, "no such file"@) || contains_seq(lower, "file not found"@) {
        Some("Verify the file path exists. Check for typos in the path"@)
    } else if contains_seq(lower, "connection refused"@) || contains_seq(lower, "unreachable"@)
        || contains_seq(lower, "timed out"@) {
        Some("Check network connectivity and firewall rules. Verify the host is running"@)
    } else if contains_seq(lower, "package"@) && (contains_seq(lower, "not found"@) || contains_seq(
        lower,
        "failed"@,
    )) {
        Some("Check package sources and network connectivity. Verify package name is correct"@)
    } else if contains_seq(lower, "authentication"@) || contains_seq(lower, "credentials"@) {
        Some("Verify authentication credentials. Check SSH keys or passwords"@)
    } else if contains_seq(lower, "disk"@) && contains_seq(lower, "space"@) {
        Some("Free up disk space on the target host"@)
    } else if contains_seq(lower, "memory"@) || contains_seq(lower, "oom"@) {
        Some("Check available memory on the target host"@)
    } else if contains_seq(lower, "syntax error"@) || contains_seq(lower, "parse error"@) {
        Some("Review the task configuration for syntax errors"@)
    } else if contains_seq(lower, "service"@) && contains_seq(lower, "failed"@) {
        Some("Check service logs: journalctl -u <service> or /var/log"@)
    } else if contains_seq(lower, "command not found"@) || contains_seq(lower, "executable not found"@) {
        Some("Install the required command/package or check PATH"@)
    } else if contains_seq(lower, "timeout"@) {
        Some("Increase timeout value or check for slow operations"@)
    } else {
        None
    }
}

/// The characters of an optional string.
pub open spec fn opt_chars(o: Option<String>) -> Option<Seq<char>> {
    match o {
        Some(s) => Some(s@),
        None => None,
    }
}

// ---------------------------------------------------------------------------
// Output lines
// ---------------------------------------------------------------------------

/// The line for a changed task; `duration` is the seconds text shown in
/// brackets, if any.
pub open spec fn changed_line(
    color: bool,
    host: Seq<char>,
    task: Seq<char>,
    message: Seq<char>,
    duration: Option<Seq<char>>,
) -> Seq<SpanView> {
    let d = match duration {
        Some(t) => " ("@ + t + "s)"@,
        None => Seq::empty(),
    };
    if color {
        seq![
            ("CHANGED"@, bold_style(Color::Yellow)),
            (": "@, plain_style()),
            (host, bold_style(Color::BrightWhite)),
            (" | "@, plain_style()),
            (task, color_style(Color::Cyan)),
            (" | "@, plain_style()),
            (message, plain_style()),
            (d, color_style(Color::BrightBlack)),
        ]
    } else {
        seq![("CHANGED: "@ + host + " | "@ + task + " | "@ + message + d, plain_style())]
    }
}

/// The line for a failed task.
pub open spec fn failed_line(color: bool, host: Seq<char>, task: Seq<char>, message: Seq<char>) -> Seq<
    SpanView,
> {
    if color {
        seq![
            ("FAILED"@, bold_style(Color::Red)),
            (": "@, plain_style()),
            (host, bold_style(Color::BrightWhite)),
            (" | "@, plain_style()),
            (task, color_style(Color::Cyan)),
            (" | "@, plain_style()),
            (message, color_style(Color::Red)),
        ]
    } else {
        seq![("FAILED: "@ + host + " | "@ + task + " | "@ + message, plain_style())]
    }
}

/// The line for an unreachable host.
pub open spec fn unreachable_line(color: bool, host: Seq<char>, task: Seq<char>, message: Seq<char>) -> Seq<
    SpanView,
> {
    if color {
        seq![
            ("UNREACHABLE"@, bold_style(Color::Magenta)),
            (": "@, plain_style()),
            (host, bold_style(Color::BrightWhite)),
            (" | "@, plain_style()),
            (task, color_style(Color::Cyan)),
            (" | "@, plain_style()),
            (message, plain_style()),
        ]
    } else {
        seq![("UNREACHABLE: "@ + host + " | "@ + task + " | "@ + message, plain_style())]
    }
}

/// The "ACTION REQUIRED" line, with the label in `label_color`.
pub open spec fn action_line(color: bool, label_color: Color, suggestion: Seq<char>) -> Seq<SpanView> {
    if color {
        seq![
            ("  "@, plain_style()),
            ("ACTION REQUIRED"@, bold_style(label_color)),
            (": "@, plain_style()),
            (suggestion, color_style(Color::Yellow)),
        ]
    } else {
        seq![("  ACTION REQUIRED: "@ + suggestion, plain_style())]
    }
}

/// A count, in `style` when it is not zero.
pub open spec fn count_span(n: u32, style: Style) -> SpanView {
    (dec(n as nat), if n > 0 { style } else { plain_style() })
}

/// The recap line of one host.
pub open spec fn recap_line(color: bool, width: nat, host: Seq<char>, s: HostStats) -> Seq<SpanView> {
    let padded = pad_right(host, width);
    if color {
        let host_style = if s.failed > 0 || s.unreachable > 0 {
            bold_style(Color::Red)
        } else if s.changed > 0 {
            color_style(Color::Yellow)
        } else {
            color_style(Color::Green)
        };
        seq![
            (padded, host_style),
            (" : ok="@, plain_style()),
            count_span(s.ok, color_style(Color::Green)),
            ("    changed="@, plain_style()),
            count_span(s.changed, bold_style(Color::Yellow)),
            ("    failed="@, plain_style()),
            count_span(s.failed, bold_style(Color::Red)),
            ("    skipped="@ + dec(s.skipped as nat), plain_style()),
            ("    unreachable="@, plain_style()),
            count_span(s.unreachable, bold_style(Color::Magenta)),
        ]
    } else {
        seq![
            (padded + " : ok="@ + dec(s.ok as nat) + "    changed="@ + dec(s.changed as nat) + "    failed="@
                + dec(s.failed as nat) + "    skipped="@ + dec(s.skipped as nat) + "    unreachable="@
                + dec(s.unreachable as nat), plain_style()),
        ]
    }
}

/// Whatever the coloring, a host's recap line reads `host : ok=N
/// changed=N    failed=N    skipped=N    unreachable=N`, the host padded to
/// `width` and each label followed by the host's own count of that kind.
pub proof fn lemma_recap_line_text(color: bool, width: nat, host: Seq<char>, s: HostStats)
    ensures
        text_of(recap_line(color, width, host, s)) == pad_right(host, width) + " : ok="@ + dec(s.ok as nat) + "    changed="@ + dec(s.changed as nat)
            + "    failed="@ + dec(s.failed as nat) + "    skipped="@ + dec(s.skipped as nat) + "    unreachable="@
            + dec(s.unreachable as nat),
{
    reveal_with_fuel(text_of, 11);
    assert(text_of(recap_line(color, width, host, s)) =~= pad_right(host, width) + " : ok="@ + dec(s.ok as nat) + "    changed="@ + dec(s.changed as nat)
            + "    failed="@ + dec(s.failed as nat) + "    skipped="@ + dec(s.skipped as nat) + "    unreachable="@
            + dec(s.unreachable as nat));
}

/// The summary line, from the numbers of hosts with changes and with
/// failures.
pub open spec fn summary_line(color: bool, changed: nat, failed: nat) -> Seq<SpanView> {
    let label = if color {
        seq![("SUMMARY"@, bold_style(Color::BrightWhite)), (": "@, plain_style())]
    } else {
        seq![("SUMMARY: "@, plain_style())]
    };
    if failed > 0 {
        label + seq![
            (dec(changed), if color { color_style(Color::Yellow) } else { plain_style() }),
            (" host(s) changed, "@, plain_style()),
            (dec(failed), if color { bold_style(Color::Red) } else { plain_style() }),
            (" host(s) failed"@, plain_style()),
        ]
    } else if changed > 0 {
        label + seq![
            (dec(changed), if color { color_style(Color::Yellow) } else { plain_style() }),
            (" host(s) changed, all successful"@, plain_style()),
        ]
    } else {
        label + seq![("No changes made (all tasks ok or skipped)"@, plain_style())]
    }
}

/// Whatever the coloring, the summary reads `SUMMARY: N host(s) changed, N
/// host(s) failed` when a host failed, else `SUMMARY: N host(s) changed, all
/// successful` when one changed, else that no changes were made.
pub proof fn lemma_summary_line_text(color: bool, changed: nat, failed: nat)
    ensures
        failed > 0 ==> text_of(summary_line(color, changed, failed)) == "SUMMARY"@ + ": "@ + dec(changed)
            + " host(s) changed, "@ + dec(failed) + " host(s) failed"@,
        failed == 0 && changed > 0 ==> text_of(summary_line(color, changed, failed)) == "SUMMARY"@ + ": "@ + dec(
            changed,
        ) + " host(s) changed, all successful"@,
        failed == 0 && changed == 0 ==> text_of(summary_line(color, changed, failed)) == "SUMMARY"@ + ": "@
            + "No changes made (all tasks ok or skipped)"@,
{
    reveal_with_fuel(text_of, 7);
    reveal_strlit("SUMMARY: ");
    reveal_strlit("SUMMARY");
    reveal_strlit(": ");
    assert("SUMMARY: "@ =~= "SUMMARY"@ + ": "@);
    let t = text_of(summary_line(color, changed, failed));
    if failed > 0 {
        assert(t =~= "SUMMARY"@ + ": "@ + dec(changed) + " host(s) changed, "@ + dec(failed) + " host(s) failed"@);
    } else if changed > 0 {
        assert(t =~= "SUMMARY"@ + ": "@ + dec(changed) + " host(s) changed, all successful"@);
    } else {
        assert(t =~= "SUMMARY"@ + ": "@ + "No changes made (all tasks ok or skipped)"@);
    }
}

/// The closing line: the playbook's name, whether it succeeded, and how long
/// it took (`elapsed` is the seconds text).
pub open spec fn finished_line(color: bool, name: Seq<char>, success: bool, elapsed: Seq<char>) -> Seq<SpanView> {
    let status = if success { "completed successfully"@ } else { "failed"@ };
    let status_style = if !color {
        plain_style()
    } else if success {
        color_style(Color::Green)
    } else {
        bold_style(Color::Red)
    };
    seq![
        (name, if color { bold_style(Color::BrightWhite) } else { plain_style() }),
        (" "@, plain_style()),
        (status, status_style),
        (" in "@ + elapsed + "s"@, plain_style()),
    ]
}

/// A heading such as `PLAY RECAP ****`: the title, a space, then `n` stars.
pub open spec fn banner_line(color: bool, title: Seq<char>, n: nat) -> Seq<SpanView> {
    if color {
        seq![
            (title, bold_style(Color::BrightWhite)),
            (" "@, plain_style()),
            (repeat_char('*', n), color_style(Color::BrightBlack)),
        ]
    } else {
        seq![(title + " "@ + repeat_char('*', n), plain_style())]
    }
}

/// The play header: `PLAY [name] ****`.
pub open spec fn play_line(color: bool, name: Seq<char>) -> Seq<SpanView> {
    if color {
        seq![
            ("PLAY"@, bold_style(Color::BrightWhite)),
            (" ["@, plain_style()),
            (name, color_style(Color::Cyan)),
            ("] "@, plain_style()),
            (repeat_char('*', 50), color_style(Color::BrightBlack)),
        ]
    } else {
        seq![("PLAY ["@ + name + "] "@ + repeat_char('*', 50), plain_style())]
    }
}

/// The recap lines of hosts `hs` in order.
pub open spec fn recap_lines(color: bool, width: nat, hs: Seq<Seq<char>>, m: Map<Seq<char>, HostStats>) -> Seq<
    Seq<SpanView>,
>
    decreases hs.len(),
{
    if hs.len() == 0 {
        Seq::empty()
    } else {
        recap_lines(color, width, hs.drop_last(), m).push(recap_line(color, width, hs.last(), m[hs.last()]))
    }
}

/// The exit code: 3 with failures and unreachable hosts, 2 with unreachable
/// hosts only, 1 with failures only, 0 otherwise.
pub open spec fn exit_code_for(m: Map<Seq<char>, HostStats>) -> i32 {
    let f = exists|h: Seq<char>| m.contains_key(h) && m[h].failed > 0;
    let u = exists|h: Seq<char>| m.contains_key(h) && m[h].unreachable > 0;
    if f && u {
        3
    } else if u {
        2
    } else if f {
        1
    } else {
        0
    }
}

/// Appends the decimal form of `n` as a span.
fn push_count(l: &mut Vec<Span>, n: u32, style: Style)
    ensures
        line_view(final(l)@) == line_view(old(l)@).push(count_span(n, style)),
{
    let s = dec_string(n as u64);
    if n > 0 {
        push_owned(l, s, style);
    } else {
        push_owned(l, s, Style::plain());
    }
}

// ---------------------------------------------------------------------------
// The callback
// ---------------------------------------------------------------------------

/// Callback that shows only what needs attention.
#[derive(Debug)]
pub struct ActionableCallback {
    config: ActionableConfig,
    host_stats: HostTable<HostStats>,
    playbook_name: Option<String>,
    current_play: Option<String>,
    has_actions: bool,
    task_count: u32,
    started: bool,
}

impl ActionableCallback {
    /// The tables are well formed.
    pub closed spec fn wf(&self) -> bool {
        self.host_stats.wf()
    }

    /// The configuration.
    pub closed spec fn spec_config(&self) -> ActionableConfig {
        self.config
    }

    /// The counts per host.
    pub closed spec fn stats(&self) -> Map<Seq<char>, HostStats> {
        self.host_stats@
    }

    /// Whether something needed attention.
    pub closed spec fn spec_has_actions(&self) -> bool {
        self.has_actions
    }

    /// Tasks started so far.
    pub closed spec fn spec_task_count(&self) -> u32 {
        self.task_count
    }

    /// Whether a playbook started.
    pub closed spec fn spec_started(&self) -> bool {
        self.started
    }

    /// The current play's name.
    pub closed spec fn spec_current_play(&self) -> Option<Seq<char>> {
        opt_chars(self.current_play)
    }

    /// The playbook's name.
    pub closed spec fn spec_playbook_name(&self) -> Option<Seq<char>> {
        opt_chars(self.playbook_name)
    }

    /// An actionable callback with the default configuration.
    pub fn new() -> (c: Self)
        ensures
            c.wf(),
            c.spec_config() == default_actionable_config(),
            c.stats() == Map::<Seq<char>, HostStats>::empty(),
            !c.spec_has_actions(),
            !c.spec_started(),
    {
        Self::with_config(ActionableConfig::default())
    }

    /// An actionable callback with the given configuration.
    pub fn with_config(config: ActionableConfig) -> (c: Self)
        ensures
            c.wf(),
            c.spec_config() == config,
            c.stats() == Map::<Seq<char>, HostStats>::empty(),
            !c.spec_has_actions(),
            !c.spec_started(),
            c.spec_task_count() == 0,
    {
        ActionableCallback {
            config,
            host_stats: HostTable::new(),
            playbook_name: None,
            current_play: None,
            has_actions: false,
            task_count: 0,
            started: false,
        }
    }

    /// The configuration.
    pub fn config(&self) -> (c: ActionableConfig)
        ensures
            c == self.spec_config(),
    {
        self.config
    }

    /// Whether anything changed, failed or was unreachable.
    pub fn has_actions(&self) -> (b: bool)
        ensures
            b == self.spec_has_actions(),
    {
        self.has_actions
    }

    /// The counts of `host`, if it has any.
    pub fn host_stats(&self, host: &str) -> (r: Option<HostStats>)
        requires
            self.wf(),
        ensures
            r == if self.stats().contains_key(host@) {
                Some(self.stats()[host@])
            } else {
                None::<HostStats>
            },
    {
        self.host_stats.get(host)
    }

    fn count_hosts_changed(&self) -> (n: usize)
        requires
            self.wf(),
        ensures
            n == keys_where(self.stats(), |s: HostStats| s.changed > 0).len(),
    {
        let ghost f = |s: HostStats| s.changed > 0;
        let len = self.host_stats.len();
        let mut n: usize = 0;
        let mut i: usize = 0;
        while i < len
            invariant
                f == (|s: HostStats| s.changed > 0),
                self.wf(),
                len == self.host_stats.names().len(),
                i <= len,
                n <= i,
                n == count_in(self.host_stats.names().subrange(0, i as int), self.stats(), f),
            decreases len - i,
        {
            let (name, s) = self.host_stats.entry_at(i);
            proof {
                let sub = self.host_stats.names().subrange(0, i + 1);
                assert(sub.drop_last() =~= self.host_stats.names().subrange(0, i as int));
                assert(sub.last() == name@);
                assert(self.stats()[sub.last()] == s);
            }
            proof {
                let sub = self.host_stats.names().subrange(0, i + 1);
                assert(count_in(sub, self.stats(), f) == count_in(sub.drop_last(), self.stats(), f) + if f(s) {
                    1nat
                } else {
                    0nat
                });
            }
            if s.changed > 0 {
                n = n + 1;
            }
            i = i + 1;
        }
        proof {
            assert(self.host_stats.names().subrange(0, i as int) =~= self.host_stats.names());
            self.host_stats.lemma_count(f);
        }
        n
    }

    fn count_hosts_failed(&self) -> (n: usize)
        requires
            self.wf(),
        ensures
            n == keys_where(self.stats(), |s: HostStats| stats_have_failures(s)).len(),
    {
        let ghost f = |s: HostStats| stats_have_failures(s);
        let len = self.host_stats.len();
        let mut n: usize = 0;
        let mut i: usize = 0;
        while i < len
            invariant
                f == (|s: HostStats| stats_have_failures(s)),
                self.wf(),
                len == self.host_stats.names().len(),
                i <= len,
                n <= i,
                n == count_in(self.host_stats.names().subrange(0, i as int), self.stats(), f),
            decreases len - i,
        {
            let (name, s) = self.host_stats.entry_at(i);
            proof {
                let sub = self.host_stats.names().subrange(0, i + 1);
                assert(sub.drop_last() =~= self.host_stats.names().subrange(0, i as int));
                assert(sub.last() == name@);
                assert(self.stats()[sub.last()] == s);
            }
            proof {
                let sub = self.host_stats.names().subrange(0, i + 1);
                assert(count_in(sub, self.stats(), f) == count_in(sub.drop_last(), self.stats(), f) + if f(s) {
                    1nat
                } else {
                    0nat
                });
            }
            if s.has_failures() {
                n = n + 1;
            }
            i = i + 1;
        }
        proof {
            assert(self.host_stats.names().subrange(0, i as int) =~= self.host_stats.names());
            self.host_stats.lemma_count(f);
        }
        n
    }

    /// The number of hosts with at least one change.
    pub fn hosts_with_changes(&self) -> (n: u32)
        requires
            self.wf(),
        ensures
            n == keys_where(self.stats(), |s: HostStats| s.changed > 0).len() as u32,
    {
        self.count_hosts_changed() as u32
    }

    /// The number of hosts with a failure or an unreachable task.
    pub fn hosts_with_failures(&self) -> (n: u32)
        requires
            self.wf(),
        ensures
            n == keys_where(self.stats(), |s: HostStats| stats_have_failures(s)).len() as u32,
    {
        self.count_hosts_failed() as u32
    }

    /// The process exit code the results call for.
    pub fn exit_code(&self) -> (code: i32)
        requires
            self.wf(),
        ensures
            code == exit_code_for(self.stats()),
    {
        let len = self.host_stats.len();
        let mut has_failures = false;
        let mut has_unreachable = false;
        let mut i: usize = 0;
        proof {
            self.host_stats.lemma_view();
        }
        while i < len
            invariant
                self.wf(),
                len == self.host_stats.names().len(),
                i <= len,
                forall|k: Seq<char>| self.stats().contains_key(k) <==> self.host_stats.names().contains(k),
                has_failures == exists|j: int| 0 <= j < i && self.stats()[self.host_stats.names()[j]].failed > 0,
                has_unreachable == exists|j: int|
                    0 <= j < i && self.stats()[self.host_stats.names()[j]].unreachable > 0,
            decreases len - i,
        {
            let (name, s) = self.host_stats.entry_at(i);
            if s.failed > 0 {
                has_failures = true;
            }
            if s.unreachable > 0 {
                has_unreachable = true;
            }
            i = i + 1;
        }
        proof {
            let m = self.stats();
            let ns = self.host_stats.names();
            assert(has_failures == exists|h: Seq<char>| m.contains_key(h) && m[h].failed > 0) by {
                if has_failures {
                    let j = choose|j: int| 0 <= j < i && m[ns[j]].failed > 0;
                    assert(ns.contains(ns[j]));
                    assert(m.contains_key(ns[j]));
                }
                if exists|h: Seq<char>| m.contains_key(h) && m[h].failed > 0 {
                    let h = choose|h: Seq<char>| m.contains_key(h) && m[h].failed > 0;
                    assert(ns.contains(h));
                    let j = choose|j: int| 0 <= j < ns.len() && ns[j] == h;
                    assert(0 <= j < i && m[ns[j]].failed > 0);
                }
            }
            assert(has_unreachable == exists|h: Seq<char>| m.contains_key(h) && m[h].unreachable > 0) by {
                if has_unreachable {
                    let j = choose|j: int| 0 <= j < i && m[ns[j]].unreachable > 0;
                    assert(ns.contains(ns[j]));
                    assert(m.contains_key(ns[j]));
                }
                if exists|h: Seq<char>| m.contains_key(h) && m[h].unreachable > 0 {
                    let h = choose|h: Seq<char>| m.contains_key(h) && m[h].unreachable > 0;
                    assert(ns.contains(h));
                    let j = choose|j: int| 0 <= j < ns.len() && ns[j] == h;
                    assert(0 <= j < i && m[ns[j]].unreachable > 0);
                }
            }
        }
        if has_failures && has_unreachable {
            3
        } else if has_unreachable {
            2
        } else if has_failures {
            1
        } else {
            0
        }
    }

    /// The next step suggested for a failure message, if one is known.
    pub fn suggest_action(message: &str) -> (r: Option<String>)
        ensures
            opt_chars(r) == suggestion_for(lowercase(message@)),
    {
        let lower = to_lowercase(message);
        let l = lower.as_str();
        let s = if str_contains(l, "permission denied") || str_contains(l, "access denied") {
            "Check file permissions and user privileges. Consider using become: true"
        } else if str_contains(l, "no such file") || str_contains(l, "file not found") {
            "Verify the file path exists. Check for typos in the path"
        } else if str_contains(l, "connection refused") || str_contains(l, "unreachable") || str_contains(
            l,
            "timed out",
        ) {
            "Check network connectivity and firewall rules. Verify the host is running"
        } else if str_contains(l, "package") && (str_contains(l, "not found") || str_contains(l, "failed")) {
            "Check package sources and network connectivity. Verify package name is correct"
        } else if str_contains(l, "authentication") || str_contains(l, "credentials") {
            "Verify authentication credentials. Check SSH keys or passwords"
        } else if str_contains(l, "disk") && str_contains(l, "space") {
            "Free up disk space on the target host"
        } else if str_contains(l, "memory") || str_contains(l, "oom") {
            "Check available memory on the target host"
        } else if str_contains(l, "syntax error") || str_contains(l, "parse error") {
            "Review the task configuration for syntax errors"
        } else if str_contains(l, "service") && str_contains(l, "failed") {
            "Check service logs: journalctl -u <service> or /var/log"
        } else if str_contains(l, "command not found") || str_contains(l, "executable not found") {
            "Install the required command/package or check PATH"
        } else if str_contains(l, "timeout") {
            "Increase timeout value or check for slow operations"
        } else {
            return None;
        };
        Some(s.to_owned())
    }

    /// The line for a changed task; `duration_secs` is the seconds text
    /// shown when durations are on.
    pub fn format_changed(&self, host: &str, task_name: &str, message: &str, duration_secs: Option<&str>) -> (l: Vec<Span>)
        ensures
            line_view(l@) == changed_line(self.spec_config().use_colors, host@, task_name@, message@, match duration_secs {
                Some(t) => Some(t@),
                None => None,
            }),
    {
        let mut d = String::new();
        match duration_secs {
            Some(t) => {
                push_str(&mut d, " (");
                push_str(&mut d, t);
                push_str(&mut d, "s)");
            },
            None => {},
        }
        let mut l = Vec::new();
        if self.config.use_colors {
            push_span(&mut l, "CHANGED", Style::bold(Color::Yellow));
            push_span(&mut l, ": ", Style::plain());
            push_span(&mut l, host, Style::bold(Color::BrightWhite));
            push_span(&mut l, " | ", Style::plain());
            push_span(&mut l, task_name, Style::fg(Color::Cyan));
            push_span(&mut l, " | ", Style::plain());
            push_span(&mut l, message, Style::plain());
            push_owned(&mut l, d, Style::fg(Color::BrightBlack));
        } else {
            let mut t = String::new();
            push_str(&mut t, "CHANGED: ");
            push_str(&mut t, host);
            push_str(&mut t, " | ");
            push_str(&mut t, task_name);
            push_str(&mut t, " | ");
            push_str(&mut t, message);
            push_str(&mut t, d.as_str());
            push_owned(&mut l, t, Style::plain());
        }
        proof {
            assert(line_view(l@) =~= changed_line(self.config.use_colors, host@, task_name@, message@, match duration_secs {
                Some(t) => Some(t@),
                None => None,
            }));
        }
        l
    }

    /// The line for a failed task.
    pub fn format_failed(&self, host: &str, task_name: &str, message: &str) -> (l: Vec<Span>)
        ensures
            line_view(l@) == failed_line(self.spec_config().use_colors, host@, task_name@, message@),
    {
        let mut l = Vec::new();
        if self.config.use_colors {
            push_span(&mut l, "FAILED", Style::bold(Color::Red));
            push_span(&mut l, ": ", Style::plain());
            push_span(&mut l, host, Style::bold(Color::BrightWhite));
            push_span(&mut l, " | ", Style::plain());
            push_span(&mut l, task_name, Style::fg(Color::Cyan));
            push_span(&mut l, " | ", Style::plain());
            push_span(&mut l, message, Style::fg(Color::Red));
        } else {
            let mut t = String::new();
            push_str(&mut t, "FAILED: ");
            push_str(&mut t, host);
            push_str(&mut t, " | ");
            push_str(&mut t, task_name);
            push_str(&mut t, " | ");
            push_str(&mut t, message);
            push_owned(&mut l, t, Style::plain());
        }
        proof {
            assert(line_view(l@) =~= failed_line(self.config.use_colors, host@, task_name@, message@));
        }
        l
    }

    /// The line for an unreachable host.
    pub fn format_unreachable(&self, host: &str, task_name: &str, message: &str) -> (l: Vec<Span>)
        ensures
            line_view(l@) == unreachable_line(self.spec_config().use_colors, host@, task_name@, message@),
    {
        let mut l = Vec::new();
        if self.config.use_colors {
            push_span(&mut l, "UNREACHABLE", Style::bold(Color::Magenta));
            push_span(&mut l, ": ", Style::plain());
            push_span(&mut l, host, Style::bold(Color::BrightWhite));
            push_span(&mut l, " | ", Style::plain());
            push_span(&mut l, task_name, Style::fg(Color::Cyan));
            push_span(&mut l, " | ", Style::plain());
            push_span(&mut l, message, Style::plain());
        } else {
            let mut t = String::new();
            push_str(&mut t, "UNREACHABLE: ");
            push_str(&mut t, host);
            push_str(&mut t, " | ");
            push_str(&mut t, task_name);
            push_str(&mut t, " | ");
            push_str(&mut t, message);
            push_owned(&mut l, t, Style::plain());
        }
        proof {
            assert(line_view(l@) =~= unreachable_line(self.config.use_colors, host@, task_name@, message@));
        }
        l
    }

    fn action_spans(&self, label_color: Color, suggestion: &str) -> (l: Vec<Span>)
        ensures
            line_view(l@) == action_line(self.spec_config().use_colors, label_color, suggestion@),
    {
        let mut l = Vec::new();
        if self.config.use_colors {
            push_span(&mut l, "  ", Style::plain());
            push_span(&mut l, "ACTION REQUIRED", Style::bold(label_color));
            push_span(&mut l, ": ", Style::plain());
            push_span(&mut l, suggestion, Style::fg(Color::Yellow));
        } else {
            let mut t = String::new();
            push_str(&mut t, "  ACTION REQUIRED: ");
            push_str(&mut t, suggestion);
            push_owned(&mut l, t, Style::plain());
        }
        proof {
            assert(line_view(l@) =~= action_line(self.config.use_colors, label_color, suggestion@));
        }
        l
    }

    /// The recap line of one host.
    pub fn format_recap_line(&self, host: &str, stats: &HostStats) -> (l: Vec<Span>)
        ensures
            line_view(l@) == recap_line(
                self.spec_config().use_colors,
                self.spec_config().host_column_width as nat,
                host@,
                *stats,
            ),
    {
        let width = self.config.host_column_width;
        let mut padded = String::new();
        push_padded(&mut padded, host, width);
        let mut l = Vec::new();
        if self.config.use_colors {
            let host_style = if stats.failed > 0 || stats.unreachable > 0 {
                Style::bold(Color::Red)
            } else if stats.changed > 0 {
                Style::fg(Color::Yellow)
            } else {
                Style::fg(Color::Green)
            };
            push_owned(&mut l, padded, host_style);
            push_span(&mut l, " : ok=", Style::plain());
            push_count(&mut l, stats.ok, Style::fg(Color::Green));
            push_span(&mut l, "    changed=", Style::plain());
            push_count(&mut l, stats.changed, Style::bold(Color::Yellow));
            push_span(&mut l, "    failed=", Style::plain());
            push_count(&mut l, stats.failed, Style::bold(Color::Red));
            let mut sk = String::new();
            push_str(&mut sk, "    skipped=");
            let d = dec_string(stats.skipped as u64);
            push_str(&mut sk, d.as_str());
            push_owned(&mut l, sk, Style::plain());
            push_span(&mut l, "    unreachable=", Style::plain());
            push_count(&mut l, stats.unreachable, Style::bold(Color::Magenta));
        } else {
            let mut t = padded;
            push_str(&mut t, " : ok=");
            push_str(&mut t, dec_string(stats.ok as u64).as_str());
            push_str(&mut t, "    changed=");
            push_str(&mut t, dec_string(stats.changed as u64).as_str());
            push_str(&mut t, "    failed=");
            push_str(&mut t, dec_string(stats.failed as u64).as_str());
            push_str(&mut t, "    skipped=");
            push_str(&mut t, dec_string(stats.skipped as u64).as_str());
            push_str(&mut t, "    unreachable=");
            push_str(&mut t, dec_string(stats.unreachable as u64).as_str());
            push_owned(&mut l, t, Style::plain());
        }
        proof {
            assert(line_view(l@) =~= recap_line(
                self.config.use_colors,
                self.config.host_column_width as nat,
                host@,
                *stats,
            ));
        }
        l
    }

    // -----------------------------------------------------------------------
    // Events
    // -----------------------------------------------------------------------

    /// A playbook starts: counts and flags are reset.
    pub fn on_playbook_start(&mut self, name: &str)
        ensures
            final(self).wf(),
            final(self).stats() == Map::<Seq<char>, HostStats>::empty(),
            !final(self).spec_has_actions(),
            final(self).spec_task_count() == 0,
            final(self).spec_started(),
            final(self).spec_playbook_name() == Some(name@),
            final(self).spec_current_play() == old(self).spec_current_play(),
            final(self).spec_config() == old(self).spec_config(),
    {
        self.playbook_name = Some(name.to_owned());
        self.host_stats.clear();
        self.has_actions = false;
        self.task_count = 0;
        self.started = true;
    }

    /// A play starts: its hosts get (empty) counts; the header is shown if
    /// configured.
    pub fn on_play_start(&mut self, name: &str, hosts: &Vec<String>) -> (out: Vec<Vec<Span>>)
        requires
            old(self).wf(),
        ensures
            final(self).wf(),
            forall|k: Seq<char>| #[trigger] final(self).stats().contains_key(k) <==> (old(self).stats().contains_key(k)
                || views(hosts@).contains(k)),
            forall|k: Seq<char>| #[trigger] final(self).stats().contains_key(k) ==> final(self).stats()[k] == stats_of(
                old(self).stats(),
                k,
            ),
            final(self).spec_current_play() == Some(name@),
            lines_view(out@) == if old(self).spec_config().show_play_headers {
                seq![Seq::<SpanView>::empty(), play_line(old(self).spec_config().use_colors, name@)]
            } else {
                Seq::<Seq<SpanView>>::empty()
            },
            final(self).spec_has_actions() == old(self).spec_has_actions(),
            final(self).spec_task_count() == old(self).spec_task_count(),
            final(self).spec_started() == old(self).spec_started(),
            final(self).spec_config() == old(self).spec_config(),
    {
        self.current_play = Some(name.to_owned());
        let mut i: usize = 0;
        while i < hosts.len()
            invariant
                i <= hosts.len(),
                self.host_stats.wf(),
                opt_chars(self.current_play) == Some(name@),
                forall|k: Seq<char>| #[trigger] self.stats().contains_key(k) <==> (old(self).stats().contains_key(k)
                    || views(hosts@.subrange(0, i as int)).contains(k)),
                forall|k: Seq<char>| #[trigger] self.stats().contains_key(k) ==> self.stats()[k] == stats_of(
                    old(self).stats(),
                    k,
                ),
                self.config == old(self).config,
                self.has_actions == old(self).has_actions,
                self.task_count == old(self).task_count,
                self.started == old(self).started,
            decreases hosts.len() - i,
        {
            let ghost before = self.stats();
            let z = HostStats::default();
            self.host_stats.ensure(hosts[i].as_str(), z);
            proof {
                let k0 = hosts@[i as int]@;
                assert forall|k: Seq<char>| #[trigger] self.stats().contains_key(k) implies self.stats()[k] == stats_of(
                    old(self).stats(),
                    k,
                ) by {
                    if before.contains_key(k) {
                        assert(self.stats()[k] == before[k]);
                    } else {
                        assert(k == k0);
                        assert(!old(self).stats().contains_key(k));
                    }
                }
                let prev = views(hosts@.subrange(0, i as int));
                let cur = views(hosts@.subrange(0, i + 1));
                assert(cur =~= prev.push(hosts@[i as int]@));
                assert forall|k: Seq<char>| cur.contains(k) <==> (prev.contains(k) || k == hosts@[i as int]@) by {
                    if cur.contains(k) {
                        let j = choose|j: int| 0 <= j < cur.len() && cur[j] == k;
                        if j < prev.len() {
                            assert(prev[j] == k);
                        }
                    }
                    if prev.contains(k) {
                        let j = choose|j: int| 0 <= j < prev.len() && prev[j] == k;
                        assert(cur[j] == k);
                    }
                    if k == hosts@[i as int]@ {
                        assert(cur[i as int] == k);
                    }
                }
            }
            i = i + 1;
        }
        proof {
            assert(hosts@.subrange(0, i as int) =~= hosts@);
            assert(views(hosts@.subrange(0, i as int)) =~= views(hosts@));
        }

        let mut out = Vec::new();
        if self.config.show_play_headers {
            push_line(&mut out, blank());
            let mut l = Vec::new();
            let stars = repeat_string('*', 50);
            if self.config.use_colors {
                push_span(&mut l, "PLAY", Style::bold(Color::BrightWhite));
                push_span(&mut l, " [", Style::plain());
                push_span(&mut l, name, Style::fg(Color::Cyan));
                push_span(&mut l, "] ", Style::plain());
                push_owned(&mut l, stars, Style::fg(Color::BrightBlack));
            } else {
                let mut t = String::new();
                push_str(&mut t, "PLAY [");
                push_str(&mut t, name);
                push_str(&mut t, "] ");
                push_str(&mut t, stars.as_str());
                push_owned(&mut l, t, Style::plain());
            }
            proof {
                assert(line_view(l@) =~= play_line(self.config.use_colors, name@));
            }
            push_line(&mut out, l);
        }
        proof {
            if self.config.show_play_headers {
                assert(lines_view(out@) =~= seq![Seq::<SpanView>::empty(), play_line(self.config.use_colors, name@)]);
            } else {
                assert(lines_view(out@) =~= Seq::<Seq<SpanView>>::empty());
            }
        }
        out
    }

    /// A task starts (counted, nothing shown).
    pub fn on_task_start(&mut self, name: &str, host: &str)
        ensures
            final(self).spec_task_count() == wrap_inc(old(self).spec_task_count()),
            final(self).stats() == old(self).stats(),
            final(self).wf() == old(self).wf(),
            final(self).spec_has_actions() == old(self).spec_has_actions(),
            final(self).spec_started() == old(self).spec_started(),
            final(self).spec_config() == old(self).spec_config(),
    {
        self.task_count = inc(self.task_count);
    }

    /// A task finished: it is counted for its host. Failures and changes are
    /// shown at once (a failure with a suggested next step when one is
    /// known and suggestions are on); ok and skipped tasks stay silent.
    /// `duration_secs` is the task's duration as seconds text.
    pub fn on_task_complete(&mut self, result: &ExecutionResult, duration_secs: &str) -> (out: Vec<Vec<Span>>)
        requires
            old(self).wf(),
        ensures
            final(self).wf(),
            final(self).stats() == old(self).stats().insert(
                result.host@,
                count_outcome(stats_of(old(self).stats(), result.host@), outcome_of(result.result)),
            ),
            final(self).spec_has_actions() == (old(self).spec_has_actions() || outcome_of(result.result)
                == TaskOutcome::Failed || outcome_of(result.result) == TaskOutcome::Changed),
            lines_view(out@) == task_lines(old(self).spec_config(), result, duration_secs@),
            final(self).spec_task_count() == old(self).spec_task_count(),
            final(self).spec_started() == old(self).spec_started(),
            final(self).spec_config() == old(self).spec_config(),
    {
        let host = result.host.as_str();
        let s0 = match self.host_stats.get(host) {
            Some(s) => s,
            None => HostStats::default(),
        };
        let outcome = classify(&result.result);
        let mut out = Vec::new();
        let mut s = s0;
        match outcome {
            TaskOutcome::Skipped => {
                s.skipped = inc(s.skipped);
            },
            TaskOutcome::Failed => {
                s.failed = inc(s.failed);
                self.has_actions = true;
                let message = result.result.message.as_str();
                push_line(&mut out, self.format_failed(host, result.task_name.as_str(), message));
                if self.config.show_action_suggestions {
                    match Self::suggest_action(message) {
                        Some(sugg) => {
                            push_line(&mut out, self.action_spans(Color::Red, sugg.as_str()));
                        },
                        None => {},
                    }
                }
            },
            TaskOutcome::Changed => {
                s.changed = inc(s.changed);
                self.has_actions = true;
                let d = if self.config.show_duration {
                    Some(duration_secs)
                } else {
                    None
                };
                push_line(
                    &mut out,
                    self.format_changed(host, result.task_name.as_str(), result.result.message.as_str(), d),
                );
            },
            TaskOutcome::Unchanged => {
                s.ok = inc(s.ok);
            },
        }
        self.host_stats.set(host, s);
        proof {
            assert(lines_view(out@) =~= task_lines(self.config, result, duration_secs@));
        }
        out
    }

    /// A host could not be reached: counted, shown at once, with a
    /// suggestion when suggestions are on.
    pub fn on_host_unreachable(&mut self, host: &str, task_name: &str, error: &str) -> (out: Vec<Vec<Span>>)
        requires
            old(self).wf(),
        ensures
            final(self).wf(),
            final(self).stats() == old(self).stats().insert(
                host@,
                HostStats {
                    unreachable: wrap_inc(stats_of(old(self).stats(), host@).unreachable),
                    ..stats_of(old(self).stats(), host@)
                },
            ),
            final(self).spec_has_actions(),
            lines_view(out@) == seq![unreachable_line(old(self).spec_config().use_colors, host@, task_name@, error@)] + if old(self).spec_config().show_action_suggestions {
                seq![
                    action_line(
                        old(self).spec_config().use_colors,
                        Color::Magenta,
                        "Check network connectivity, SSH configuration, and firewall rules"@,
                    ),
                ]
            } else {
                Seq::<Seq<SpanView>>::empty()
            },
            final(self).spec_config() == old(self).spec_config(),
    {
        let mut s = match self.host_stats.get(host) {
            Some(s) => s,
            None => HostStats::default(),
        };
        s.unreachable = inc(s.unreachable);
        self.host_stats.set(host, s);
        self.has_actions = true;
        let mut out = Vec::new();
        push_line(&mut out, self.format_unreachable(host, task_name, error));
        if self.config.show_action_suggestions {
            push_line(
                &mut out,
                self.action_spans(Color::Magenta, "Check network connectivity, SSH configuration, and firewall rules"),
            );
        }
        proof {
            if self.config.show_action_suggestions {
                assert(lines_view(out@) =~= seq![unreachable_line(self.config.use_colors, host@, task_name@, error@)]
                    + seq![
                    action_line(
                        self.config.use_colors,
                        Color::Magenta,
                        "Check network connectivity, SSH configuration, and firewall rules"@,
                    ),
                ]);
            } else {
                assert(lines_view(out@) =~= seq![unreachable_line(self.config.use_colors, host@, task_name@, error@)]);
            }
        }
        out
    }

    /// The playbook ended: the recap (hosts in name order), the change
    /// summary, and, when the playbook was started, how it ended and how
    /// long it took (`elapsed_secs` is the seconds text).
    pub fn on_playbook_end(&self, name: &str, success: bool, elapsed_secs: &str) -> (out: Vec<Vec<Span>>)
        requires
            self.wf(),
        ensures
            ({
                let color = self.spec_config().use_colors;
                let m = self.stats();
                let recap = if self.spec_config().show_recap && m.dom().len() > 0 {
                    seq![Seq::<SpanView>::empty(), banner_line(color, "PLAY RECAP"@, 62)] + recap_lines(
                        color,
                        self.spec_config().host_column_width as nat,
                        sorted_keys(m),
                        m,
                    )
                } else {
                    Seq::empty()
                };
                let summary = if self.spec_config().show_change_summary {
                    seq![
                        Seq::<SpanView>::empty(),
                        summary_line(
                            color,
                            keys_where(m, |s: HostStats| s.changed > 0).len(),
                            keys_where(m, |s: HostStats| stats_have_failures(s)).len(),
                        ),
                    ]
                } else {
                    Seq::empty()
                };
                let fin = if self.spec_started() {
                    seq![Seq::<SpanView>::empty(), finished_line(color, name@, success, elapsed_secs@)]
                } else {
                    Seq::empty()
                };
                lines_view(out@) == recap + summary + fin
            }),
    {
        let color = self.config.use_colors;
        let mut out: Vec<Vec<Span>> = Vec::new();
        let ghost m = self.stats();
        let n = self.host_stats.len();
        if self.config.show_recap && n > 0 {
            push_line(&mut out, blank());
            push_line(&mut out, banner(color, "PLAY RECAP", 62));
            let hosts = self.host_stats.sorted_names();
            proof {
                lemma_sorted_keys(views(hosts@), m);
            }
            let ghost start = lines_view(out@);
            let mut i: usize = 0;
            while i < hosts.len()
                invariant
                    self.wf(),
                    m == self.stats(),
                    color == self.config.use_colors,
                    i <= hosts.len(),
                    forall|k: Seq<char>| m.contains_key(k) <==> views(hosts@).contains(k),
                    lines_view(out@) == start + recap_lines(
                        color,
                        self.config.host_column_width as nat,
                        views(hosts@).subrange(0, i as int),
                        m,
                    ),
                decreases hosts.len() - i,
            {
                let h = hosts[i].as_str();
                proof {
                    assert(views(hosts@)[i as int] == h@);
                    assert(views(hosts@).contains(h@));
                }
                let s = match self.host_stats.get(h) {
                    Some(s) => s,
                    None => HostStats::default(),
                };
                push_line(&mut out, self.format_recap_line(h, &s));
                proof {
                    let sub = views(hosts@).subrange(0, i + 1);
                    assert(sub.drop_last() =~= views(hosts@).subrange(0, i as int));
                    assert(sub.last() == h@);
                }
                i = i + 1;
            }
            proof {
                assert(views(hosts@).subrange(0, i as int) =~= views(hosts@));
                self.host_stats.lemma_view();
            }
        }
        let ghost after_recap = lines_view(out@);
        if self.config.show_change_summary {
            let changed = self.count_hosts_changed();
            let failed = self.count_hosts_failed();
            push_line(&mut out, blank());
            push_line(&mut out, summary_spans(color, changed, failed));
        }
        let ghost after_summary = lines_view(out@);
        if self.started {
            push_line(&mut out, blank());
            let mut l = Vec::new();
            push_span(&mut l, name, Style::bold_if(color, Color::BrightWhite));
            push_span(&mut l, " ", Style::plain());
            if success {
                push_span(&mut l, "completed successfully", Style::fg_if(color, Color::Green));
            } else {
                push_span(&mut l, "failed", Style::bold_if(color, Color::Red));
            }
            let mut t = String::new();
            push_str(&mut t, " in ");
            push_str(&mut t, elapsed_secs);
            push_str(&mut t, "s");
            push_owned(&mut l, t, Style::plain());
            proof {
                assert(line_view(l@) =~= finished_line(color, name@, success, elapsed_secs@));
            }
            push_line(&mut out, l);
        }
        proof {
            self.host_stats.lemma_view();
            let recap = if self.config.show_recap && m.dom().len() > 0 {
                seq![Seq::<SpanView>::empty(), banner_line(color, "PLAY RECAP"@, 62)] + recap_lines(
                    color,
                    self.config.host_column_width as nat,
                    sorted_keys(m),
                    m,
                )
            } else {
                Seq::empty()
            };
            assert(after_recap =~= recap);
            let summary = if self.config.show_change_summary {
                seq![
                    Seq::<SpanView>::empty(),
                    summary_line(
                        color,
                        keys_where(m, |s: HostStats| s.changed > 0).len(),
                        keys_where(m, |s: HostStats| stats_have_failures(s)).len(),
                    ),
                ]
            } else {
                Seq::empty()
            };
            assert(after_summary =~= recap + summary);
            let fin = if self.started {
                seq![Seq::<SpanView>::empty(), finished_line(color, name@, success, elapsed_secs@)]
            } else {
                Seq::empty()
            };
            assert(lines_view(out@) =~= recap + summary + fin);
        }
        out
    }
}

/// The lines a finished task shows.
pub open spec fn task_lines(config: ActionableConfig, result: &ExecutionResult, duration: Seq<char>) -> Seq<
    Seq<SpanView>,
> {
    let color = config.use_colors;
    let host = result.host@;
    let task = result.task_name@;
    let message = result.result.message@;
    match outcome_of(result.result) {
        TaskOutcome::Failed => seq![failed_line(color, host, task, message)] + match suggestion_for(
            lowercase(message),
        ) {
            Some(s) => if config.show_action_suggestions {
                seq![action_line(color, Color::Red, s)]
            } else {
                Seq::empty()
            },
            None => Seq::empty(),
        },
        TaskOutcome::Changed => seq![
            changed_line(color, host, task, message, if config.show_duration {
                Some(duration)
            } else {
                None
            }),
        ],
        _ => Seq::empty(),
    }
}

/// A failed task shows its failure line, followed by the suggestion for its
/// message when suggestions are on and one applies; a changed task shows
/// its change line; ok and skipped tasks show nothing.
pub proof fn lemma_task_lines(config: ActionableConfig, result: &ExecutionResult, duration: Seq<char>)
    ensures
        !result.result.skipped && !result.result.success ==> task_lines(config, result, duration).len() >= 1
            && task_lines(config, result, duration)[0] == failed_line(
            config.use_colors,
            result.host@,
            result.task_name@,
            result.result.message@,
        ) && (task_lines(config, result, duration).len() == 2 <==> config.show_action_suggestions && suggestion_for(
            lowercase(result.result.message@),
        ) is Some),
        !result.result.skipped && result.result.success && result.result.changed ==> task_lines(
            config,
            result,
            duration,
        ).len() == 1,
        (result.result.skipped || (result.result.success && !result.result.changed)) ==> task_lines(
            config,
            result,
            duration,
        ).len() == 0,
{
}

/// A message about a denied permission or access gets the permission
/// suggestion; one about a missing file, the path suggestion.
pub proof fn lemma_first_suggestions(lower: Seq<char>)
    ensures
        contains_seq(lower, "permission denied"@) || contains_seq(lower, "access denied"@) ==> suggestion_for(lower)
            == Some("Check file permissions and user privileges. Consider using become: true"@),
        !(contains_seq(lower, "permission denied"@) || contains_seq(lower, "access denied"@)) && (contains_seq(
            lower,
            "no such file"@,
        ) || contains_seq(lower, "file not found"@)) ==> suggestion_for(lower) == Some(
            "Verify the file path exists. Check for typos in the path"@,
        ),
{
}

/// The names of a map, in `str` order.
pub open spec fn sorted_keys<T>(m: Map<Seq<char>, T>) -> Seq<Seq<char>> {
    choose|s: Seq<Seq<char>>| strictly_sorted(s) && forall|k: Seq<char>| m.contains_key(k) <==> s.contains(k)
}

/// A strictly sorted list of exactly the names of a map is its sorted names.
pub proof fn lemma_sorted_keys<T>(s: Seq<Seq<char>>, m: Map<Seq<char>, T>)
    requires
        strictly_sorted(s),
        forall|k: Seq<char>| m.contains_key(k) <==> s.contains(k),
    ensures
        sorted_keys(m) == s,
{
    let t = sorted_keys(m);
    crate::table::lemma_strictly_sorted_unique(s, t);
}

fn banner(color: bool, title: &str, n: usize) -> (l: Vec<Span>)
    ensures
        line_view(l@) == banner_line(color, title@, n as nat),
{
    let stars = repeat_string('*', n);
    let mut l = Vec::new();
    if color {
        push_span(&mut l, title, Style::bold(Color::BrightWhite));
        push_span(&mut l, " ", Style::plain());
        push_owned(&mut l, stars, Style::fg(Color::BrightBlack));
    } else {
        let mut t = String::new();
        push_str(&mut t, title);
        push_str(&mut t, " ");
        push_str(&mut t, stars.as_str());
        push_owned(&mut l, t, Style::plain());
    }
    proof {
        assert(line_view(l@) =~= banner_line(color, title@, n as nat));
    }
    l
}

fn summary_spans(color: bool, changed: usize, failed: usize) -> (l: Vec<Span>)
    ensures
        line_view(l@) == summary_line(color, changed as nat, failed as nat),
{
    let mut l = Vec::new();
    if color {
        push_span(&mut l, "SUMMARY", Style::bold(Color::BrightWhite));
        push_span(&mut l, ": ", Style::plain());
    } else {
        push_span(&mut l, "SUMMARY: ", Style::plain());
    }
    if failed > 0 {
        push_owned(&mut l, dec_string(changed as u64), Style::fg_if(color, Color::Yellow));
        push_span(&mut l, " host(s) changed, ", Style::plain());
        push_owned(&mut l, dec_string(failed as u64), Style::bold_if(color, Color::Red));
        push_span(&mut l, " host(s) failed", Style::plain());
    } else if changed > 0 {
        push_owned(&mut l, dec_string(changed as u64), Style::fg_if(color, Color::Yellow));
        push_span(&mut l, " host(s) changed, all successful", Style::plain());
    } else {
        push_span(&mut l, "No changes made (all tasks ok or skipped)", Style::plain());
    }
    proof {
        assert(line_view(l@) =~= summary_line(color, changed as nat, failed as nat));
    }
    l
}

} // verus!
